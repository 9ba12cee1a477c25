use excavation::blocks::{Block, BlockKind, Connector, ConnectorShape};
use excavation::coords::{Coord, Side};
use excavation::flood::{is_supported, loose_cells, supported_cells, supported_set};
use excavation::grid::Grid;

fn conn(shape: ConnectorShape, sticks_out: bool) -> Connector {
    Connector { shape, sticks_out }
}

fn bare(kind: BlockKind) -> Block {
    Block::new(kind, [None, None, None, None])
}

fn with_side(kind: BlockKind, side: Side, c: Connector) -> Block {
    let mut sides = [None, None, None, None];
    sides[side.index()] = Some(c);
    Block::new(kind, sides)
}

fn sorted(cells: Vec<Coord>) -> Vec<(i32, i32)> {
    let mut out: Vec<(i32, i32)> = cells.iter().map(|c| (c.x, c.y)).collect();
    out.sort();
    out
}

#[test]
fn a_lone_anchor_is_supported() {
    let mut g = Grid::new();
    g.insert(Coord::new(-5, 0), bare(BlockKind::Anchor));
    assert!(is_supported(&g, Coord::new(-5, 0)));
    assert_eq!(sorted(supported_cells(&g)), vec![(-5, 0)]);
    assert!(loose_cells(&g).is_empty());
}

#[test]
fn an_empty_cell_is_not_supported() {
    let mut g = Grid::new();
    g.insert(Coord::new(-5, 0), bare(BlockKind::Anchor));
    assert!(!is_supported(&g, Coord::new(-5, -1)));
    assert!(!is_supported(&g, Coord::new(0, 0)));
    assert!(supported_cells(&Grid::new()).is_empty());
}

#[test]
fn a_block_bonded_to_an_anchor_is_supported() {
    let mut g = Grid::new();
    g.insert(
        Coord::new(-5, 0),
        with_side(BlockKind::Anchor, Side::East, conn(ConnectorShape::Square, true)),
    );
    g.insert(
        Coord::new(-4, 0),
        with_side(BlockKind::Scaffold, Side::West, conn(ConnectorShape::Square, false)),
    );
    assert!(is_supported(&g, Coord::new(-5, 0)));
    assert!(is_supported(&g, Coord::new(-4, 0)));
    assert_eq!(sorted(supported_cells(&g)), vec![(-5, 0), (-4, 0)]);
    assert!(loose_cells(&g).is_empty());
}

#[test]
fn a_block_with_another_shape_is_not_supported() {
    let mut g = Grid::new();
    g.insert(
        Coord::new(-5, 0),
        with_side(BlockKind::Anchor, Side::East, conn(ConnectorShape::Square, true)),
    );
    g.insert(
        Coord::new(-4, 0),
        with_side(BlockKind::Scaffold, Side::West, conn(ConnectorShape::Round, false)),
    );
    assert!(is_supported(&g, Coord::new(-5, 0)));
    assert!(!is_supported(&g, Coord::new(-4, 0)));
    assert_eq!(sorted(loose_cells(&g)), vec![(-4, 0)]);
}

#[test]
fn two_protruding_connectors_do_not_bond() {
    let mut g = Grid::new();
    g.insert(
        Coord::new(5, 2),
        with_side(BlockKind::Anchor, Side::West, conn(ConnectorShape::Pointy, true)),
    );
    g.insert(
        Coord::new(4, 2),
        with_side(BlockKind::Solid, Side::East, conn(ConnectorShape::Pointy, true)),
    );
    assert!(!is_supported(&g, Coord::new(4, 2)));
}

#[test]
fn a_block_resting_on_a_supported_block_is_supported() {
    let mut g = Grid::new();
    g.insert(Coord::new(-5, 3), bare(BlockKind::Anchor));
    g.insert(Coord::new(-5, 2), bare(BlockKind::Scaffold));
    g.insert(Coord::new(-5, 1), bare(BlockKind::Solid));
    g.insert(Coord::new(-5, 0), bare(BlockKind::Scaffold));
    assert_eq!(sorted(supported_cells(&g)), vec![(-5, 0), (-5, 1), (-5, 2), (-5, 3)]);
}

#[test]
fn a_block_under_an_anchor_needs_a_bond() {
    let mut g = Grid::new();
    g.insert(Coord::new(-5, 0), bare(BlockKind::Anchor));
    g.insert(Coord::new(-5, 1), bare(BlockKind::Scaffold));
    assert!(!is_supported(&g, Coord::new(-5, 1)));
    let mut h = Grid::new();
    h.insert(
        Coord::new(-5, 0),
        with_side(BlockKind::Anchor, Side::South, conn(ConnectorShape::Round, true)),
    );
    h.insert(
        Coord::new(-5, 1),
        with_side(BlockKind::Scaffold, Side::North, conn(ConnectorShape::Round, false)),
    );
    assert!(is_supported(&h, Coord::new(-5, 1)));
}

#[test]
fn support_runs_along_a_chain_and_up_from_it() {
    // anchor - a - b, with c resting on b and d hanging loose beside c
    let out = conn(ConnectorShape::Square, true);
    let inn = conn(ConnectorShape::Square, false);
    let mut g = Grid::new();
    g.insert(Coord::new(-5, 4), with_side(BlockKind::Anchor, Side::East, out));
    g.insert(
        Coord::new(-4, 4),
        Block::new(BlockKind::Solid, [None, Some(out), None, Some(inn)]),
    );
    g.insert(Coord::new(-3, 4), with_side(BlockKind::Solid, Side::West, inn));
    g.insert(Coord::new(-3, 3), bare(BlockKind::Scaffold));
    g.insert(Coord::new(-2, 3), bare(BlockKind::Scaffold));
    assert_eq!(sorted(supported_cells(&g)), vec![(-5, 4), (-4, 4), (-3, 3), (-3, 4)]);
    assert_eq!(sorted(loose_cells(&g)), vec![(-2, 3)]);
}

#[test]
fn without_an_anchor_everything_is_loose() {
    let out = conn(ConnectorShape::Square, true);
    let inn = conn(ConnectorShape::Square, false);
    let mut g = Grid::new();
    g.insert(Coord::new(0, 4), with_side(BlockKind::Solid, Side::East, out));
    g.insert(Coord::new(1, 4), with_side(BlockKind::Solid, Side::West, inn));
    g.insert(Coord::new(1, 3), bare(BlockKind::Scaffold));
    assert!(supported_cells(&g).is_empty());
    assert_eq!(sorted(loose_cells(&g)), vec![(0, 4), (1, 3), (1, 4)]);
}

#[test]
fn taking_the_only_anchor_away_leaves_what_hung_on_it_loose() {
    let out = conn(ConnectorShape::Round, true);
    let inn = conn(ConnectorShape::Round, false);
    let mut g = Grid::new();
    g.insert(Coord::new(-5, 0), with_side(BlockKind::Anchor, Side::East, out));
    g.insert(Coord::new(-4, 0), with_side(BlockKind::Solid, Side::West, inn));
    g.insert(Coord::new(-4, -1), bare(BlockKind::Scaffold));
    g.insert(Coord::new(5, 0), bare(BlockKind::Anchor));
    g.insert(Coord::new(5, -1), bare(BlockKind::Scaffold));
    assert!(loose_cells(&g).is_empty());
    g.remove(Coord::new(-5, 0));
    assert_eq!(sorted(loose_cells(&g)), vec![(-4, -1), (-4, 0)]);
    assert_eq!(sorted(supported_cells(&g)), vec![(5, -1), (5, 0)]);
}

#[test]
fn a_block_held_from_two_sides_survives_the_loss_of_one() {
    let out = conn(ConnectorShape::Round, true);
    let inn = conn(ConnectorShape::Round, false);
    let mut g = Grid::new();
    g.insert(Coord::new(-1, 0), with_side(BlockKind::Anchor, Side::East, out));
    g.insert(
        Coord::new(0, 0),
        Block::new(BlockKind::Solid, [None, Some(inn), None, Some(inn)]),
    );
    g.insert(Coord::new(1, 0), with_side(BlockKind::Anchor, Side::West, out));
    assert!(is_supported(&g, Coord::new(0, 0)));
    g.remove(Coord::new(-1, 0));
    assert!(is_supported(&g, Coord::new(0, 0)));
    g.remove(Coord::new(1, 0));
    assert!(!is_supported(&g, Coord::new(0, 0)));
}

#[test]
fn a_loop_of_bonds_is_walked_once() {
    // a ring of four blocks below an anchor: the search ends and finds all
    let out = conn(ConnectorShape::Pointy, true);
    let inn = conn(ConnectorShape::Pointy, false);
    let mut g = Grid::new();
    g.insert(Coord::new(0, 0), with_side(BlockKind::Anchor, Side::South, out));
    g.insert(
        Coord::new(0, 1),
        Block::new(BlockKind::Solid, [Some(inn), Some(out), Some(out), None]),
    );
    g.insert(
        Coord::new(1, 1),
        Block::new(BlockKind::Solid, [None, None, Some(out), Some(inn)]),
    );
    g.insert(
        Coord::new(0, 2),
        Block::new(BlockKind::Solid, [Some(inn), Some(out), None, None]),
    );
    g.insert(
        Coord::new(1, 2),
        Block::new(BlockKind::Solid, [Some(inn), None, None, Some(inn)]),
    );
    assert_eq!(sorted(supported_cells(&g)), vec![(0, 0), (0, 1), (0, 2), (1, 1), (1, 2)]);
}

#[test]
fn a_bond_to_the_west_carries_support_too() {
    let out = conn(ConnectorShape::Square, true);
    let inn = conn(ConnectorShape::Square, false);
    let mut g = Grid::new();
    g.insert(Coord::new(5, 1), with_side(BlockKind::Anchor, Side::West, inn));
    g.insert(Coord::new(4, 1), Block::new(BlockKind::Solid, [None, Some(out), None, Some(out)]));
    g.insert(Coord::new(3, 1), with_side(BlockKind::Scaffold, Side::East, inn));
    assert_eq!(sorted(supported_cells(&g)), vec![(3, 1), (4, 1), (5, 1)]);
}

#[test]
fn the_supported_set_holds_the_supported_cells_and_no_others() {
    let out = conn(ConnectorShape::Square, true);
    let inn = conn(ConnectorShape::Square, false);
    let mut g = Grid::new();
    g.insert(Coord::new(-5, 4), with_side(BlockKind::Anchor, Side::East, out));
    g.insert(Coord::new(-4, 4), with_side(BlockKind::Solid, Side::West, inn));
    g.insert(Coord::new(-4, 3), bare(BlockKind::Scaffold));
    g.insert(Coord::new(2, 2), bare(BlockKind::Scaffold));
    let set = supported_set(&g);
    assert!(set.contains(Coord::new(-5, 4)));
    assert!(set.contains(Coord::new(-4, 4)));
    assert!(set.contains(Coord::new(-4, 3)));
    assert!(!set.contains(Coord::new(2, 2)));
    // empty cells are never in it, not even right above a supported block
    assert!(!set.contains(Coord::new(-5, 3)));
    assert!(!set.contains(Coord::new(-4, 2)));
}
