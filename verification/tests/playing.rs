use excavation::blocks::{Block, BlockKind, Connector, ConnectorShape};
use excavation::coords::{Coord, Side};
use excavation::grid::Grid;
use excavation::playing::{AudioSignals, ModePlaying};

fn conn(shape: ConnectorShape, sticks_out: bool) -> Connector {
    Connector { shape, sticks_out }
}

fn bare(kind: BlockKind) -> Block {
    Block::new(kind, [None, None, None, None])
}

fn with_side(kind: BlockKind, side: Side, c: Connector) -> Block {
    let mut sides = [None, None, None, None];
    sides[side.index()] = Some(c);
    Block::new(kind, sides)
}

fn game_of(blocks: &[(i32, i32, Block)]) -> ModePlaying {
    let mut g = Grid::new();
    for (x, y, b) in blocks {
        assert!(g.insert(Coord::new(*x, *y), *b));
    }
    ModePlaying::from_parts(g, Vec::new())
}

fn standing(game: &ModePlaying) -> Vec<(i32, i32)> {
    let mut out: Vec<(i32, i32)> = game.stable_blocks().coords().iter().map(|c| (c.x, c.y)).collect();
    out.sort();
    out
}

fn chunk_origins(game: &ModePlaying, index: usize) -> Vec<(i32, i32)> {
    let mut out: Vec<(i32, i32)> =
        game.falling_blocks()[index].members().iter().map(|m| (m.origin.x, m.origin.y)).collect();
    out.sort();
    out
}

const NO_HITS: Vec<Coord> = Vec::new();

#[test]
fn a_game_from_parts_starts_at_rest() {
    let game = game_of(&[(-5, 0, bare(BlockKind::Anchor))]);
    assert_eq!(standing(&game), vec![(-5, 0)]);
    assert!(game.falling_blocks().is_empty());
    assert!(game.conveyor_blocks().is_empty());
    assert_eq!(game.held(), None);
    assert_eq!(game.max_depth(), 0);
    assert_eq!(game.mass(), 0);
    assert_eq!(game.moment(), 0);
    assert_eq!(game.center_of_mass(), 0);
    assert_eq!(game.frames_elapsed(), 0);
    assert_eq!(game.audio(), AudioSignals::silent());
}

#[test]
fn bonded_scaffold_beside_an_anchor_stays_after_one_tick() {
    let mut game = game_of(&[
        (-5, 0, with_side(BlockKind::Anchor, Side::East, conn(ConnectorShape::Square, true))),
        (-4, 0, with_side(BlockKind::Scaffold, Side::West, conn(ConnectorShape::Square, false))),
    ]);
    game.advance_with(&NO_HITS);
    assert_eq!(standing(&game), vec![(-5, 0), (-4, 0)]);
    assert!(game.falling_blocks().is_empty());
    assert!(!game.audio().fall);
    assert_eq!(game.frames_elapsed(), 1);
}

#[test]
fn scaffold_with_another_shape_falls_as_one_chunk_of_one() {
    let mut game = game_of(&[
        (-5, 0, with_side(BlockKind::Anchor, Side::East, conn(ConnectorShape::Square, true))),
        (-4, 0, with_side(BlockKind::Scaffold, Side::West, conn(ConnectorShape::Round, false))),
    ]);
    game.advance_with(&NO_HITS);
    assert_eq!(standing(&game), vec![(-5, 0)]);
    assert_eq!(game.falling_blocks().len(), 1);
    assert_eq!(chunk_origins(&game, 0), vec![(-4, 0)]);
    assert_eq!(game.falling_blocks()[0].members()[0].block.kind, BlockKind::Scaffold);
    assert_eq!(game.falling_blocks()[0].fall_progress(), 0);
    assert_eq!(game.falling_blocks()[0].ticks_falling(), 1);
    assert!(game.audio().fall);
}

#[test]
fn losing_the_last_anchor_drops_everything_that_hung_on_it_as_one_chunk() {
    let out = conn(ConnectorShape::Round, true);
    let inn = conn(ConnectorShape::Round, false);
    let mut game = game_of(&[
        (-5, 0, with_side(BlockKind::Anchor, Side::East, out)),
        (-4, 0, Block::new(BlockKind::Scaffold, [None, Some(out), None, Some(inn)])),
        (-3, 0, with_side(BlockKind::Solid, Side::West, inn)),
        (-3, -1, bare(BlockKind::Scaffold)),
        (5, 0, bare(BlockKind::Anchor)),
        (5, -1, bare(BlockKind::Solid)),
    ]);
    game.advance_with(&NO_HITS);
    assert!(game.falling_blocks().is_empty());
    assert_eq!(standing(&game).len(), 6);

    // the left anchor is worn down to its last point and then struck
    let mut grid = Grid::new();
    for c in game.stable_blocks().coords() {
        let mut b = game.stable_blocks().get(c).unwrap();
        if c == Coord::new(-5, 0) {
            b.damage = 64;
        }
        grid.insert(c, b);
    }
    let mut game = ModePlaying::from_parts(grid, Vec::new());
    game.advance_with(&vec![Coord::new(-5, 0)]);
    assert_eq!(standing(&game), vec![(5, -1), (5, 0)]);
    assert_eq!(game.falling_blocks().len(), 1);
    assert_eq!(chunk_origins(&game, 0), vec![(-4, 0), (-3, -1), (-3, 0)]);
    assert!(game.audio().fall);
    assert!(game.audio().damage);

    // the tick after, nothing new comes loose
    game.advance_with(&NO_HITS);
    assert_eq!(game.falling_blocks().len(), 1);
    assert!(!game.audio().fall);
}

#[test]
fn a_chunk_that_finds_no_support_is_gone_once_out_of_sight() {
    let mut game = game_of(&[(-5, 0, bare(BlockKind::Anchor)), (0, 0, bare(BlockKind::Solid))]);
    let mut ticks = 0;
    game.advance_with(&NO_HITS);
    ticks += 1;
    assert_eq!(game.falling_blocks().len(), 1);
    while !game.falling_blocks().is_empty() {
        // the deepest standing block is at depth 0, so row 14 is the last in sight
        assert!(game.falling_blocks()[0].rows_fallen() <= 14);
        game.advance_with(&NO_HITS);
        ticks += 1;
        assert!(ticks < 1000);
    }
    assert_eq!(standing(&game), vec![(-5, 0)]);
    // 15 rows are 900 units: 31 ticks bring 465 and 15 more bring 915
    assert_eq!(ticks, 46);
    // and it stays gone
    game.advance_with(&NO_HITS);
    assert!(game.falling_blocks().is_empty());
    assert_eq!(standing(&game), vec![(-5, 0)]);
}

#[test]
fn a_falling_chunk_settles_on_the_structure_below() {
    let mut game = game_of(&[
        (-5, 6, bare(BlockKind::Anchor)),
        (-5, 5, bare(BlockKind::Solid)),
        (-5, 0, bare(BlockKind::Scaffold)),
    ]);
    let mut ticks = 0;
    game.advance_with(&NO_HITS);
    assert_eq!(game.falling_blocks().len(), 1);
    while !game.falling_blocks().is_empty() {
        game.advance_with(&NO_HITS);
        ticks += 1;
        assert!(ticks < 1000);
    }
    assert_eq!(standing(&game), vec![(-5, 4), (-5, 5), (-5, 6)]);
    assert_eq!(game.stable_blocks().get(Coord::new(-5, 4)).unwrap().kind, BlockKind::Scaffold);
    // and there it stays
    for _ in 0..100 {
        game.advance_with(&NO_HITS);
    }
    assert_eq!(standing(&game), vec![(-5, 4), (-5, 5), (-5, 6)]);
    assert!(game.falling_blocks().is_empty());
}

#[test]
fn chunks_that_come_loose_in_different_ticks_fall_apart() {
    let mut game = game_of(&[(-5, 0, bare(BlockKind::Anchor)), (0, 0, bare(BlockKind::Solid))]);
    for _ in 0..10 {
        game.advance_with(&NO_HITS);
    }
    assert!(game.request_place(Coord::new(2, 0), bare(BlockKind::Scaffold)));
    game.advance_with(&NO_HITS);
    assert_eq!(game.falling_blocks().len(), 2);
    // oldest first
    assert_eq!(chunk_origins(&game, 0), vec![(0, 0)]);
    assert_eq!(chunk_origins(&game, 1), vec![(2, 0)]);
    assert_eq!(game.falling_blocks()[0].ticks_falling(), 11);
    assert_eq!(game.falling_blocks()[1].ticks_falling(), 1);
    assert_eq!(game.falling_blocks()[0].fall_progress(), 55);
    assert_eq!(game.falling_blocks()[1].fall_progress(), 0);
}

#[test]
fn the_survey_of_a_tick_is_taken_before_anything_moves() {
    let mut game = game_of(&[
        (-5, 0, bare(BlockKind::Anchor)),
        (0, 7, bare(BlockKind::Solid)),
        (1, 3, bare(BlockKind::Scaffold)),
    ]);
    game.advance_with(&NO_HITS);
    assert_eq!(game.max_depth(), 7);
    assert_eq!(game.mass(), 6);
    assert_eq!(game.moment(), 38);
    assert_eq!(game.center_of_mass(), 6);
    // both have come loose, and the next survey finds the anchor alone
    game.advance_with(&NO_HITS);
    assert_eq!(game.max_depth(), 0);
    assert_eq!(game.mass(), 0);
    assert_eq!(game.center_of_mass(), 0);
}

#[test]
fn a_full_collapse_leaves_a_centre_of_mass_of_zero() {
    let mut game = game_of(&[(0, 3, bare(BlockKind::Solid)), (0, 2, bare(BlockKind::Solid))]);
    game.advance_with(&NO_HITS);
    game.advance_with(&NO_HITS);
    assert!(standing(&game).is_empty());
    assert_eq!(game.mass(), 0);
    assert_eq!(game.center_of_mass(), 0);
}

#[test]
fn wear_in_a_tick_damages_and_destroys() {
    let out = conn(ConnectorShape::Square, true);
    let inn = conn(ConnectorShape::Square, false);
    let mut worn = with_side(BlockKind::Scaffold, Side::West, inn);
    worn.damage = 8;
    let mut game = game_of(&[
        (-5, 0, with_side(BlockKind::Anchor, Side::East, out)),
        (-4, 0, worn),
        (-4, -1, bare(BlockKind::Solid)),
    ]);
    game.advance_with(&vec![Coord::new(-5, 0)]);
    assert_eq!(game.stable_blocks().get(Coord::new(-5, 0)).unwrap().damage, 1);
    assert_eq!(game.stable_blocks().get(Coord::new(-4, 0)).unwrap().damage, 8);
    assert!(game.audio().damage);
    assert!(!game.audio().fall);
    // the scaffold is struck, is destroyed at once, and what rested on it falls in the same tick
    game.advance_with(&vec![Coord::new(-4, 0)]);
    assert_eq!(standing(&game), vec![(-5, 0)]);
    assert_eq!(game.falling_blocks().len(), 1);
    assert_eq!(chunk_origins(&game, 0), vec![(-4, -1)]);
}

#[test]
fn placing_an_anchor_outside_the_wall_columns_is_rejected() {
    let out = conn(ConnectorShape::Square, true);
    let inn = conn(ConnectorShape::Square, false);
    // every neighbour offers a bond, and there is a block above and below
    let mut game = game_of(&[
        (-1, 5, with_side(BlockKind::Solid, Side::East, inn)),
        (1, 5, with_side(BlockKind::Solid, Side::West, inn)),
        (0, 4, with_side(BlockKind::Solid, Side::South, inn)),
        (0, 6, with_side(BlockKind::Solid, Side::North, inn)),
    ]);
    let anchor = Block::new(BlockKind::Anchor, [Some(out), Some(out), Some(out), Some(out)]);
    assert!(!game.request_place(Coord::new(0, 5), anchor));
    for x in [-7, -6, -4, -3, -2, 2, 3, 4, 6, 7] {
        for y in [0, 1, 5, 100] {
            assert!(!game.request_place(Coord::new(x, y), anchor));
        }
    }
    assert_eq!(standing(&game).len(), 4);
}

#[test]
fn an_anchor_goes_into_a_wall_column_where_it_has_a_hold() {
    let out = conn(ConnectorShape::Square, true);
    let inn = conn(ConnectorShape::Square, false);
    let anchor = with_side(BlockKind::Anchor, Side::East, out);
    let mut game = game_of(&[(-5, 2, bare(BlockKind::Anchor)), (4, 3, with_side(BlockKind::Solid, Side::East, out))]);
    // nothing to hold on to
    assert!(!game.request_place(Coord::new(-5, 5), anchor));
    // under another block
    assert!(game.request_place(Coord::new(-5, 3), anchor));
    // on top of another block
    assert!(game.request_place(Coord::new(-5, 1), anchor));
    // above the ground line
    assert!(!game.request_place(Coord::new(-5, -1), anchor));
    // bonded to a block beside it
    assert!(game.request_place(Coord::new(5, 3), with_side(BlockKind::Anchor, Side::West, inn)));
    // an occupied cell
    assert!(!game.request_place(Coord::new(-5, 2), anchor));
    assert_eq!(standing(&game), vec![(-5, 1), (-5, 2), (-5, 3), (4, 3), (5, 3)]);
}

#[test]
fn other_blocks_go_anywhere_between_the_walls() {
    let mut game = game_of(&[]);
    let b = bare(BlockKind::Scaffold);
    assert!(game.request_place(Coord::new(0, 0), b));
    assert!(!game.request_place(Coord::new(0, 0), b));
    assert!(game.request_place(Coord::new(-4, 9), bare(BlockKind::Solid)));
    assert!(game.request_place(Coord::new(4, 9), b));
    assert!(!game.request_place(Coord::new(5, 9), b));
    assert!(!game.request_place(Coord::new(-5, 9), b));
    assert!(!game.request_place(Coord::new(0, -1), b));
    assert_eq!(standing(&game), vec![(-4, 9), (0, 0), (4, 9)]);
    assert_eq!(game.audio(), AudioSignals::silent());
    assert_eq!(game.frames_elapsed(), 0);
}

#[test]
fn a_hit_damages_scaffolds_only() {
    let mut game = game_of(&[
        (0, 0, bare(BlockKind::Scaffold)),
        (1, 0, bare(BlockKind::Solid)),
        (5, 0, bare(BlockKind::Anchor)),
    ]);
    assert!(game.request_damage(Coord::new(0, 0)));
    assert!(game.request_damage(Coord::new(0, 0)));
    assert!(!game.request_damage(Coord::new(1, 0)));
    assert!(!game.request_damage(Coord::new(5, 0)));
    assert!(!game.request_damage(Coord::new(3, 3)));
    assert_eq!(game.stable_blocks().get(Coord::new(0, 0)).unwrap().damage, 2);
    assert_eq!(game.stable_blocks().get(Coord::new(1, 0)).unwrap().damage, 0);
    assert_eq!(game.stable_blocks().get(Coord::new(5, 0)).unwrap().damage, 0);
}

#[test]
fn a_scaffold_hit_past_its_resilience_is_gone_with_the_next_tick() {
    let mut game = game_of(&[(-5, 1, bare(BlockKind::Anchor)), (-5, 0, bare(BlockKind::Scaffold))]);
    for _ in 0..8 {
        game.request_damage(Coord::new(-5, 0));
    }
    game.advance_with(&NO_HITS);
    assert_eq!(standing(&game), vec![(-5, 0), (-5, 1)]);
    game.request_damage(Coord::new(-5, 0));
    assert_eq!(game.stable_blocks().get(Coord::new(-5, 0)).unwrap().damage, 9);
    game.advance_with(&NO_HITS);
    assert_eq!(standing(&game), vec![(-5, 1)]);
    assert!(game.falling_blocks().is_empty());
}

#[test]
fn the_frame_counter_counts_ticks() {
    let mut game = game_of(&[]);
    for want in 1..=5u64 {
        game.advance_with(&NO_HITS);
        assert_eq!(game.frames_elapsed(), want);
    }
}

#[test]
fn advance_tick_only_wears_bonded_blocks_on_the_beat() {
    let out = conn(ConnectorShape::Square, true);
    let inn = conn(ConnectorShape::Square, false);
    quad_rand::srand(99);
    let mut game = game_of(&[
        (-5, 0, bare(BlockKind::Anchor)),
        (-5, -1, bare(BlockKind::Solid)),
        (5, 0, Block::new(BlockKind::Anchor, [Some(out), None, None, Some(out)])),
        (4, 0, Block::new(BlockKind::Solid, [Some(out), Some(inn), None, Some(out)])),
        (3, 0, Block::new(BlockKind::Solid, [Some(out), Some(inn), None, None])),
    ]);
    let mut last = 0u32;
    for tick in 0..60000u64 {
        assert_eq!(game.frames_elapsed(), tick);
        game.advance_tick();
        let grid = game.stable_blocks();
        // blocks without a bond never wear
        assert_eq!(grid.get(Coord::new(-5, 0)).unwrap().damage, 0);
        assert_eq!(grid.get(Coord::new(-5, -1)).unwrap().damage, 0);
        let mut total = 0u32;
        for c in grid.coords() {
            total += grid.get(c).unwrap().damage as u32;
        }
        if tick % 60 != 0 {
            assert_eq!(total, last);
        }
        assert!(total >= last || grid.len() < 5);
        last = total;
        if grid.len() < 5 {
            break;
        }
    }
    // in a thousand beats, with chances of a few in six hundred, something wore
    assert!(last > 0 || game.stable_blocks().len() < 5);
}

#[test]
fn roll_damage_strikes_bonded_blocks_only_and_none_twice() {
    let out = conn(ConnectorShape::Square, true);
    let inn = conn(ConnectorShape::Square, false);
    let mut blocks = vec![
        (-5, 0, bare(BlockKind::Anchor)),
        (-5, -1, bare(BlockKind::Solid)),
        (5, 0, Block::new(BlockKind::Anchor, [Some(out), None, None, Some(out)])),
    ];
    // a row of blocks, each bonded to both neighbours
    for x in 0..5 {
        blocks.push((x, 0, Block::new(BlockKind::Solid, [None, Some(inn), None, Some(out)])));
    }
    let game = game_of(&blocks);
    let bonded = [(0, 0), (1, 0), (2, 0), (3, 0), (4, 0), (5, 0)];
    let mut struck = [0usize; 6];
    let mut rolls_with_a_hit = 0;
    for _ in 0..3000 {
        let hits = game.roll_damage();
        let mut seen: Vec<(i32, i32)> = Vec::new();
        for c in &hits {
            let at = (c.x, c.y);
            assert!(!seen.contains(&at));
            seen.push(at);
            let i = bonded.iter().position(|b| *b == at).unwrap();
            struck[i] += 1;
        }
        if !hits.is_empty() {
            rolls_with_a_hit += 1;
        }
    }
    // every bonded block is struck now and then, and most rolls strike nothing
    assert!(struck.iter().all(|n| *n > 0));
    assert!(rolls_with_a_hit > 0 && rolls_with_a_hit < 1500);
    // two bonds are struck more often than one: 10 against 3 in 600
    assert!(struck[2] > struck[0]);
}
