use excavation::blocks::{Block, BlockKind, Connector, ConnectorShape};
use excavation::coords::{Coord, Side};
use excavation::falling::{
    Chunk, Outcome, BELOW_VIEW, FALL_ACCELERATION, FALL_TERMINAL, FALL_UNITS,
};
use excavation::grid::Grid;

fn conn(shape: ConnectorShape, sticks_out: bool) -> Connector {
    Connector { shape, sticks_out }
}

fn bare(kind: BlockKind) -> Block {
    Block::new(kind, [None, None, None, None])
}

fn with_side(kind: BlockKind, side: Side, c: Connector) -> Block {
    let mut sides = [None, None, None, None];
    sides[side.index()] = Some(c);
    Block::new(kind, sides)
}

/// A chunk made of the given blocks, none of which is an anchor.
fn chunk_of(blocks: &[(i32, i32, Block)]) -> Chunk {
    let mut g = Grid::new();
    for (x, y, b) in blocks {
        assert!(g.insert(Coord::new(*x, *y), *b));
    }
    let chunk = Chunk::detach(&mut g).unwrap();
    assert_eq!(g.len(), 0);
    chunk
}

fn origins(chunk: &Chunk) -> Vec<(i32, i32)> {
    let mut out: Vec<(i32, i32)> = chunk.members().iter().map(|m| (m.origin.x, m.origin.y)).collect();
    out.sort();
    out
}

#[test]
fn the_fall_is_measured_in_sixtieths_of_a_row() {
    assert_eq!(FALL_UNITS, 60);
    assert_eq!(FALL_ACCELERATION, 1);
    assert_eq!(FALL_TERMINAL, 30);
    assert_eq!(BELOW_VIEW, 14);
}

#[test]
fn detach_takes_the_loose_blocks_and_leaves_the_rest() {
    let mut g = Grid::new();
    g.insert(Coord::new(-5, 0), bare(BlockKind::Anchor));
    g.insert(Coord::new(-5, -1), bare(BlockKind::Scaffold));
    g.insert(Coord::new(0, 0), bare(BlockKind::Solid));
    g.insert(Coord::new(3, 2), bare(BlockKind::Scaffold));
    let chunk = Chunk::detach(&mut g).unwrap();
    assert_eq!(origins(&chunk), vec![(0, 0), (3, 2)]);
    assert_eq!(chunk.fall_progress(), 0);
    assert_eq!(chunk.ticks_falling(), 0);
    assert_eq!(chunk.rows_fallen(), 0);
    assert_eq!(g.len(), 2);
    assert!(g.contains(Coord::new(-5, 0)));
    assert!(g.contains(Coord::new(-5, -1)));
    let kinds: Vec<BlockKind> = chunk.members().iter().map(|m| m.block.kind).collect();
    assert!(kinds.contains(&BlockKind::Solid));
    assert!(kinds.contains(&BlockKind::Scaffold));
}

#[test]
fn detach_makes_no_chunk_where_everything_holds() {
    let mut g = Grid::new();
    g.insert(Coord::new(-5, 0), bare(BlockKind::Anchor));
    g.insert(Coord::new(-5, -1), bare(BlockKind::Scaffold));
    assert!(Chunk::detach(&mut g).is_none());
    assert_eq!(g.len(), 2);
    assert!(Chunk::detach(&mut Grid::new()).is_none());
}

#[test]
fn a_chunk_gains_speed_up_to_half_a_row_per_tick() {
    let mut chunk = chunk_of(&[(0, 0, bare(BlockKind::Solid))]);
    let empty = Grid::new();
    let mut want: u64 = 0;
    for tick in 0..100u64 {
        assert_eq!(chunk.ticks_falling(), tick);
        assert_eq!(chunk.fall_progress(), want);
        assert_eq!(chunk.rows_fallen(), want / 60);
        // far above the bottom of the view, so it is never lost
        assert_eq!(chunk.advance(&empty, 1000), Outcome::Falling);
        want += tick.min(30);
    }
    assert_eq!(chunk.fall_progress(), 435 + 30 * 70);
}

#[test]
fn exact_progress_after_a_few_ticks() {
    let mut chunk = chunk_of(&[(0, 0, bare(BlockKind::Solid))]);
    let empty = Grid::new();
    let want = [0u64, 1, 3, 6, 10, 15, 21, 28, 36, 45, 55, 66];
    for w in want {
        chunk.advance(&empty, 1000);
        assert_eq!(chunk.fall_progress(), w);
    }
    assert_eq!(chunk.rows_fallen(), 1);
}

#[test]
fn a_chunk_lands_on_the_block_below() {
    let mut g = Grid::new();
    g.insert(Coord::new(0, 5), bare(BlockKind::Solid));
    let mut chunk = chunk_of(&[(0, 0, bare(BlockKind::Scaffold))]);
    let mut outcome = Outcome::Falling;
    let mut ticks = 0;
    while outcome == Outcome::Falling {
        outcome = chunk.advance(&g, 5);
        ticks += 1;
        assert!(ticks < 1000);
    }
    assert_eq!(outcome, Outcome::Landed(4));
    chunk.settle(&mut g, 4);
    assert_eq!(g.get(Coord::new(0, 4)).unwrap().kind, BlockKind::Scaffold);
    assert_eq!(g.len(), 2);
    // four rows are 240 units: 22 ticks bring 231 and the next one 253
    assert_eq!(ticks, 23);
}

#[test]
fn a_chunk_lands_where_a_connector_bonds() {
    let out = conn(ConnectorShape::Square, true);
    let inn = conn(ConnectorShape::Square, false);
    let mut g = Grid::new();
    g.insert(Coord::new(-5, 10), with_side(BlockKind::Anchor, Side::East, out));
    let mut chunk = chunk_of(&[(-4, 0, with_side(BlockKind::Scaffold, Side::West, inn))]);
    let mut outcome = Outcome::Falling;
    let mut ticks = 0;
    while outcome == Outcome::Falling {
        outcome = chunk.advance(&g, 10);
        ticks += 1;
        assert!(ticks < 1000);
    }
    assert_eq!(outcome, Outcome::Landed(10));
    chunk.settle(&mut g, 10);
    assert!(g.contains(Coord::new(-4, 10)));
}

#[test]
fn a_chunk_passes_a_connector_that_does_not_bond() {
    let out = conn(ConnectorShape::Square, true);
    let mut g = Grid::new();
    g.insert(Coord::new(-5, 3), with_side(BlockKind::Anchor, Side::East, out));
    let mut chunk = chunk_of(&[(-4, 0, with_side(BlockKind::Scaffold, Side::West, out))]);
    let mut outcome = Outcome::Falling;
    let mut ticks = 0;
    while outcome == Outcome::Falling {
        outcome = chunk.advance(&g, 3);
        ticks += 1;
        assert!(ticks < 1000);
    }
    assert_eq!(outcome, Outcome::Lost);
}

#[test]
fn a_chunk_is_lost_once_all_of_it_is_out_of_sight() {
    let mut chunk = chunk_of(&[(0, 0, bare(BlockKind::Solid)), (0, -3, bare(BlockKind::Solid))]);
    let empty = Grid::new();
    let mut ticks = 0;
    loop {
        let before = chunk.fall_progress();
        let outcome = chunk.advance(&empty, 0);
        ticks += 1;
        if outcome == Outcome::Lost {
            // a lost chunk is left as it was
            assert_eq!(chunk.fall_progress(), before);
            break;
        }
        assert_eq!(outcome, Outcome::Falling);
        // the upper block, from row -3, is still within 14 rows of depth 0
        assert!(chunk.rows_fallen() <= 17);
        assert!(ticks < 1000);
    }
    // it goes when the upper block would reach row 15: 18 rows are 1080
    // units, first reached by 31 + 21 ticks
    assert_eq!(ticks, 52);
    assert_eq!(chunk.rows_fallen(), 17);
}

#[test]
fn is_out_of_sight_asks_every_block() {
    let chunk = chunk_of(&[(0, 0, bare(BlockKind::Solid)), (0, -3, bare(BlockKind::Solid))]);
    assert!(!chunk.is_out_of_sight(0, 0));
    assert!(!chunk.is_out_of_sight(15, 0));
    assert!(!chunk.is_out_of_sight(17, 0));
    assert!(chunk.is_out_of_sight(18, 0));
    assert!(!chunk.is_out_of_sight(18, 1));
    assert!(chunk.is_out_of_sight(0, -18));
}

#[test]
fn a_chunk_falls_as_one() {
    let mut g = Grid::new();
    g.insert(Coord::new(1, 3), bare(BlockKind::Solid));
    let mut chunk = chunk_of(&[(0, 0, bare(BlockKind::Scaffold)), (1, 0, bare(BlockKind::Scaffold))]);
    assert!(!chunk.lands_at(&g, 0));
    assert!(!chunk.lands_at(&g, 1));
    assert!(chunk.lands_at(&g, 2));
    assert_eq!(chunk.first_landing(&g, 0, 5), Some(2));
    assert_eq!(chunk.first_landing(&g, 0, 1), None);
    assert_eq!(chunk.first_landing(&g, 3, 2), None);
    let mut outcome = Outcome::Falling;
    while outcome == Outcome::Falling {
        outcome = chunk.advance(&g, 3);
    }
    assert_eq!(outcome, Outcome::Landed(2));
    chunk.settle(&mut g, 2);
    assert!(g.contains(Coord::new(0, 2)));
    assert!(g.contains(Coord::new(1, 2)));
    assert_eq!(g.len(), 3);
}

#[test]
fn the_first_row_that_holds_wins() {
    // the chunk would hold in row 1 (on the block at row 2) and in row 4
    let mut g = Grid::new();
    g.insert(Coord::new(0, 2), bare(BlockKind::Solid));
    g.insert(Coord::new(1, 5), bare(BlockKind::Solid));
    let chunk = chunk_of(&[(0, 0, bare(BlockKind::Scaffold)), (1, 0, bare(BlockKind::Scaffold))]);
    assert_eq!(chunk.first_landing(&g, 0, 10), Some(1));
    assert_eq!(chunk.first_landing(&g, 2, 10), Some(4));
}

#[test]
fn a_block_whose_cell_is_taken_is_dropped_and_the_rest_settles() {
    let mut g = Grid::new();
    g.insert(Coord::new(0, 3), bare(BlockKind::Solid));
    g.insert(Coord::new(1, 4), bare(BlockKind::Anchor));
    let chunk = chunk_of(&[(0, 0, bare(BlockKind::Scaffold)), (1, 0, bare(BlockKind::Scaffold))]);
    chunk.settle(&mut g, 3);
    // (0, 3) keeps its block, (1, 3) gets the other member
    assert_eq!(g.get(Coord::new(0, 3)).unwrap().kind, BlockKind::Solid);
    assert_eq!(g.get(Coord::new(1, 3)).unwrap().kind, BlockKind::Scaffold);
    assert_eq!(g.len(), 3);
}

#[test]
fn a_block_that_would_leave_the_range_is_dropped() {
    let mut g = Grid::new();
    let chunk = chunk_of(&[(0, i32::MAX, bare(BlockKind::Scaffold)), (1, 0, bare(BlockKind::Scaffold))]);
    chunk.settle(&mut g, 1);
    assert!(g.contains(Coord::new(1, 1)));
    assert_eq!(g.len(), 1);
}

#[test]
fn nothing_holds_in_empty_space() {
    let out = conn(ConnectorShape::Round, true);
    let chunk = chunk_of(&[(0, 0, Block::new(BlockKind::Solid, [Some(out), Some(out), Some(out), Some(out)]))]);
    let empty = Grid::new();
    for rows in 0..20 {
        assert!(!chunk.lands_at(&empty, rows));
    }
    assert_eq!(chunk.first_landing(&empty, 0, 100), None);
}
