//! How a game starts: anchors embedded in both walls of the chasm, facing
//! inwards, and a full conveyor.

use crate::blocks::{Block, BlockKind, Connector, WALL_COLUMN};
use crate::coords::{Coord, Pos};
use crate::falling::ChunkView;
use crate::grid::Grid;
use crate::playing::{AudioSignals, ModePlaying, PlayState, CONVEYOR_MAX_SIZE};
use crate::random::{drawable, random_block, random_connector};
use crate::stability::{is_anchor, lemma_anchor_supported, supported};
use vstd::prelude::*;

verus! {

/// How many anchors each wall holds at the start, from the ground line down.
pub const ANCHOR_ROWS: i32 = 4;

/// Whether an anchor stands in cell `p` at the start.
pub open spec fn is_start_cell(p: Pos) -> bool {
    (p.0 == -WALL_COLUMN || p.0 == WALL_COLUMN) && 0 <= p.1 < ANCHOR_ROWS
}

/// The place of the connector of the anchor in cell `p` among the connectors
/// that the start is made of: the left wall first, each wall from the ground
/// line down.
pub open spec fn start_index(p: Pos) -> int {
    if p.0 < 0 {
        p.1
    } else {
        ANCHOR_ROWS + p.1
    }
}

/// An anchor in a wall, with its only connector on the side that faces the
/// chasm: east in the left wall and west in the right wall.
pub open spec fn wall_anchor(left: bool, connector: Connector) -> Block {
    Block {
        connectors: if left {
            [None, Some(connector), None, None]
        } else {
            [None, None, None, Some(connector)]
        },
        kind: BlockKind::Anchor,
        damage: 0,
    }
}

/// The standing blocks at the start of a game whose anchors carry the given
/// connectors.
pub open spec fn start_cells(connectors: Seq<Connector>) -> Map<Pos, Block> {
    Map::new(|p: Pos| is_start_cell(p), |p: Pos| wall_anchor(p.0 < 0, connectors[start_index(p)]))
}

/// At the start every block is an anchor, so every block is supported.
pub proof fn lemma_start_is_supported(connectors: Seq<Connector>, p: Pos)
    requires
        start_cells(connectors).contains_key(p),
    ensures
        is_anchor(start_cells(connectors), p),
        supported(start_cells(connectors), p),
{
    lemma_anchor_supported(start_cells(connectors), p);
}

/// An anchor for a wall, with its only connector on the side that faces the
/// chasm.
pub fn make_wall_anchor(left: bool, connector: Connector) -> (block: Block)
    ensures
        block == wall_anchor(left, connector),
{
    let connectors: [Option<Connector>; 4] = if left {
        [None, Some(connector), None, None]
    } else {
        [None, None, None, Some(connector)]
    };
    let block = Block { connectors, kind: BlockKind::Anchor, damage: 0 };
    assert(block.connectors =~= wall_anchor(left, connector).connectors);
    block
}

/// The standing blocks at the start of a game: four anchors in each wall.
pub fn starting_grid(connectors: &[Connector; 8]) -> (grid: Grid)
    ensures
        grid@ == start_cells(connectors@),
{
    let mut grid = Grid::new();
    let mut k: usize = 0;
    while k < 8
        invariant
            0 <= k <= 8,
            forall|p: Pos| #[trigger] grid@.contains_key(p) <==> is_start_cell(p) && start_index(p) < k,
            forall|p: Pos| #[trigger]
                grid@.contains_key(p) ==> grid@[p] == wall_anchor(p.0 < 0, connectors@[start_index(p)]),
        decreases 8 - k,
    {
        let left = k < 4;
        let x: i32 = if left {
            -WALL_COLUMN
        } else {
            WALL_COLUMN
        };
        let y: i32 = if left {
            k as i32
        } else {
            (k - 4) as i32
        };
        let block = make_wall_anchor(left, connectors[k]);
        grid.put(Coord { x, y }, block);
        k += 1;
    }
    assert(grid@ =~= start_cells(connectors@));
    grid
}

impl ModePlaying {
    /// A new game: the anchors of the start with connectors drawn at random,
    /// and a conveyor full of blocks drawn at random. Nothing falls, nothing
    /// is held and no tick has passed.
    pub fn new() -> (game: ModePlaying)
        ensures
            game.wf(),
            exists|connectors: Seq<Connector>| game@.cells == #[trigger] start_cells(connectors),
            game@.conveyor.len() == CONVEYOR_MAX_SIZE,
            forall|i: int| 0 <= i < game@.conveyor.len() ==> drawable(#[trigger] game@.conveyor[i]),
            game@ == (PlayState {
                cells: game@.cells,
                chunks: Seq::<ChunkView>::empty(),
                conveyor: game@.conveyor,
                held: None,
                max_depth: 0,
                mass: 0,
                moment: 0,
                audio: AudioSignals::spec_silent(),
                frames: 0,
            }),
    {
        let connectors: [Connector; 8] = [
            random_connector(),
            random_connector(),
            random_connector(),
            random_connector(),
            random_connector(),
            random_connector(),
            random_connector(),
            random_connector(),
        ];
        let grid = starting_grid(&connectors);
        let mut conveyor: Vec<Block> = Vec::new();
        while conveyor.len() < CONVEYOR_MAX_SIZE
            invariant
                conveyor.len() <= CONVEYOR_MAX_SIZE,
                forall|i: int| 0 <= i < conveyor.len() ==> drawable(#[trigger] conveyor@[i]),
            decreases CONVEYOR_MAX_SIZE - conveyor.len(),
        {
            conveyor.push(random_block());
        }
        ModePlaying::from_parts(grid, conveyor)
    }
}

} // verus!
