//! The state of a game in play: the standing blocks, the chunks in free
//! fall, the conveyor that supplies new blocks, and the requests a player
//! can make.

use crate::blocks::{Block, BlockKind, WALL_COLUMN};
use crate::bonding::anchor_fits;
use crate::coords::{Coord, Pos};
use crate::falling::{Chunk, ChunkView};
use crate::grid::Grid;
use crate::survey::{center, spec_center};
use vstd::prelude::*;

verus! {

/// How many blocks the conveyor holds.
pub const CONVEYOR_MAX_SIZE: usize = 7;

/// What a tick gave cause to play a sound for.
#[derive(Clone, Copy, Debug, PartialEq, Eq, Structural)]
pub struct AudioSignals {
    pub pick_up: bool,
    pub rotate: bool,
    pub fall: bool,
    pub put_down: bool,
    pub damage: bool,
}

impl AudioSignals {
    /// No sound at all.
    pub open spec fn spec_silent() -> AudioSignals {
        AudioSignals { pick_up: false, rotate: false, fall: false, put_down: false, damage: false }
    }

    /// No sound at all.
    #[verifier::when_used_as_spec(spec_silent)]
    pub fn silent() -> (audio: AudioSignals)
        ensures
            audio == AudioSignals::spec_silent(),
    {
        AudioSignals { pick_up: false, rotate: false, fall: false, put_down: false, damage: false }
    }
}

/// A game in play as the contracts see it.
pub struct PlayState {
    /// The standing blocks, by cell.
    pub cells: Map<Pos, Block>,
    /// The chunks in free fall, oldest first.
    pub chunks: Seq<ChunkView>,
    /// The blocks on the conveyor, next first.
    pub conveyor: Seq<Block>,
    /// The place on the conveyor of the block that the player holds.
    pub held: Option<int>,
    /// The greatest depth found by the last tick.
    pub max_depth: int,
    /// The weight of the standing blocks found by the last tick.
    pub mass: int,
    /// Their weight times depth, summed up.
    pub moment: int,
    /// The sounds due since the last reset.
    pub audio: AudioSignals,
    /// How many ticks have passed.
    pub frames: int,
}

/// The views of a list of chunks.
pub open spec fn chunk_views(chunks: Seq<Chunk>) -> Seq<ChunkView> {
    chunks.map_values(|chunk: Chunk| chunk@)
}

/// Whether `block` may be put into cell `p`: the cell is free and not above
/// the ground line, an anchor goes into a wall column and everything else
/// strictly between the walls, and an anchor has something to hold on to.
pub open spec fn placeable(cells: Map<Pos, Block>, p: Pos, block: Block) -> bool {
    &&& Block::valid_pos(block.kind, p)
    &&& block.kind == BlockKind::Anchor ==> anchor_fits(cells, p, block)
    &&& !cells.contains_key(p)
}

/// An anchor may only be put into one of the two wall columns, whatever
/// stands around the cell and whatever connectors the anchor has.
pub proof fn lemma_anchor_only_in_walls(cells: Map<Pos, Block>, p: Pos, block: Block)
    requires
        block.kind == BlockKind::Anchor,
        p.0 != WALL_COLUMN,
        p.0 != -WALL_COLUMN,
    ensures
        !placeable(cells, p, block),
{
}

/// No block may be put above the ground line or into an occupied cell.
pub proof fn lemma_never_placeable(cells: Map<Pos, Block>, p: Pos, block: Block)
    requires
        p.1 < 0 || cells.contains_key(p),
    ensures
        !placeable(cells, p, block),
{
}

/// The cells after a player has hit the block in cell `p`: a scaffold takes
/// one point of damage, anything else is left alone.
pub open spec fn after_hit(cells: Map<Pos, Block>, p: Pos) -> Map<Pos, Block> {
    if cells.contains_key(p) && cells[p].kind == BlockKind::Scaffold {
        cells.insert(p, cells[p].spec_damaged())
    } else {
        cells
    }
}

/// A game in play.
pub struct ModePlaying {
    /// The standing blocks, by cell.
    pub(crate) stable_blocks: Grid,
    /// The chunks in free fall, oldest first.
    pub(crate) falling_blocks: Vec<Chunk>,
    /// The blocks on the conveyor.
    pub(crate) conveyor_blocks: Vec<Block>,
    /// The place on the conveyor of the block that the player holds.
    pub(crate) held: Option<usize>,
    /// The greatest depth found by the last tick.
    pub(crate) max_depth: i32,
    /// The weight of the standing blocks found by the last tick.
    pub(crate) mass: u128,
    /// Their weight times depth, summed up.
    pub(crate) moment: i128,
    pub(crate) audio: AudioSignals,
    pub(crate) frames_elapsed: u64,
}

impl View for ModePlaying {
    type V = PlayState;

    open(crate) spec fn view(&self) -> PlayState {
        PlayState {
            cells: self.stable_blocks@,
            chunks: chunk_views(self.falling_blocks@),
            conveyor: self.conveyor_blocks@,
            held: match self.held {
                Some(index) => Some(index as int),
                None => None,
            },
            max_depth: self.max_depth as int,
            mass: self.mass as int,
            moment: self.moment as int,
            audio: self.audio,
            frames: self.frames_elapsed as int,
        }
    }
}

impl ModePlaying {
    /// What holds of every game: each chunk is in order, and the block the
    /// player holds is one of the conveyor.
    pub open(crate) spec fn wf(&self) -> bool {
        &&& forall|i: int| 0 <= i < self.falling_blocks@.len() ==> (#[trigger] self.falling_blocks@[i]).wf()
        &&& self.held matches Some(index) ==> index < self.conveyor_blocks@.len()
    }

    /// The chunks in free fall, oldest first.
    pub open(crate) spec fn spec_falling(&self) -> Seq<Chunk> {
        self.falling_blocks@
    }

    /// What the state of a game says of the game itself.
    pub proof fn lemma_view(&self)
        ensures
            self@.chunks == chunk_views(self.spec_falling()),
            self@.cells.dom().finite(),
            self.wf() ==> forall|i: int|
                0 <= i < self.spec_falling().len() ==> (#[trigger] self.spec_falling()[i]).wf(),
            self.wf() ==> (self@.held matches Some(index) ==> 0 <= index < self@.conveyor.len()),
            0 <= self@.frames <= u64::MAX,
    {
        self.stable_blocks.lemma_view();
    }

    /// A game with the given standing blocks and conveyor, in which nothing
    /// falls, nothing is held and no tick has passed.
    pub fn from_parts(grid: Grid, conveyor: Vec<Block>) -> (game: ModePlaying)
        ensures
            game.wf(),
            game@ == (PlayState {
                cells: grid@,
                chunks: Seq::empty(),
                conveyor: conveyor@,
                held: None,
                max_depth: 0,
                mass: 0,
                moment: 0,
                audio: AudioSignals::silent(),
                frames: 0,
            }),
    {
        let game = ModePlaying {
            stable_blocks: grid,
            falling_blocks: Vec::new(),
            conveyor_blocks: conveyor,
            held: None,
            max_depth: 0,
            mass: 0,
            moment: 0,
            audio: AudioSignals::silent(),
            frames_elapsed: 0,
        };
        assert(game@.chunks =~= Seq::<ChunkView>::empty());
        game
    }

    /// The standing blocks.
    pub fn stable_blocks(&self) -> (grid: &Grid)
        ensures
            grid@ == self@.cells,
    {
        &self.stable_blocks
    }

    /// The chunks in free fall, oldest first.
    pub fn falling_blocks(&self) -> (chunks: &Vec<Chunk>)
        ensures
            chunks@ == self.spec_falling(),
            chunk_views(chunks@) == self@.chunks,
    {
        &self.falling_blocks
    }

    /// The blocks on the conveyor.
    pub fn conveyor_blocks(&self) -> (blocks: &Vec<Block>)
        ensures
            blocks@ == self@.conveyor,
    {
        &self.conveyor_blocks
    }

    /// The place on the conveyor of the block that the player holds.
    pub fn held(&self) -> (held: Option<usize>)
        ensures
            held is Some <==> self@.held is Some,
            held matches Some(index) ==> self@.held == Some(index as int),
    {
        self.held
    }

    /// The greatest depth found by the last tick.
    pub fn max_depth(&self) -> (depth: i32)
        ensures
            depth == self@.max_depth,
    {
        self.max_depth
    }

    /// The weight of the standing blocks found by the last tick.
    pub fn mass(&self) -> (mass: u128)
        ensures
            mass == self@.mass,
    {
        self.mass
    }

    /// The weight times depth of the standing blocks, summed up by the last
    /// tick.
    pub fn moment(&self) -> (moment: i128)
        ensures
            moment == self@.moment,
    {
        self.moment
    }

    /// The depth at which the weight found by the last tick balances,
    /// rounded down; 0 where nothing had weight.
    pub fn center_of_mass(&self) -> (depth: i128)
        ensures
            depth == spec_center(self@.moment, self@.mass),
            self@.mass == 0 ==> depth == 0,
    {
        center(self.moment, self.mass)
    }

    /// The sounds due since the last reset.
    pub fn audio(&self) -> (audio: AudioSignals)
        ensures
            audio == self@.audio,
    {
        self.audio
    }

    /// How many ticks have passed.
    pub fn frames_elapsed(&self) -> (frames: u64)
        ensures
            frames == self@.frames,
    {
        self.frames_elapsed
    }

    /// Puts `block` into cell `pos` if it may go there, and says whether it
    /// did. Nothing else changes.
    pub fn request_place(&mut self, pos: Coord, block: Block) -> (accepted: bool)
        requires
            old(self).wf(),
        ensures
            final(self).wf(),
            accepted == placeable(old(self)@.cells, pos@, block),
            final(self)@ == (PlayState {
                cells: if accepted {
                    old(self)@.cells.insert(pos@, block)
                } else {
                    old(self)@.cells
                },
                ..old(self)@
            }),
    {
        let valid = block.is_valid_pos(pos);
        let anchored = if block.kind == BlockKind::Anchor {
            self.stable_blocks.can_anchor_be_placed(pos, &block)
        } else {
            true
        };
        if valid && anchored && !self.stable_blocks.contains(pos) {
            self.stable_blocks.insert(pos, block);
            true
        } else {
            false
        }
    }

    /// Hits the block in cell `pos` once: a scaffold takes one point of
    /// damage. Other blocks, and empty cells, are left alone. Says whether a
    /// block took damage.
    pub fn request_damage(&mut self, pos: Coord) -> (damaged: bool)
        requires
            old(self).wf(),
        ensures
            final(self).wf(),
            damaged == (old(self)@.cells.contains_key(pos@) && old(self)@.cells[pos@].kind == BlockKind::Scaffold),
            final(self)@ == (PlayState { cells: after_hit(old(self)@.cells, pos@), ..old(self)@ }),
    {
        match self.stable_blocks.get(pos) {
            Some(block) => {
                if block.is_removable() {
                    self.stable_blocks.put(pos, block.damaged());
                    true
                } else {
                    false
                }
            },
            None => false,
        }
    }
}

} // verus!
