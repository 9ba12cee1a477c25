//! What a player does in one frame, and what the game makes of it: picking a
//! block off the conveyor, turning it, putting it down, and hitting blocks.

use crate::blocks::{Block, BlockKind, Connector, ConnectorShape};
use crate::coords::{Coord, Pos};
use crate::playing::{after_hit, placeable, AudioSignals, ModePlaying, PlayState};
use crate::random::{drawable, random_block};
use crate::tick::{after_tick, wear_allowed};
use vstd::prelude::*;

verus! {

/// Which way the wheel was turned in a frame.
#[derive(Clone, Copy, Debug, PartialEq, Eq, Structural)]
pub enum Scroll {
    Still,
    Up,
    Down,
}

/// What the player did in one frame, in terms of the grid.
#[derive(Clone, Copy, Debug)]
pub struct Input {
    /// The cell under the pointer.
    pub cursor: Coord,
    /// The place on the conveyor under the pointer, if it is over one.
    pub pickup: Option<usize>,
    /// Whether the button is down.
    pub down: bool,
    /// Whether the button went down in this frame.
    pub pressed: bool,
    /// Which way the wheel was turned.
    pub scroll: Scroll,
}

/// A block after the wheel was turned while the player held it.
pub open spec fn turned(block: Block, scroll: Scroll) -> Block {
    match scroll {
        Scroll::Still => block,
        Scroll::Up => block.spec_rotated_left(),
        Scroll::Down => block.spec_rotated_right(),
    }
}

/// The place on the conveyor that the input picks a block from, if it picks
/// one: the button is down over an occupied place.
pub open spec fn picked(s: PlayState, input: Input) -> Option<int> {
    match input.pickup {
        Some(index) => if input.down && index < s.conveyor.len() {
            Some(index as int)
        } else {
            None
        },
        None => None,
    }
}

/// The state of a game after the input of one frame. `refill` is the block
/// that joins the conveyor if a block leaves it.
///
/// With empty hands the player picks a block off the conveyor by holding the
/// button down over it, and hits the block under the pointer by pressing the
/// button. With a block in hand the wheel turns the block, and letting go of
/// the button puts it into the cell under the pointer if it may go there; if
/// not, it goes back to the conveyor.
pub open spec fn after_input(s: PlayState, input: Input, refill: Block) -> PlayState {
    match s.held {
        None => {
            let hit = input.pressed && s.cells.contains_key(input.cursor@) && s.cells[input.cursor@].kind
                == BlockKind::Scaffold;
            PlayState {
                cells: if input.pressed {
                    after_hit(s.cells, input.cursor@)
                } else {
                    s.cells
                },
                held: picked(s, input),
                audio: AudioSignals {
                    pick_up: s.audio.pick_up || picked(s, input) is Some,
                    damage: s.audio.damage || hit,
                    ..s.audio
                },
                ..s
            }
        },
        Some(index) => {
            let block = turned(s.conveyor[index], input.scroll);
            let conveyor = s.conveyor.update(index, block);
            let scrolled = input.scroll != Scroll::Still;
            if input.down {
                PlayState {
                    conveyor,
                    audio: AudioSignals { rotate: s.audio.rotate || scrolled, ..s.audio },
                    ..s
                }
            } else {
                let fits = placeable(s.cells, input.cursor@, block);
                PlayState {
                    cells: if fits {
                        s.cells.insert(input.cursor@, block)
                    } else {
                        s.cells
                    },
                    conveyor: if fits {
                        conveyor.remove(index).push(refill)
                    } else {
                        conveyor
                    },
                    held: None,
                    audio: AudioSignals {
                        rotate: s.audio.rotate || scrolled || !fits,
                        put_down: s.audio.put_down || fits,
                        ..s.audio
                    },
                    ..s
                }
            }
        },
    }
}

/// Whether the input of a frame takes a block off the conveyor for good, so
/// that a new one has to join it.
pub open spec fn uses_refill(s: PlayState, input: Input) -> bool {
    s.held matches Some(index) && !input.down && placeable(
        s.cells,
        input.cursor@,
        turned(s.conveyor[index], input.scroll),
    )
}

/// The state of a game at the start of a frame: as it was, with no sound
/// due.
pub open spec fn hushed(s: PlayState) -> PlayState {
    PlayState { audio: AudioSignals::spec_silent(), ..s }
}

/// The state of a game after a whole frame: the sounds are reset, the input
/// is dealt with, and one tick passes in which wear strikes the cells `hits`.
pub open spec fn after_update(s: PlayState, input: Input, refill: Block, hits: Set<Pos>) -> PlayState {
    after_tick(after_input(hushed(s), input, refill), hits)
}

/// A block turned as the wheel says.
pub fn turn(block: Block, scroll: Scroll) -> (out: Block)
    ensures
        out == turned(block, scroll),
{
    match scroll {
        Scroll::Still => block,
        Scroll::Up => block.rotated_left(),
        Scroll::Down => block.rotated_right(),
    }
}

impl ModePlaying {
    /// Whether the input of this frame takes a block off the conveyor for
    /// good.
    pub fn uses_refill(&self, input: &Input) -> (used: bool)
        requires
            self.wf(),
        ensures
            used == uses_refill(self@, *input),
    {
        match self.held {
            Some(index) => {
                if input.down {
                    false
                } else {
                    let block = turn(self.conveyor_blocks[index], input.scroll);
                    self.fits(input.cursor, &block)
                }
            },
            None => false,
        }
    }

    /// Whether `block` may be put into cell `pos`.
    pub fn fits(&self, pos: Coord, block: &Block) -> (fits: bool)
        ensures
            fits == placeable(self@.cells, pos@, *block),
    {
        let valid = block.is_valid_pos(pos);
        let anchored = if block.kind == BlockKind::Anchor {
            self.stable_blocks.can_anchor_be_placed(pos, block)
        } else {
            true
        };
        valid && anchored && !self.stable_blocks.contains(pos)
    }

    /// Deals with the input of one frame. `refill` joins the conveyor if a
    /// block leaves it.
    pub fn handle_input_with(&mut self, input: &Input, refill: Block)
        requires
            old(self).wf(),
        ensures
            final(self).wf(),
            final(self)@ == after_input(old(self)@, *input, refill),
    {
        match self.held {
            None => {
                match input.pickup {
                    Some(index) => {
                        if input.down && index < self.conveyor_blocks.len() {
                            self.held = Some(index);
                            self.audio.pick_up = true;
                        }
                    },
                    None => {},
                }
                if input.pressed {
                    if self.request_damage(input.cursor) {
                        self.audio.damage = true;
                    }
                }
            },
            Some(index) => {
                let ghost before = self.conveyor_blocks@;
                let block = turn(self.conveyor_blocks[index], input.scroll);
                self.conveyor_blocks.set(index, block);
                if input.scroll != Scroll::Still {
                    self.audio.rotate = true;
                }
                if !input.down {
                    if self.fits(input.cursor, &block) {
                        let taken = self.conveyor_blocks.remove(index);
                        self.stable_blocks.insert(input.cursor, taken);
                        self.conveyor_blocks.push(refill);
                        self.audio.put_down = true;
                    } else {
                        self.audio.rotate = true;
                    }
                    self.held = None;
                }
            },
        }
    }

    /// Deals with the input of one frame. If a block leaves the conveyor, a
    /// block drawn at random joins it: one without damage and with a
    /// connector.
    pub fn handle_input(&mut self, input: &Input)
        requires
            old(self).wf(),
        ensures
            final(self).wf(),
            exists|refill: Block|
                drawable(refill) && final(self)@ == #[trigger] after_input(old(self)@, *input, refill),
    {
        let refill = if self.uses_refill(input) {
            random_block()
        } else {
            // No block leaves the conveyor, so none is drawn and this one is never looked at.
            Block::new(
                BlockKind::Scaffold,
                [Some(Connector { shape: ConnectorShape::Square, sticks_out: false }), None, None, None],
            )
        };
        self.handle_input_with(input, refill);
    }

    /// Lets one frame pass: resets the sounds, deals with the input, and
    /// lets one tick pass.
    pub fn update(&mut self, input: &Input)
        requires
            old(self).wf(),
        ensures
            final(self).wf(),
            exists|refill: Block, hits: Set<Pos>|
                drawable(refill) && wear_allowed(after_input(hushed(old(self)@), *input, refill), hits)
                    && final(self)@ == #[trigger] after_update(old(self)@, *input, refill, hits),
    {
        self.audio = AudioSignals::silent();
        let ghost quiet = self@;
        self.handle_input(input);
        let ghost refill = choose|refill: Block|
            drawable(refill) && self@ == #[trigger] after_input(quiet, *input, refill);
        let ghost mid = self@;
        self.advance_tick();
        proof {
            let hits = choose|hits: Set<Pos>| wear_allowed(mid, hits) && self@ == #[trigger] after_tick(mid, hits);
            assert(self@ == after_update(old(self)@, *input, refill, hits));
        }
    }
}

} // verus!
