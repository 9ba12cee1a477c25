//! Blocks, their kinds and the connectors on their sides.

use crate::coords::{Coord, Pos, Side};
use vstd::prelude::*;

verus! {

/// How many cells lie between the two walls of the chasm.
pub const CHASM_WIDTH: i32 = 9;

/// The column of the right wall; the left wall is at its negative.
pub const WALL_COLUMN: i32 = 5;

/// The shape of the connector on the side of a block.
#[derive(Clone, Copy, Debug, PartialEq, Eq, Structural)]
pub enum ConnectorShape {
    Square,
    Round,
    Pointy,
}

/// What sits on one side of a block: a shape that either sticks out or is
/// recessed.
#[derive(Clone, Copy, Debug, PartialEq, Eq, Structural)]
pub struct Connector {
    pub shape: ConnectorShape,
    pub sticks_out: bool,
}

/// Whether two connectors on facing sides bond: equal shapes, and exactly one
/// of the two sticks out.
pub open spec fn bonds(a: Connector, b: Connector) -> bool {
    a.shape == b.shape && a.sticks_out != b.sticks_out
}

/// Whether two sides bond. A side without a connector bonds with nothing.
pub open spec fn sides_bond(a: Option<Connector>, b: Option<Connector>) -> bool {
    match (a, b) {
        (Some(ca), Some(cb)) => bonds(ca, cb),
        _ => false,
    }
}

impl Connector {
    /// Whether this connector bonds with `other` on the facing side.
    pub fn links_with(&self, other: &Connector) -> (linked: bool)
        ensures
            linked == bonds(*self, *other),
    {
        self.shape == other.shape && self.sticks_out != other.sticks_out
    }
}

/// Bonding does not depend on which of the two connectors is asked.
pub proof fn lemma_links_with_symmetric(a: Connector, b: Connector)
    ensures
        bonds(a, b) == bonds(b, a),
        sides_bond(Some(a), Some(b)) == sides_bond(Some(b), Some(a)),
{
}

/// A connector never bonds with itself or with an equal one.
pub proof fn lemma_no_self_bond(a: Connector)
    ensures
        !bonds(a, a),
{
}

/// The kind of a block. It never changes.
#[derive(Clone, Copy, Debug, PartialEq, Eq, Structural)]
pub enum BlockKind {
    Scaffold,
    Solid,
    /// Holds the whole structure in place from the top.
    Anchor,
}

impl BlockKind {
    /// The weight of a block of this kind. Anchors weigh nothing.
    pub open spec fn spec_mass(self) -> nat {
        match self {
            BlockKind::Scaffold => 1,
            BlockKind::Solid => 5,
            BlockKind::Anchor => 0,
        }
    }

    /// The damage a block of this kind can take.
    pub open spec fn spec_resilience(self) -> nat {
        match self {
            BlockKind::Scaffold => 8,
            BlockKind::Solid => 16,
            BlockKind::Anchor => 64,
        }
    }
}

/// A block: a kind, the damage taken so far, and one optional connector on
/// each side, listed north, east, south, west.
#[derive(Clone, Copy, Debug)]
pub struct Block {
    pub connectors: [Option<Connector>; 4],
    pub kind: BlockKind,
    pub damage: u8,
}

impl Block {
    /// The connector on `side`, if there is one.
    pub open spec fn spec_connector(&self, side: Side) -> Option<Connector> {
        self.connectors@[side.spec_index()]
    }

    /// How many sides carry a connector.
    pub open spec fn connector_count(self) -> nat {
        (if self.connectors@[0] is Some { 1nat } else { 0 })
        + (if self.connectors@[1] is Some { 1nat } else { 0 })
        + (if self.connectors@[2] is Some { 1nat } else { 0 })
        + (if self.connectors@[3] is Some { 1nat } else { 0 })
    }

    /// Whether a block of kind `kind` may stand in cell `p`: not above the
    /// ground line, anchors in one of the two wall columns and everything
    /// else strictly between them.
    pub open spec fn valid_pos(kind: BlockKind, p: Pos) -> bool {
        &&& p.1 >= 0
        &&& if kind == BlockKind::Anchor {
            p.0 == WALL_COLUMN || p.0 == -WALL_COLUMN
        } else {
            -WALL_COLUMN < p.0 < WALL_COLUMN
        }
    }

    /// This block after one more point of damage. The counter stops at the
    /// largest value it can hold.
    pub open spec fn spec_damaged(self) -> Block {
        Block {
            connectors: self.connectors,
            kind: self.kind,
            damage: if self.damage < u8::MAX {
                (self.damage + 1) as u8
            } else {
                self.damage
            },
        }
    }

    /// Whether the damage taken is more than a block of this kind can take.
    pub open spec fn spec_destroyed(&self) -> bool {
        self.damage > self.kind.spec_resilience()
    }

    /// A block without damage.
    pub fn new(kind: BlockKind, connectors: [Option<Connector>; 4]) -> (block: Block)
        ensures
            block.kind == kind,
            block.connectors == connectors,
            block.damage == 0,
    {
        Block { connectors, kind, damage: 0 }
    }

    /// The connector on `side`, if there is one.
    #[verifier::when_used_as_spec(spec_connector)]
    pub fn connector(&self, side: Side) -> (conn: Option<Connector>)
        ensures
            conn == self.spec_connector(side),
    {
        self.connectors[side.index()]
    }

    /// The weight of this block: 1 for a scaffold, 5 for a solid block and 0
    /// for an anchor.
    pub fn mass(&self) -> (m: u32)
        ensures
            m == self.kind.spec_mass(),
    {
        match self.kind {
            BlockKind::Scaffold => 1,
            BlockKind::Solid => 5,
            BlockKind::Anchor => 0,
        }
    }

    /// Whether a player may damage this block directly. Only scaffolds are.
    pub fn is_removable(&self) -> (removable: bool)
        ensures
            removable == (self.kind == BlockKind::Scaffold),
    {
        match self.kind {
            BlockKind::Scaffold => true,
            BlockKind::Solid => false,
            BlockKind::Anchor => false,
        }
    }

    /// The damage this block can take: 8 for a scaffold, 16 for a solid block
    /// and 64 for an anchor.
    pub fn resilience(&self) -> (r: u8)
        ensures
            r == self.kind.spec_resilience(),
    {
        match self.kind {
            BlockKind::Scaffold => 8,
            BlockKind::Solid => 16,
            BlockKind::Anchor => 64,
        }
    }

    /// Whether the damage taken is more than this block can take.
    #[verifier::when_used_as_spec(spec_destroyed)]
    pub fn is_destroyed(&self) -> (gone: bool)
        ensures
            gone == self.spec_destroyed(),
    {
        self.damage > self.resilience()
    }

    /// This block after one more point of damage.
    #[verifier::when_used_as_spec(spec_damaged)]
    pub fn damaged(self) -> (block: Block)
        ensures
            block == self.spec_damaged(),
    {
        let damage: u8 = if self.damage < u8::MAX {
            self.damage + 1
        } else {
            self.damage
        };
        Block { connectors: self.connectors, kind: self.kind, damage }
    }

    /// Whether this block may stand in cell `pos`.
    pub fn is_valid_pos(&self, pos: Coord) -> (valid: bool)
        ensures
            valid == Block::valid_pos(self.kind, pos@),
    {
        let valid_x = match self.kind {
            BlockKind::Anchor => pos.x == WALL_COLUMN || pos.x == -WALL_COLUMN,
            _ => -WALL_COLUMN < pos.x && pos.x < WALL_COLUMN,
        };
        let valid_y = pos.y >= 0;
        valid_x && valid_y
    }

    /// This block turned by a quarter: every connector moves one place down
    /// the list and the first goes to the end.
    pub open spec fn spec_rotated_left(self) -> Block {
        Block {
            connectors: [
                self.connectors@[1],
                self.connectors@[2],
                self.connectors@[3],
                self.connectors@[0],
            ],
            kind: self.kind,
            damage: self.damage,
        }
    }

    /// This block turned by a quarter the other way: every connector moves
    /// one place up the list and the last goes to the front.
    pub open spec fn spec_rotated_right(self) -> Block {
        Block {
            connectors: [
                self.connectors@[3],
                self.connectors@[0],
                self.connectors@[1],
                self.connectors@[2],
            ],
            kind: self.kind,
            damage: self.damage,
        }
    }

    /// This block turned by a quarter: every connector moves one place down
    /// the list and the first goes to the end.
    #[verifier::when_used_as_spec(spec_rotated_left)]
    pub fn rotated_left(self) -> (block: Block)
        ensures
            block == self.spec_rotated_left(),
    {
        let c = self.connectors;
        let block = Block { connectors: [c[1], c[2], c[3], c[0]], kind: self.kind, damage: self.damage };
        assert(block.connectors =~= self.spec_rotated_left().connectors);
        block
    }

    /// This block turned by a quarter the other way: every connector moves
    /// one place up the list and the last goes to the front.
    #[verifier::when_used_as_spec(spec_rotated_right)]
    pub fn rotated_right(self) -> (block: Block)
        ensures
            block == self.spec_rotated_right(),
    {
        let c = self.connectors;
        let block = Block { connectors: [c[3], c[0], c[1], c[2]], kind: self.kind, damage: self.damage };
        assert(block.connectors =~= self.spec_rotated_right().connectors);
        block
    }
}

/// Turning a block one way and then the other gives the block back, and so
/// do four turns the same way.
pub proof fn lemma_rotations(block: Block)
    ensures
        block.spec_rotated_left().spec_rotated_right() == block,
        block.spec_rotated_right().spec_rotated_left() == block,
        block.spec_rotated_left().spec_rotated_left().spec_rotated_left().spec_rotated_left() == block,
        block.spec_rotated_left().connector_count() == block.connector_count(),
{
    assert(block.spec_rotated_left().spec_rotated_right().connectors =~= block.connectors);
    assert(block.spec_rotated_right().spec_rotated_left().connectors =~= block.connectors);
    assert(block.spec_rotated_left().spec_rotated_left().spec_rotated_left().spec_rotated_left().connectors
        =~= block.connectors);
}

} // verus!
