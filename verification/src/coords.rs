//! Grid coordinates, the four sides of a cell, and the integer key under
//! which a cell is stored.

use cogs_gamedev::grids::Direction4;
use vstd::prelude::*;

verus! {

/// A cell as a pair of mathematical integers `(x, y)`.
pub type Pos = (int, int);

/// Coordinates are shifted by this much to make them non-negative.
pub open spec fn half() -> int {
    0x8000_0000
}

/// The number of values a coordinate can take.
pub open spec fn span() -> int {
    0x1_0000_0000
}

/// A cell of the grid. `y` grows downward and `x == 0` is the centre line of
/// the chasm.
#[derive(Clone, Copy, Debug, PartialEq, Eq, Structural, Hash)]
pub struct Coord {
    pub x: i32,
    pub y: i32,
}

impl View for Coord {
    type V = Pos;

    open spec fn view(&self) -> Pos {
        (self.x as int, self.y as int)
    }
}

/// Whether both parts of `p` fit a stored coordinate.
pub open spec fn in_range(p: Pos) -> bool {
    &&& i32::MIN <= p.0 <= i32::MAX
    &&& i32::MIN <= p.1 <= i32::MAX
}

/// The key of cell `p`: both parts shifted to be non-negative, `x` in the
/// high half and `y` in the low half.
pub open spec fn pack(p: Pos) -> int {
    (p.0 + half()) * span() + (p.1 + half())
}

/// The cell that key `k` stands for.
pub open spec fn unpack(k: int) -> Pos {
    (k / span() - half(), k % span() - half())
}

/// `p` moved by `d`.
pub open spec fn shifted(p: Pos, d: Pos) -> Pos {
    (p.0 + d.0, p.1 + d.1)
}

/// The cell next to `p` on the given side.
pub open spec fn neighbor(p: Pos, side: Side) -> Pos {
    shifted(p, side.spec_delta())
}

/// The cell `rows` rows below `p`.
pub open spec fn sunk(p: Pos, rows: int) -> Pos {
    (p.0, p.1 + rows)
}

/// The cell directly above `p`.
pub open spec fn above(p: Pos) -> Pos {
    (p.0, p.1 - 1)
}

/// The cell directly below `p`.
pub open spec fn below(p: Pos) -> Pos {
    (p.0, p.1 + 1)
}

/// Keys and cells in range correspond one to one.
pub proof fn lemma_pack_unpack(p: Pos)
    requires
        in_range(p),
    ensures
        0 <= pack(p) <= u64::MAX,
        unpack(pack(p)) == p,
{
    let hi: int = p.0 + half();
    let lo: int = p.1 + half();
    assert(0 <= hi < span() && 0 <= lo < span());
    assert((hi * span() + lo) / span() == hi && (hi * span() + lo) % span() == lo) by {
        vstd::arithmetic::div_mod::lemma_fundamental_div_mod_converse(
            hi * span() + lo,
            span(),
            hi,
            lo,
        );
    }
    assert(hi * span() <= (span() - 1) * span()) by (nonlinear_arith)
        requires
            0 <= hi <= span() - 1,
            span() > 0,
    ;
    assert(0 <= hi * span()) by (nonlinear_arith)
        requires
            0 <= hi,
            span() > 0,
    ;
}

/// Every key stands for exactly one cell in range.
pub proof fn lemma_unpack_pack(k: int)
    requires
        0 <= k <= u64::MAX,
    ensures
        in_range(unpack(k)),
        pack(unpack(k)) == k,
{
    vstd::arithmetic::div_mod::lemma_fundamental_div_mod(k, span());
    assert(0 <= k % span() < span());
    assert(0 <= k / span() < span()) by {
        vstd::arithmetic::div_mod::lemma_div_pos_is_pos(k, span());
        if k / span() >= span() {
            assert(span() * (k / span()) >= span() * span()) by (nonlinear_arith)
                requires
                    k / span() >= span(),
                    span() > 0,
            ;
        }
    }
    assert((k / span()) * span() == span() * (k / span())) by (nonlinear_arith);
}

/// Two cells in range with the same key are the same cell.
pub proof fn lemma_pack_injective(p: Pos, q: Pos)
    requires
        in_range(p),
        in_range(q),
        pack(p) == pack(q),
    ensures
        p == q,
{
    lemma_pack_unpack(p);
    lemma_pack_unpack(q);
}

impl Coord {
    /// The cell at `(x, y)`.
    pub fn new(x: i32, y: i32) -> (c: Coord)
        ensures
            c@ == (x as int, y as int),
    {
        Coord { x, y }
    }

    /// The key under which this cell is stored.
    pub fn key(self) -> (k: u64)
        ensures
            k == pack(self@),
    {
        proof {
            lemma_pack_unpack(self@);
        }
        let hi: u64 = (self.x as i64 + 0x8000_0000i64) as u64;
        let lo: u64 = (self.y as i64 + 0x8000_0000i64) as u64;
        assert(hi * span() <= (span() - 1) * span()) by (nonlinear_arith)
            requires
                0 <= hi <= span() - 1,
                span() > 0,
        ;
        hi * 0x1_0000_0000u64 + lo
    }

    /// The cell that a key stands for.
    pub fn from_key(k: u64) -> (c: Coord)
        ensures
            c@ == unpack(k as int),
            pack(c@) == k,
    {
        proof {
            lemma_unpack_pack(k as int);
        }
        let hi: u64 = k / 0x1_0000_0000u64;
        let lo: u64 = k % 0x1_0000_0000u64;
        let x: i32 = (hi as i64 - 0x8000_0000i64) as i32;
        let y: i32 = (lo as i64 - 0x8000_0000i64) as i32;
        Coord { x, y }
    }

    /// The cell `dx` to the right and `dy` below, unless it lies outside the
    /// range of coordinates.
    pub fn offset(self, dx: i32, dy: i32) -> (r: Option<Coord>)
        ensures
            in_range(shifted(self@, (dx as int, dy as int))) <==> r is Some,
            r matches Some(c) ==> c@ == shifted(self@, (dx as int, dy as int)),
    {
        match (self.x.checked_add(dx), self.y.checked_add(dy)) {
            (Some(x), Some(y)) => Some(Coord { x, y }),
            _ => None,
        }
    }

    /// The cell `rows` rows further down, unless it lies outside the range
    /// of coordinates.
    pub fn sunk(self, rows: u64) -> (r: Option<Coord>)
        ensures
            in_range(sunk(self@, rows as int)) <==> r is Some,
            r matches Some(c) ==> c@ == sunk(self@, rows as int),
    {
        if rows > 0xFFFF_FFFFu64 {
            None
        } else {
            let y: i64 = self.y as i64 + rows as i64;
            if y > i32::MAX as i64 {
                None
            } else {
                Some(Coord { x: self.x, y: y as i32 })
            }
        }
    }

    /// The cell next to this one on `side`, unless it lies outside the range
    /// of coordinates.
    pub fn step(self, side: Side) -> (r: Option<Coord>)
        ensures
            in_range(neighbor(self@, side)) <==> r is Some,
            r matches Some(c) ==> c@ == neighbor(self@, side),
    {
        let d = side.delta();
        self.offset(d.0, d.1)
    }
}

/// One of the four sides of a cell, in the order in which a block lists its
/// connectors.
#[derive(Clone, Copy, Debug, PartialEq, Eq, Structural, Hash)]
pub enum Side {
    North,
    East,
    South,
    West,
}

/// The horizontal part of the step towards the side at place `index`.
pub open spec fn delta_x(index: int) -> int {
    if index == 1 {
        1
    } else if index == 3 {
        -1
    } else {
        0
    }
}

/// The vertical part of the step towards the side at place `index`.
pub open spec fn delta_y(index: int) -> int {
    if index == 0 {
        -1
    } else if index == 2 {
        1
    } else {
        0
    }
}

/// `Direction4::deltas` of cogs_gamedev, for the direction at place `index`
/// of `Direction4::DIRECTIONS` (north, east, south, west). Claimed: north is
/// `(0, -1)`, east `(1, 0)`, south `(0, 1)` and west `(-1, 0)`.
#[verifier::external_body]
fn direction_deltas(index: usize) -> (d: (i32, i32))
    requires
        index < 4,
    ensures
        d.0 == delta_x(index as int),
        d.1 == delta_y(index as int),
{
    let step = Direction4::DIRECTIONS[index].deltas();
    (step.x as i32, step.y as i32)
}

/// `Direction4::flip` of cogs_gamedev, for the direction at place `index` of
/// `Direction4::DIRECTIONS`. Claimed: the result is the place of the
/// direction two quarter turns further, which is the opposite one.
#[verifier::external_body]
fn direction_flip(index: usize) -> (flipped: usize)
    requires
        index < 4,
    ensures
        flipped == (index + 2) % 4,
{
    Direction4::DIRECTIONS[index].flip() as usize
}

impl Side {
    /// The place of this side in a block's list of connectors.
    pub open spec fn spec_index(self) -> int {
        match self {
            Side::North => 0,
            Side::East => 1,
            Side::South => 2,
            Side::West => 3,
        }
    }

    /// The side at place `i`.
    pub open spec fn spec_at(i: int) -> Side {
        if i == 0 {
            Side::North
        } else if i == 1 {
            Side::East
        } else if i == 2 {
            Side::South
        } else {
            Side::West
        }
    }

    /// The side facing this one across a shared edge.
    pub open spec fn spec_flip(self) -> Side {
        match self {
            Side::North => Side::South,
            Side::East => Side::West,
            Side::South => Side::North,
            Side::West => Side::East,
        }
    }

    /// The step from a cell to its neighbour on this side.
    pub open spec fn spec_delta(self) -> Pos {
        match self {
            Side::North => (0, -1),
            Side::East => (1, 0),
            Side::South => (0, 1),
            Side::West => (-1, 0),
        }
    }

    /// The place of this side in a block's list of connectors.
    pub fn index(self) -> (i: usize)
        ensures
            i == self.spec_index(),
            i < 4,
    {
        match self {
            Side::North => 0,
            Side::East => 1,
            Side::South => 2,
            Side::West => 3,
        }
    }

    /// The side at place `i` of a block's list of connectors.
    pub fn at(i: usize) -> (side: Side)
        requires
            i < 4,
        ensures
            side == Side::spec_at(i as int),
            side.spec_index() == i,
    {
        if i == 0 {
            Side::North
        } else if i == 1 {
            Side::East
        } else if i == 2 {
            Side::South
        } else {
            Side::West
        }
    }

    /// The side facing this one across a shared edge.
    #[verifier::when_used_as_spec(spec_flip)]
    pub fn flip(self) -> (side: Side)
        ensures
            side == self.spec_flip(),
    {
        Side::at(direction_flip(self.index()))
    }

    /// The step from a cell to its neighbour on this side.
    pub fn delta(self) -> (d: (i32, i32))
        ensures
            (d.0 as int, d.1 as int) == self.spec_delta(),
    {
        direction_deltas(self.index())
    }
}

/// Flipping twice gives the side back, and the two steps cancel.
pub proof fn lemma_flip_involution(side: Side)
    ensures
        side.spec_flip().spec_flip() == side,
        shifted(side.spec_delta(), side.spec_flip().spec_delta()) == (0int, 0int),
{
}

} // verus!
