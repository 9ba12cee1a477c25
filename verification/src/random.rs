//! Chance: the draws that the simulation takes from the shared random number
//! generator, and the blocks it makes of them.

use crate::blocks::{Block, BlockKind, Connector, ConnectorShape};
use crate::damage::Chance;
use quad_rand::compat::QuadRand;
use rand::seq::SliceRandom;
use rand::Rng;
use vstd::prelude::*;
use vstd::seq_lib::to_multiset_build;

verus! {

/// Out of how many blocks one is an anchor.
pub const ANCHOR_ODDS: u32 = 20;

/// `Rng::gen_range` of rand on the range `0..bound`, with quad_rand's
/// `QuadRand` as the generator. Claimed: the draw lies in the range. An empty
/// range makes `gen_range` panic and is left out.
#[verifier::external_body]
fn random_below(bound: usize) -> (roll: usize)
    requires
        bound > 0,
    ensures
        roll < bound,
{
    QuadRand.gen_range(0..bound)
}

/// `Rng::gen` of rand for a `bool`, with quad_rand's `QuadRand` as the
/// generator. Nothing is claimed of the result.
#[verifier::external_body]
fn random_bool() -> (flip: bool) {
    QuadRand.gen()
}

/// `Rng::gen_ratio` of rand, with quad_rand's `QuadRand` as the generator.
/// Claimed: a numerator of 0 never gives `true` and a numerator equal to the
/// denominator always does. A denominator of 0 or a numerator above the
/// denominator makes `gen_ratio` panic and is left out.
#[verifier::external_body]
fn random_ratio(numerator: u32, denominator: u32) -> (hit: bool)
    requires
        denominator > 0,
        numerator <= denominator,
    ensures
        numerator == 0 ==> !hit,
        numerator == denominator ==> hit,
{
    QuadRand.gen_ratio(numerator, denominator)
}

/// `SliceRandom::shuffle` of rand on the four sides of a block, with
/// quad_rand's `QuadRand` as the generator. Claimed: the sides are the same
/// after the call, in some order.
#[verifier::external_body]
fn shuffle_sides(sides: &mut [Option<Connector>; 4])
    ensures
        final(sides)@.to_multiset() == old(sides)@.to_multiset(),
{
    sides.shuffle(&mut QuadRand);
}

/// How many of the sides in `sides` are smooth.
pub open spec fn smooth_count(sides: Seq<Option<Connector>>) -> nat {
    (if sides[0] is None { 1nat } else { 0 })
    + (if sides[1] is None { 1nat } else { 0 })
    + (if sides[2] is None { 1nat } else { 0 })
    + (if sides[3] is None { 1nat } else { 0 })
}

/// Of four sides, as many are smooth as the sides taken together hold
/// smooth ones.
proof fn lemma_smooth_count(sides: Seq<Option<Connector>>)
    requires
        sides.len() == 4,
    ensures
        sides.to_multiset().count(None) == smooth_count(sides),
{
    let none = Seq::<Option<Connector>>::empty();
    let one = none.push(sides[0]);
    let two = one.push(sides[1]);
    let three = two.push(sides[2]);
    let four = three.push(sides[3]);
    assert(four =~= sides);
    assert(none.to_multiset() =~= vstd::multiset::Multiset::<Option<Connector>>::empty()) by {
        none.to_multiset_ensures();
        assert(none.to_multiset().len() == 0);
    }
    to_multiset_build(none, sides[0]);
    to_multiset_build(one, sides[1]);
    to_multiset_build(two, sides[2]);
    to_multiset_build(three, sides[3]);
}

impl ConnectorShape {
    /// The shape that a roll below 6 stands for: one roll for square, two
    /// for round and three for pointy.
    pub open spec fn spec_from_roll(roll: int) -> ConnectorShape {
        if roll < 1 {
            ConnectorShape::Square
        } else if roll < 3 {
            ConnectorShape::Round
        } else {
            ConnectorShape::Pointy
        }
    }

    /// The shape that a roll below 6 stands for.
    pub fn from_roll(roll: usize) -> (shape: ConnectorShape)
        requires
            roll < 6,
        ensures
            shape == ConnectorShape::spec_from_roll(roll as int),
    {
        if roll < 1 {
            ConnectorShape::Square
        } else if roll < 3 {
            ConnectorShape::Round
        } else {
            ConnectorShape::Pointy
        }
    }
}

impl BlockKind {
    /// The kind that a roll below 3 stands for: two rolls for a scaffold and
    /// one for a solid block.
    pub open spec fn spec_from_roll(roll: int) -> BlockKind {
        if roll < 2 {
            BlockKind::Scaffold
        } else {
            BlockKind::Solid
        }
    }

    /// The kind that a roll below 3 stands for. It is never an anchor.
    pub fn from_roll(roll: usize) -> (kind: BlockKind)
        requires
            roll < 3,
        ensures
            kind == BlockKind::spec_from_roll(roll as int),
            kind != BlockKind::Anchor,
    {
        if roll < 2 {
            BlockKind::Scaffold
        } else {
            BlockKind::Solid
        }
    }
}

/// Whether an event of the given chance happens this time. An event with a
/// chance of 0 never happens and one with a chance of 1 always does.
pub fn strikes(chance: Chance) -> (hit: bool)
    requires
        chance.denominator > 0,
        chance.numerator <= chance.denominator,
    ensures
        chance.numerator == 0 ==> !hit,
        chance.numerator == chance.denominator ==> hit,
{
    random_ratio(chance.numerator, chance.denominator)
}

/// A shape drawn at random: pointy three times in six, round twice and
/// square once.
pub fn random_shape() -> (shape: ConnectorShape) {
    ConnectorShape::from_roll(random_below(6))
}

/// A connector drawn at random.
pub fn random_connector() -> (connector: Connector) {
    let shape = random_shape();
    let sticks_out = random_bool();
    Connector { shape, sticks_out }
}

/// A side drawn at random: smooth, or with a connector drawn at random.
pub fn random_side() -> (side: Option<Connector>) {
    if random_bool() {
        Some(random_connector())
    } else {
        None
    }
}

/// Whether `block` can come out of a draw: it has no damage and at least one
/// connector, and exactly one if it is an anchor.
pub open spec fn drawable(block: Block) -> bool {
    &&& block.damage == 0
    &&& block.connector_count() >= 1
    &&& block.kind == BlockKind::Anchor ==> block.connector_count() == 1
}

/// A block drawn at random, without damage. One in twenty is an anchor with
/// a single connector. The others are scaffolds or solid blocks with at
/// least one connector. On which sides the connectors sit is left to chance.
pub fn random_block() -> (block: Block)
    ensures
        drawable(block),
{
    let anchor = random_ratio(1, ANCHOR_ODDS);
    let kind = if anchor {
        BlockKind::Anchor
    } else {
        BlockKind::from_roll(random_below(3))
    };
    let lead = random_connector();
    let mut sides: [Option<Connector>; 4] = [Some(lead), None, None, None];
    if !anchor {
        sides = [Some(lead), random_side(), random_side(), random_side()];
    }
    let ghost drawn = sides@;
    shuffle_sides(&mut sides);
    let block = Block::new(kind, sides);
    proof {
        lemma_smooth_count(drawn);
        lemma_smooth_count(sides@);
        assert(smooth_count(drawn) <= 3);
        assert(anchor ==> smooth_count(drawn) == 3);
        assert(block.connector_count() == 4 - smooth_count(sides@));
    }
    block
}

} // verus!
