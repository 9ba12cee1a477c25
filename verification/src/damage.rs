//! Wear: how likely a block is to take damage, and what damage does to the
//! grid.

use crate::blocks::{Block, CHASM_WIDTH, WALL_COLUMN};
use crate::bonding::bond_count;
use crate::coords::{Coord, Pos};
use crate::grid::{CellSet, Grid};
use crate::stability::{lemma_listed_push, listed};
use vstd::prelude::*;

verus! {

/// Wear strikes once in this many ticks.
pub const BREAK_TIMER: u64 = 60;

/// The columns strictly between the walls run from minus this to this.
pub const HALF_WIDTH: i32 = 4;

/// The columns between the walls are as many as the chasm is wide, and the
/// walls stand right next to them.
pub proof fn lemma_widths()
    ensures
        2 * HALF_WIDTH + 1 == CHASM_WIDTH,
        WALL_COLUMN == HALF_WIDTH + 1,
{
}

/// The denominator of an unmodified chance.
pub const CHANCE_UNITS: u32 = 600;

/// A probability, as the fraction `numerator / denominator`.
#[derive(Clone, Copy, Debug, PartialEq, Eq, Structural)]
pub struct Chance {
    pub numerator: u32,
    pub denominator: u32,
}

/// The chance that a block with `bonds` bonds takes damage when wear strikes,
/// in six-hundredths. A block that only rests never does; the more bonds, the
/// more load, the more likely.
pub open spec fn break_weight(bonds: nat) -> nat {
    if bonds == 0 {
        0
    } else if bonds == 1 {
        3
    } else if bonds == 2 {
        10
    } else if bonds == 3 {
        15
    } else {
        30
    }
}

/// The chance that a block takes damage when wear strikes: the weight of its
/// bonds, halved for a block braced by a wall, and a tenth of that for a
/// block in a full row.
pub open spec fn spec_break_chance(bonds: nat, braced: bool, full_row: bool) -> Chance {
    Chance {
        numerator: break_weight(bonds) as u32,
        denominator: (CHANCE_UNITS * (if braced {
            2int
        } else {
            1int
        }) * (if full_row {
            10int
        } else {
            1int
        })) as u32,
    }
}

/// Whether a block in cell `p` is braced by a wall: it stands in a wall
/// column or beyond.
pub open spec fn is_braced(p: Pos) -> bool {
    p.0 > HALF_WIDTH || p.0 < -HALF_WIDTH
}

/// Whether the row at depth `y` is full: every column between the walls
/// holds a block.
pub open spec fn is_full_row(cells: Map<Pos, Block>, y: int) -> bool {
    forall|x: int| -HALF_WIDTH <= x <= HALF_WIDTH ==> cells.contains_key((x, y))
}

/// The chance that the block in cell `p` takes damage when wear strikes.
pub open spec fn chance_at(cells: Map<Pos, Block>, p: Pos) -> Chance {
    spec_break_chance(bond_count(cells, p, cells[p]), is_braced(p), is_full_row(cells, p.1))
}

/// The cells whose blocks can take damage from wear at all: those with a
/// bond.
pub open spec fn at_risk(cells: Map<Pos, Block>) -> Set<Pos> {
    Set::new(|p: Pos| cells.contains_key(p) && bond_count(cells, p, cells[p]) > 0)
}

/// A block after wear has passed over it.
pub open spec fn struck(block: Block, hit: bool) -> Block {
    if hit {
        block.spec_damaged()
    } else {
        block
    }
}

/// The grid after wear has struck the blocks in `hits`: each of them has one
/// more point of damage, and every block whose damage is then more than it
/// can take is gone, whether it was struck or not.
pub open spec fn after_damage(cells: Map<Pos, Block>, hits: Set<Pos>) -> Map<Pos, Block> {
    Map::new(
        |p: Pos| cells.contains_key(p) && !struck(cells[p], hits.contains(p)).spec_destroyed(),
        |p: Pos| struck(cells[p], hits.contains(p)),
    )
}

/// Whether wear that strikes the cells `hits` strikes any block at all.
pub open spec fn any_struck(cells: Map<Pos, Block>, hits: Set<Pos>) -> bool {
    exists|p: Pos| hits.contains(p) && #[trigger] cells.contains_key(p)
}

/// Whether `list` names every block of `cells` once, each with the chance
/// that it takes damage when wear strikes.
pub open spec fn is_chance_list(cells: Map<Pos, Block>, list: Seq<(Coord, Chance)>) -> bool {
    &&& forall|i: int, j: int| 0 <= i < j < list.len() ==> (#[trigger] list[i]).0 != (#[trigger] list[j]).0
    &&& forall|i: int|
        0 <= i < list.len() ==> cells.contains_key((#[trigger] list[i]).0@) && list[i].1 == chance_at(
            cells,
            list[i].0@,
        )
    &&& forall|p: Pos|
        cells.contains_key(p) ==> exists|i: int| 0 <= i < list.len() && (#[trigger] list[i]).0@ == p
}

/// Whether `draws` can be what comes of one draw for each entry of `list`:
/// there is one draw for each, a chance of nothing never comes true and a
/// sure one always does.
pub open spec fn draws_fit(list: Seq<(Coord, Chance)>, draws: Seq<bool>) -> bool {
    &&& draws.len() == list.len()
    &&& forall|i: int|
        0 <= i < list.len() ==> ((#[trigger] list[i]).1.numerator == 0 ==> !draws[i]) && (list[i].1.numerator
            == list[i].1.denominator ==> draws[i])
}

/// The cells of `list` whose draw came true, in the order of the list. An
/// entry without a draw counts as not struck.
pub open spec fn hit_cells(list: Seq<(Coord, Chance)>, draws: Seq<bool>) -> Seq<Coord>
    decreases list.len(),
{
    if list.len() == 0 {
        Seq::empty()
    } else {
        let last = list.len() - 1;
        let front = hit_cells(list.drop_last(), draws);
        if last < draws.len() && draws[last] {
            front.push(list[last].0)
        } else {
            front
        }
    }
}

/// Whether the draw for cell `c` came true: `c` is a cell of `list` whose
/// draw in `draws` is true.
pub open spec fn drawn_true(list: Seq<(Coord, Chance)>, draws: Seq<bool>, c: Coord) -> bool {
    exists|i: int| 0 <= i < list.len() && i < draws.len() && draws[i] && (#[trigger] list[i]).0 == c
}

/// The cells that are struck are the cells of the list whose draw came true.
pub proof fn lemma_hit_cells(list: Seq<(Coord, Chance)>, draws: Seq<bool>)
    ensures
        forall|c: Coord| #[trigger] hit_cells(list, draws).contains(c) <==> drawn_true(list, draws, c),
        hit_cells(list, draws).len() <= list.len(),
    decreases list.len(),
{
    let all = hit_cells(list, draws);
    if list.len() > 0 {
        let last = list.len() - 1;
        let front_list = list.drop_last();
        let front = hit_cells(front_list, draws);
        lemma_hit_cells(front_list, draws);
        assert forall|c: Coord| all.contains(c) implies drawn_true(list, draws, c) by {
            let k = choose|k: int| 0 <= k < all.len() && all[k] == c;
            if k < front.len() {
                assert(front[k] == c);
                assert(front.contains(c));
                assert(drawn_true(front_list, draws, c));
                let i = choose|i: int|
                    0 <= i < front_list.len() && i < draws.len() && draws[i] && (#[trigger] front_list[i]).0 == c;
                assert(list[i].0 == c);
            } else {
                assert(list[last].0 == c);
            }
        }
        assert forall|c: Coord| drawn_true(list, draws, c) implies all.contains(c) by {
            let i = choose|i: int| 0 <= i < list.len() && i < draws.len() && draws[i] && (#[trigger] list[i]).0 == c;
            if i < last {
                assert(front_list[i].0 == c);
                assert(drawn_true(front_list, draws, c));
                assert(front.contains(c));
                let k = choose|k: int| 0 <= k < front.len() && front[k] == c;
                assert(all[k] == c);
            } else {
                assert(all[all.len() - 1] == c);
            }
        }
    } else {
        assert forall|c: Coord| all.contains(c) <==> drawn_true(list, draws, c) by {}
    }
}

/// Where no cell is listed twice, no cell is struck twice.
proof fn lemma_hit_cells_distinct(list: Seq<(Coord, Chance)>, draws: Seq<bool>)
    requires
        forall|i: int, j: int| 0 <= i < j < list.len() ==> (#[trigger] list[i]).0 != (#[trigger] list[j]).0,
    ensures
        hit_cells(list, draws).no_duplicates(),
    decreases list.len(),
{
    if list.len() > 0 {
        let last = list.len() - 1;
        let front_list = list.drop_last();
        let front = hit_cells(front_list, draws);
        assert forall|i: int, j: int| 0 <= i < j < front_list.len() implies (#[trigger] front_list[i]).0 != (
        #[trigger] front_list[j]).0 by {
            assert(front_list[i] == list[i] && front_list[j] == list[j]);
        }
        lemma_hit_cells_distinct(front_list, draws);
        lemma_hit_cells(front_list, draws);
        if last < draws.len() && draws[last] {
            assert(!front.contains(list[last].0)) by {
                if front.contains(list[last].0) {
                    assert(drawn_true(front_list, draws, list[last].0));
                    let i = choose|i: int|
                        0 <= i < front_list.len() && i < draws.len() && draws[i] && (#[trigger] front_list[i]).0
                            == list[last].0;
                    assert(front_list[i] == list[i]);
                }
            }
        }
    }
}

/// Wear strikes only blocks that have a bond, and none twice: where the
/// draws fit the chances of the blocks of a grid, every cell that is struck
/// is at risk.
pub proof fn lemma_hits_are_at_risk(cells: Map<Pos, Block>, list: Seq<(Coord, Chance)>, draws: Seq<bool>)
    requires
        is_chance_list(cells, list),
        draws_fit(list, draws),
    ensures
        listed(hit_cells(list, draws)).subset_of(at_risk(cells)),
        hit_cells(list, draws).no_duplicates(),
{
    let hits = hit_cells(list, draws);
    lemma_hit_cells(list, draws);
    assert forall|p: Pos| listed(hits).contains(p) implies at_risk(cells).contains(p) by {
        let k = choose|k: int| 0 <= k < hits.len() && #[trigger] hits[k]@ == p;
        assert(hits.contains(hits[k]));
        assert(drawn_true(list, draws, hits[k]));
        let i = choose|i: int|
            0 <= i < list.len() && i < draws.len() && draws[i] && (#[trigger] list[i]).0 == hits[k];
        assert(list[i].1.numerator != 0);
    }
    lemma_hit_cells_distinct(list, draws);
}

/// In a full row a block is a tenth as likely to take damage as the same
/// block in a row with a gap.
pub proof fn lemma_full_row_tenth(bonds: nat, braced: bool)
    ensures
        spec_break_chance(bonds, braced, true).numerator == spec_break_chance(bonds, braced, false).numerator,
        spec_break_chance(bonds, braced, true).denominator == 10 * spec_break_chance(
            bonds,
            braced,
            false,
        ).denominator,
{
}

/// Next to a wall a block is half as likely to take damage as the same block
/// elsewhere.
pub proof fn lemma_braced_half(bonds: nat, full_row: bool)
    ensures
        spec_break_chance(bonds, true, full_row).numerator == spec_break_chance(bonds, false, full_row).numerator,
        spec_break_chance(bonds, true, full_row).denominator == 2 * spec_break_chance(
            bonds,
            false,
            full_row,
        ).denominator,
{
}

/// A block without bonds never takes damage from wear, and more bonds never
/// make damage less likely.
pub proof fn lemma_break_weight_grows(fewer: nat, more: nat)
    requires
        fewer <= more,
    ensures
        break_weight(0) == 0,
        break_weight(fewer) <= break_weight(more),
{
}

/// The chance that a block with `bonds` bonds takes damage when wear strikes.
pub fn break_chance(bonds: usize, braced: bool, full_row: bool) -> (chance: Chance)
    requires
        bonds <= 4,
    ensures
        chance == spec_break_chance(bonds as nat, braced, full_row),
        chance.numerator <= chance.denominator,
        chance.denominator > 0,
{
    let numerator: u32 = if bonds == 0 {
        0
    } else if bonds == 1 {
        3
    } else if bonds == 2 {
        10
    } else if bonds == 3 {
        15
    } else {
        30
    };
    let mut denominator: u32 = CHANCE_UNITS;
    if braced {
        denominator = denominator * 2;
    }
    if full_row {
        denominator = denominator * 10;
    }
    Chance { numerator, denominator }
}

impl Grid {
    /// Whether every column between the walls holds a block at `depth`.
    pub fn full_row(&self, depth: i32) -> (full: bool)
        ensures
            full == is_full_row(self@, depth as int),
    {
        let mut x: i32 = -HALF_WIDTH;
        while x <= HALF_WIDTH
            invariant
                -HALF_WIDTH <= x <= HALF_WIDTH + 1,
                forall|c: int| -HALF_WIDTH <= c < x ==> self@.contains_key((c, depth as int)),
            decreases HALF_WIDTH + 1 - x,
        {
            if !self.contains(Coord { x, y: depth }) {
                return false;
            }
            x += 1;
        }
        true
    }

    /// The chance that the block in cell `pos` takes damage when wear
    /// strikes, if there is a block.
    pub fn break_chance_at(&self, pos: Coord) -> (found: Option<Chance>)
        ensures
            found is Some <==> self@.contains_key(pos@),
            found matches Some(chance) ==> {
                &&& chance == chance_at(self@, pos@)
                &&& chance.numerator <= chance.denominator
                &&& chance.denominator > 0
                &&& chance.numerator > 0 <==> at_risk(self@).contains(pos@)
            },
    {
        match self.get(pos) {
            Some(block) => {
                let bonds = self.live_bonds(pos, &block);
                let braced = pos.x > HALF_WIDTH || pos.x < -HALF_WIDTH;
                let full_row = self.full_row(pos.y);
                Some(break_chance(bonds, braced, full_row))
            },
            None => None,
        }
    }

    /// Every block of the grid, once, with the chance that it takes damage
    /// when wear strikes, in no particular order. Every chance is a fraction
    /// between 0 and 1.
    pub fn break_chances(&self) -> (list: Vec<(Coord, Chance)>)
        ensures
            is_chance_list(self@, list@),
            list.len() == self@.dom().len(),
            forall|i: int|
                0 <= i < list.len() ==> (#[trigger] list[i]).1.numerator <= list[i].1.denominator
                    && list[i].1.denominator > 0,
    {
        let cells = self.coords();
        let mut list: Vec<(Coord, Chance)> = Vec::new();
        let mut i: usize = 0;
        while i < cells.len()
            invariant
                0 <= i <= cells.len(),
                list.len() == i,
                forall|k: int| 0 <= k < cells.len() ==> self@.contains_key(#[trigger] cells[k]@),
                forall|k: int|
                    0 <= k < i ==> (#[trigger] list[k]).0 == cells[k] && list[k].1 == chance_at(self@, cells[k]@),
                forall|k: int|
                    0 <= k < i ==> (#[trigger] list[k]).1.numerator <= list[k].1.denominator
                        && list[k].1.denominator > 0,
            decreases cells.len() - i,
        {
            let cell = cells[i];
            match self.break_chance_at(cell) {
                Some(chance) => {
                    list.push((cell, chance));
                },
                None => {},
            }
            i += 1;
        }
        proof {
            assert forall|a: int, b: int| 0 <= a < b < list.len() implies (#[trigger] list@[a]).0 != (
            #[trigger] list@[b]).0 by {
                assert(cells@[a] != cells@[b]);
            }
            assert forall|p: Pos| self@.contains_key(p) implies exists|k: int|
                0 <= k < list.len() && (#[trigger] list@[k]).0@ == p by {
                let k = choose|k: int| 0 <= k < cells.len() && #[trigger] cells[k]@ == p;
                assert(list@[k].0@ == p);
            }
        }
        list
    }

    /// Lets wear strike the blocks in the cells `hits`: each takes one point
    /// of damage. Then every block with more damage than it can take leaves
    /// the grid. Cells of `hits` without a block do not matter, nor does it
    /// matter how often a cell is named.
    pub fn apply_damage(&mut self, hits: &Vec<Coord>) -> (any: bool)
        ensures
            final(self)@ == after_damage(old(self)@, listed(hits@)),
            any == any_struck(old(self)@, listed(hits@)),
    {
        let ghost before = self@;
        let mut any = false;
        let mut marked = CellSet::new();
        let mut h: usize = 0;
        proof {
            assert(listed(hits@.take(0)) =~= Set::<Pos>::empty());
        }
        while h < hits.len()
            invariant
                0 <= h <= hits.len(),
                marked@ == listed(hits@.take(h as int)),
            decreases hits.len() - h,
        {
            let hit = hits[h];
            proof {
                assert(hits@.take(h as int + 1) =~= hits@.take(h as int).push(hit));
                lemma_listed_push(hits@.take(h as int), hit);
            }
            marked.insert(hit);
            h += 1;
        }
        let cells = self.coords();
        let mut i: usize = 0;
        proof {
            assert(hits@.take(h as int) =~= hits@);
            self.lemma_view();
        }
        while i < cells.len()
            invariant
                0 <= i <= cells.len(),
                cells@.no_duplicates(),
                forall|k: int| 0 <= k < cells.len() ==> before.contains_key(#[trigger] cells[k]@),
                marked@ == listed(hits@),
                forall|p: Pos| #[trigger]
                    self@.contains_key(p) <==> if listed(cells@.take(i as int)).contains(p) {
                        after_damage(before, listed(hits@)).contains_key(p)
                    } else {
                        before.contains_key(p)
                    },
                forall|p: Pos| #[trigger]
                    self@.contains_key(p) ==> self@[p] == if listed(cells@.take(i as int)).contains(p) {
                        after_damage(before, listed(hits@))[p]
                    } else {
                        before[p]
                    },
                any <==> exists|k: int| 0 <= k < i && listed(hits@).contains(#[trigger] cells[k]@),
            decreases cells.len() - i,
        {
            let cell = cells[i];
            proof {
                assert(cells@.take(i as int + 1) =~= cells@.take(i as int).push(cell));
                lemma_listed_push(cells@.take(i as int), cell);
                assert(!listed(cells@.take(i as int)).contains(cell@)) by {
                    if listed(cells@.take(i as int)).contains(cell@) {
                        let j = choose|j: int| 0 <= j < i && #[trigger] cells@.take(i as int)[j]@ == cell@;
                        assert(cells@[j] == cells@[i as int]);
                    }
                }
            }
            let hit = marked.contains(cell);
            let block = self.get(cell).unwrap();
            let worn = if hit {
                block.damaged()
            } else {
                block
            };
            if worn.is_destroyed() {
                self.remove(cell);
            } else if hit {
                self.put(cell, worn);
            }
            if hit {
                any = true;
            }
            i += 1;
        }
        proof {
            assert(cells@.take(i as int) =~= cells@);
            assert forall|p: Pos| before.contains_key(p) implies listed(cells@).contains(p) by {
                let k = choose|k: int| 0 <= k < cells.len() && #[trigger] cells[k]@ == p;
            }
            assert(self@ =~= after_damage(before, listed(hits@)));
            if any_struck(before, listed(hits@)) {
                let p = choose|p: Pos| listed(hits@).contains(p) && #[trigger] before.contains_key(p);
                let k = choose|k: int| 0 <= k < cells.len() && #[trigger] cells[k]@ == p;
            }
        }
        any
    }
}

/// The cells of `chances` whose draw in `draws` came true, in the order of
/// the list. An entry without a draw counts as not struck.
pub fn collect_hits(chances: &Vec<(Coord, Chance)>, draws: &Vec<bool>) -> (hits: Vec<Coord>)
    ensures
        hits@ == hit_cells(chances@, draws@),
{
    let mut hits: Vec<Coord> = Vec::new();
    let mut i: usize = 0;
    proof {
        assert(chances@.take(0) =~= Seq::<(Coord, Chance)>::empty());
    }
    while i < chances.len()
        invariant
            0 <= i <= chances.len(),
            hits@ == hit_cells(chances@.take(i as int), draws@),
        decreases chances.len() - i,
    {
        proof {
            assert(chances@.take(i as int + 1).drop_last() =~= chances@.take(i as int));
        }
        if i < draws.len() && draws[i] {
            hits.push(chances[i].0);
        }
        i += 1;
    }
    proof {
        assert(chances@.take(i as int) =~= chances@);
    }
    hits
}

} // verus!
