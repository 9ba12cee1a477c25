//! Measures of a whole grid: how deep it reaches and where its weight lies.

use crate::blocks::Block;
use crate::coords::Pos;
use crate::grid::Grid;
use crate::stability::{lemma_listed_push, listed};
use vstd::prelude::*;
use vstd::set::fold::{is_fun_commutative, lemma_fold_empty, lemma_fold_insert};

verus! {

/// Whether `depth` is the depth of the deepest block of `cells`, or 0 if no
/// block lies below the ground line.
pub open spec fn is_max_depth(cells: Map<Pos, Block>, depth: int) -> bool {
    &&& depth >= 0
    &&& forall|p: Pos| cells.contains_key(p) ==> p.1 <= depth
    &&& (depth == 0 || exists|p: Pos| cells.contains_key(p) && p.1 == depth)
}

/// The depth of the deepest block of `cells`, or 0 if no block lies below
/// the ground line.
pub open spec fn deepest(cells: Map<Pos, Block>) -> int {
    choose|depth: int| is_max_depth(cells, depth)
}

/// There is only one greatest depth.
pub proof fn lemma_deepest(cells: Map<Pos, Block>, depth: int)
    requires
        is_max_depth(cells, depth),
    ensures
        deepest(cells) == depth,
{
    let other = deepest(cells);
    assert(is_max_depth(cells, other));
    if other != depth {
        if other > depth {
            let p = choose|p: Pos| cells.contains_key(p) && p.1 == other;
        } else {
            let p = choose|p: Pos| cells.contains_key(p) && p.1 == depth;
        }
    }
}

/// Every finite grid has a greatest depth.
pub proof fn lemma_deepest_exists(cells: Map<Pos, Block>)
    requires
        cells.dom().finite(),
    ensures
        is_max_depth(cells, deepest(cells)),
    decreases cells.dom().len(),
{
    if cells.dom().len() == 0 {
        assert forall|p: Pos| !cells.contains_key(p) by {
            if cells.contains_key(p) {
                assert(cells.dom().contains(p));
                assert(cells.dom().len() > 0);
            }
        }
        assert(is_max_depth(cells, 0));
    } else {
        let p = cells.dom().choose();
        let rest = cells.remove(p);
        lemma_deepest_exists(rest);
        let below_rest = deepest(rest);
        let depth = if p.1 > below_rest {
            p.1
        } else {
            below_rest
        };
        assert forall|q: Pos| cells.contains_key(q) implies q.1 <= depth by {
            if q != p {
                assert(rest.contains_key(q));
            }
        }
        if depth != 0 {
            if p.1 > below_rest {
                assert(cells.contains_key(p) && p.1 == depth);
            } else {
                let q = choose|q: Pos| rest.contains_key(q) && q.1 == below_rest;
                assert(cells.contains_key(q) && q.1 == depth);
            }
        }
        assert(is_max_depth(cells, depth));
    }
}

/// Adds the weight of the block in `p` to a sum.
pub open spec fn add_mass(cells: Map<Pos, Block>) -> spec_fn(int, Pos) -> int {
    |sum: int, p: Pos| sum + cells[p].kind.spec_mass()
}

/// Adds the weight of the block in `p`, times its depth, to a sum.
pub open spec fn add_moment(cells: Map<Pos, Block>) -> spec_fn(int, Pos) -> int {
    |sum: int, p: Pos| sum + p.1 * cells[p].kind.spec_mass()
}

/// The weight of all blocks of `cells` together.
pub open spec fn total_mass(cells: Map<Pos, Block>) -> int {
    cells.dom().fold(0int, add_mass(cells))
}

/// The sum over all blocks of `cells` of weight times depth.
pub open spec fn total_moment(cells: Map<Pos, Block>) -> int {
    cells.dom().fold(0int, add_moment(cells))
}

/// The depth at which the weight `mass` with the moment `moment` balances,
/// rounded down. Without weight it is 0.
pub open spec fn spec_center(moment: int, mass: int) -> int {
    if mass <= 0 {
        0
    } else {
        moment / mass
    }
}

/// The depth at which the weight of `cells` balances, rounded down; 0 where
/// nothing has weight.
pub open spec fn center_of_mass(cells: Map<Pos, Block>) -> int {
    spec_center(total_moment(cells), total_mass(cells))
}

/// A grid without blocks has no weight, and its centre of mass is 0.
pub proof fn lemma_empty_center()
    ensures
        total_mass(Map::<Pos, Block>::empty()) == 0,
        total_moment(Map::<Pos, Block>::empty()) == 0,
        center_of_mass(Map::<Pos, Block>::empty()) == 0,
{
    let cells = Map::<Pos, Block>::empty();
    assert(cells.dom() =~= Set::<Pos>::empty());
    lemma_fold_empty::<Pos, int>(0int, add_mass(cells));
    lemma_fold_empty::<Pos, int>(0int, add_moment(cells));
}

/// What a survey of a grid finds.
#[derive(Clone, Copy, Debug, PartialEq, Eq, Structural)]
pub struct Survey {
    /// The depth of the deepest block, at least 0.
    pub max_depth: i32,
    /// The weight of all blocks together.
    pub mass: u128,
    /// The sum over all blocks of weight times depth.
    pub moment: i128,
}

impl Survey {
    /// The depth at which the weight balances, rounded down. Without weight
    /// it is 0.
    pub fn center(&self) -> (depth: i128)
        ensures
            depth == spec_center(self.moment as int, self.mass as int),
            self.mass == 0 ==> depth == 0,
    {
        center(self.moment, self.mass)
    }
}

/// What the quotient of a negative number is, from the division of its
/// magnitude: `-(n / d)` where that leaves no remainder, and one less where
/// it does.
proof fn lemma_floor_of_negative(n: int, d: int)
    requires
        n > 0,
        d > 0,
    ensures
        (-n) / d == if n % d == 0 {
            -(n / d)
        } else {
            -(n / d) - 1
        },
{
    let whole = n / d;
    let part = n % d;
    vstd::arithmetic::div_mod::lemma_fundamental_div_mod(n, d);
    assert(d * whole == whole * d) by (nonlinear_arith);
    if part == 0 {
        assert((-whole) * d == -(whole * d)) by (nonlinear_arith);
        vstd::arithmetic::div_mod::lemma_fundamental_div_mod_converse(-n, d, -whole, 0);
    } else {
        assert((-whole - 1) * d == -(whole * d) - d) by (nonlinear_arith);
        vstd::arithmetic::div_mod::lemma_fundamental_div_mod_converse(-n, d, -whole - 1, d - part);
    }
}

/// The depth at which the weight `mass` with the moment `moment` balances,
/// rounded down. Without weight it is 0.
pub fn center(moment: i128, mass: u128) -> (depth: i128)
    ensures
        depth == spec_center(moment as int, mass as int),
        mass == 0 ==> depth == 0,
{
    if mass == 0 {
        0
    } else if moment >= 0 {
        let up: u128 = moment as u128;
        proof {
            vstd::arithmetic::div_mod::lemma_div_pos_is_pos(up as int, mass as int);
            vstd::arithmetic::div_mod::lemma_div_is_ordered_by_denominator(up as int, 1, mass as int);
            vstd::arithmetic::div_mod::lemma_div_by_multiple(up as int, 1);
        }
        (up / mass) as i128
    } else {
        let least: u128 = 0x8000_0000_0000_0000_0000_0000_0000_0000u128;
        let down: u128 = if moment == i128::MIN {
            least
        } else {
            (-moment) as u128
        };
        let whole: u128 = down / mass;
        let part: u128 = down % mass;
        proof {
            lemma_floor_of_negative(down as int, mass as int);
            vstd::arithmetic::div_mod::lemma_fundamental_div_mod(down as int, mass as int);
            vstd::arithmetic::div_mod::lemma_div_is_ordered_by_denominator(down as int, 1, mass as int);
            vstd::arithmetic::div_mod::lemma_div_by_multiple(down as int, 1);
            if mass >= 2 {
                vstd::arithmetic::div_mod::lemma_div_is_ordered_by_denominator(down as int, 2, mass as int);
            }
        }
        if part == 0 {
            if whole == least {
                i128::MIN
            } else {
                -(whole as i128)
            }
        } else {
            -(whole as i128) - 1
        }
    }
}

impl Grid {
    /// Measures the grid: its greatest depth, its weight and its moment.
    pub fn survey(&self) -> (found: Survey)
        ensures
            found.max_depth == deepest(self@),
            is_max_depth(self@, found.max_depth as int),
            found.mass == total_mass(self@),
            found.moment == total_moment(self@),
    {
        let cells = self.coords();
        let mut max_depth: i32 = 0;
        let mut mass: u128 = 0;
        let mut moment: i128 = 0;
        let mut i: usize = 0;
        proof {
            self.lemma_view();
            assert(listed(cells@.take(0)) =~= Set::<Pos>::empty());
            lemma_fold_empty::<Pos, int>(0int, add_mass(self@));
            lemma_fold_empty::<Pos, int>(0int, add_moment(self@));
            assert(is_fun_commutative(add_mass(self@)));
            assert(is_fun_commutative(add_moment(self@)));
        }
        while i < cells.len()
            invariant
                0 <= i <= cells.len(),
                cells@.no_duplicates(),
                forall|k: int| 0 <= k < cells.len() ==> self@.contains_key(#[trigger] cells[k]@),
                self@.dom().finite(),
                is_fun_commutative(add_mass(self@)),
                is_fun_commutative(add_moment(self@)),
                max_depth >= 0,
                forall|k: int| 0 <= k < i ==> (#[trigger] cells[k]).y <= max_depth,
                max_depth == 0 || exists|k: int| 0 <= k < i && (#[trigger] cells[k]).y == max_depth,
                mass == listed(cells@.take(i as int)).fold(0int, add_mass(self@)),
                moment == listed(cells@.take(i as int)).fold(0int, add_moment(self@)),
                mass <= 5 * i,
                -0x4_0000_0000 * i <= moment <= 0x4_0000_0000 * i,
            decreases cells.len() - i,
        {
            let cell = cells[i];
            let block = self.get(cell).unwrap();
            proof {
                let done = listed(cells@.take(i as int));
                assert(cells@.take(i as int + 1) =~= cells@.take(i as int).push(cell));
                lemma_listed_push(cells@.take(i as int), cell);
                assert(!done.contains(cell@)) by {
                    if done.contains(cell@) {
                        let j = choose|j: int| 0 <= j < i && #[trigger] cells@.take(i as int)[j]@ == cell@;
                        assert(cells@[j] == cells@[i as int]);
                    }
                }
                assert(done.subset_of(self@.dom())) by {
                    assert forall|p: Pos| done.contains(p) implies self@.dom().contains(p) by {
                        let j = choose|j: int| 0 <= j < i && #[trigger] cells@.take(i as int)[j]@ == p;
                        assert(cells@.take(i as int)[j] == cells[j]);
                    }
                }
                vstd::set_lib::lemma_len_subset(done, self@.dom());
                lemma_fold_insert(done, 0int, add_mass(self@), cell@);
                lemma_fold_insert(done, 0int, add_moment(self@), cell@);
            }
            let weight: u32 = block.mass();
            if cell.y > max_depth {
                max_depth = cell.y;
            }
            mass = mass + weight as u128;
            assert(-0x4_0000_0000 <= cell.y * weight <= 0x4_0000_0000) by (nonlinear_arith)
                requires
                    -0x8000_0000 <= cell.y <= 0x7fff_ffff,
                    0 <= weight <= 5,
            ;
            moment = moment + (cell.y as i128) * (weight as i128);
            i += 1;
        }
        proof {
            assert(cells@.take(i as int) =~= cells@);
            assert(listed(cells@) =~= self@.dom()) by {
                assert forall|p: Pos| self@.dom().contains(p) implies listed(cells@).contains(p) by {
                    let k = choose|k: int| 0 <= k < cells.len() && #[trigger] cells[k]@ == p;
                }
            }
            assert(is_max_depth(self@, max_depth as int)) by {
                assert forall|p: Pos| self@.contains_key(p) implies p.1 <= max_depth by {
                    let k = choose|k: int| 0 <= k < cells.len() && #[trigger] cells[k]@ == p;
                    assert(cells[k].y <= max_depth);
                }
                if max_depth != 0 {
                    let k = choose|k: int| 0 <= k < i && (#[trigger] cells[k]).y == max_depth;
                    assert(self@.contains_key(cells[k]@));
                }
            }
            lemma_deepest(self@, max_depth as int);
        }
        Survey { max_depth, mass, moment }
    }
}

} // verus!
