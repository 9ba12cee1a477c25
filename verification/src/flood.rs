//! The search that finds the supported blocks of a grid: a flood fill that
//! starts at the anchors and follows what each visited block carries.

use crate::blocks::{Block, BlockKind};
use crate::coords::{above, neighbor, Coord, Pos, Side};
use crate::grid::{CellSet, Grid};
use crate::stability::{
    bonded_step, carries, is_anchor, lemma_anchor_supported, lemma_closed_holds_supported,
    lemma_listed_pop, lemma_listed_push, lemma_support_passes, lemma_supported_is_occupied, listed,
    loose_part, stable_part, supported,
};
use vstd::prelude::*;

verus! {

/// What the search keeps between steps: everything found so far is
/// supported, no anchor is forgotten, and whatever a visited cell carries is
/// visited or waits to be.
#[verifier::opaque]
spec fn search_inv(cells: Map<Pos, Block>, seen: Set<Pos>, waiting: Set<Pos>) -> bool {
    &&& forall|p: Pos| #[trigger] seen.contains(p) ==> cells.contains_key(p) && supported(cells, p)
    &&& forall|p: Pos| #[trigger] waiting.contains(p) ==> cells.contains_key(p) && supported(cells, p)
    &&& forall|a: Pos| #[trigger] is_anchor(cells, a) ==> seen.contains(a) || waiting.contains(a)
    &&& forall|p: Pos, q: Pos|
        seen.contains(p) && #[trigger] carries(cells, p, q) ==> seen.contains(q) || waiting.contains(q)
}

/// The search may start with nothing visited and exactly the anchors
/// waiting.
proof fn lemma_search_start(cells: Map<Pos, Block>, waiting: Set<Pos>)
    requires
        forall|a: Pos| #[trigger] waiting.contains(a) <==> is_anchor(cells, a),
    ensures
        search_inv(cells, Set::empty(), waiting),
{
    reveal(search_inv);
    assert forall|p: Pos| #[trigger] waiting.contains(p) implies cells.contains_key(p) && supported(cells, p) by {
        lemma_anchor_supported(cells, p);
    }
}

/// A waiting cell that was visited before can be dropped.
proof fn lemma_search_skip(cells: Map<Pos, Block>, seen: Set<Pos>, rest: Set<Pos>, pos: Pos)
    requires
        search_inv(cells, seen, rest.insert(pos)),
        seen.contains(pos),
    ensures
        search_inv(cells, seen, rest),
{
    reveal(search_inv);
    let before = rest.insert(pos);
    assert forall|p: Pos| #[trigger] rest.contains(p) implies cells.contains_key(p) && supported(cells, p) by {
        assert(before.contains(p));
    }
}

/// Visiting a waiting cell: it counts as visited, and what it carries waits.
proof fn lemma_search_visit(
    cells: Map<Pos, Block>,
    seen: Set<Pos>,
    rest: Set<Pos>,
    pos: Pos,
    waiting: Set<Pos>,
)
    requires
        search_inv(cells, seen, rest.insert(pos)),
        forall|q: Pos| #[trigger] waiting.contains(q) <==> rest.contains(q) || carries(cells, pos, q),
    ensures
        search_inv(cells, seen.insert(pos), waiting),
        cells.contains_key(pos),
{
    reveal(search_inv);
    let before = rest.insert(pos);
    let after = seen.insert(pos);
    assert(before.contains(pos));
    assert forall|p: Pos| #[trigger] after.contains(p) implies cells.contains_key(p) && supported(cells, p) by {
        if p != pos {
            assert(seen.contains(p));
        }
    }
    assert forall|p: Pos| #[trigger] waiting.contains(p) implies cells.contains_key(p) && supported(cells, p) by {
        if rest.contains(p) {
            assert(before.contains(p));
        } else {
            lemma_support_passes(cells, pos, p);
        }
    }
    assert forall|a: Pos| #[trigger] is_anchor(cells, a) implies after.contains(a) || waiting.contains(a) by {
        if !seen.contains(a) && a != pos {
            assert(before.contains(a));
            assert(rest.contains(a));
        }
    }
    assert forall|p: Pos, q: Pos| after.contains(p) && #[trigger] carries(cells, p, q) implies after.contains(q)
        || waiting.contains(q) by {
        if p != pos {
            assert(seen.contains(p));
            if !seen.contains(q) && q != pos {
                assert(before.contains(q));
                assert(rest.contains(q));
            }
        }
    }
}

/// When nothing waits any more, the visited cells are the supported ones.
proof fn lemma_search_done(cells: Map<Pos, Block>, seen: Set<Pos>)
    requires
        search_inv(cells, seen, Set::empty()),
    ensures
        forall|p: Pos| seen.contains(p) <==> supported(cells, p),
{
    reveal(search_inv);
    lemma_closed_holds_supported(cells, seen);
}

/// What a visited cell is known to be.
proof fn lemma_search_seen(cells: Map<Pos, Block>, seen: Set<Pos>, waiting: Set<Pos>)
    requires
        search_inv(cells, seen, waiting),
    ensures
        seen.subset_of(cells.dom()),
        waiting.subset_of(cells.dom()),
{
    reveal(search_inv);
}

/// Adds the cell above `pos` to the cells that wait, if a block stands in it.
fn push_above(grid: &Grid, pos: Coord, stack: &mut Vec<Coord>)
    ensures
        listed(final(stack)@) == if grid@.contains_key(above(pos@)) {
            listed(old(stack)@).insert(above(pos@))
        } else {
            listed(old(stack)@)
        },
{
    proof {
        grid.lemma_view();
    }
    match pos.offset(0, -1) {
        Some(up) => {
            if grid.contains(up) {
                proof {
                    lemma_listed_push(stack@, up);
                }
                stack.push(up);
            }
        },
        None => {},
    }
}

/// Adds the neighbour of `pos` on `side` to the cells that wait, if `pos`
/// carries it by a bond.
fn push_bonded(grid: &Grid, pos: Coord, block: &Block, side: Side, stack: &mut Vec<Coord>)
    requires
        grid@.contains_key(pos@),
        grid@[pos@] == *block,
    ensures
        listed(final(stack)@) == if grid@.contains_key(neighbor(pos@, side)) && bonded_step(
            grid@,
            pos@,
            neighbor(pos@, side),
            side,
        ) {
            listed(old(stack)@).insert(neighbor(pos@, side))
        } else {
            listed(old(stack)@)
        },
{
    proof {
        grid.lemma_view();
    }
    if grid.side_links(pos, block, side) {
        match pos.step(side) {
            Some(next) => {
                proof {
                    lemma_listed_push(stack@, next);
                }
                stack.push(next);
            },
            None => {},
        }
    }
}

/// Adds everything that the block in `pos` carries to the cells that wait.
fn push_carried(grid: &Grid, pos: Coord, stack: &mut Vec<Coord>)
    requires
        grid@.contains_key(pos@),
    ensures
        forall|q: Pos| #[trigger]
            listed(final(stack)@).contains(q) <==> listed(old(stack)@).contains(q) || carries(grid@, pos@, q),
{
    let block = grid.get(pos).unwrap();
    push_above(grid, pos, stack);
    push_bonded(grid, pos, &block, Side::South, stack);
    push_bonded(grid, pos, &block, Side::East, stack);
    push_bonded(grid, pos, &block, Side::West, stack);
}

/// The anchors of `grid`.
fn anchors(grid: &Grid) -> (found: Vec<Coord>)
    ensures
        forall|a: Pos| #[trigger] listed(found@).contains(a) <==> is_anchor(grid@, a),
{
    let cells = grid.coords();
    let mut found: Vec<Coord> = Vec::new();
    let mut i: usize = 0;
    assert(listed(found@) =~= Set::<Pos>::empty());
    while i < cells.len()
        invariant
            0 <= i <= cells.len(),
            forall|k: int| 0 <= k < cells.len() ==> grid@.contains_key(#[trigger] cells[k]@),
            forall|p: Pos| #[trigger] listed(found@).contains(p) ==> is_anchor(grid@, p),
            forall|k: int| 0 <= k < i && is_anchor(grid@, #[trigger] cells[k]@) ==> listed(found@).contains(cells[k]@),
        decreases cells.len() - i,
    {
        let cell = cells[i];
        let block = grid.get(cell).unwrap();
        if block.kind == BlockKind::Anchor {
            proof {
                lemma_listed_push(found@, cell);
            }
            found.push(cell);
        }
        i += 1;
    }
    proof {
        assert forall|a: Pos| is_anchor(grid@, a) implies #[trigger] listed(found@).contains(a) by {
            let k = choose|k: int| 0 <= k < cells.len() && #[trigger] cells[k]@ == a;
            assert(is_anchor(grid@, cells[k]@));
        }
    }
    found
}

/// The supported cells of `grid`: those that a search from the anchors
/// reaches.
pub fn supported_set(grid: &Grid) -> (reached: CellSet)
    ensures
        forall|p: Pos| reached@.contains(p) <==> supported(grid@, p),
{
    let mut stack = anchors(grid);
    let mut reached = CellSet::new();
    proof {
        grid.lemma_view();
        lemma_search_start(grid@, listed(stack@));
    }
    while stack.len() > 0
        invariant
            search_inv(grid@, reached@, listed(stack@)),
            reached@.finite(),
            grid@.dom().finite(),
        decreases grid@.dom().len() - reached@.len(), stack.len(),
    {
        proof {
            lemma_listed_pop(stack@);
            lemma_search_seen(grid@, reached@, listed(stack@));
            vstd::set_lib::lemma_len_subset(reached@, grid@.dom());
        }
        let pos = stack.pop().unwrap();
        let ghost rest = listed(stack@);
        let ghost seen = reached@;
        assert(grid@.dom().contains(pos@));
        if reached.insert(pos) {
            push_carried(grid, pos, &mut stack);
            proof {
                lemma_search_visit(grid@, seen, rest, pos@, listed(stack@));
                lemma_search_seen(grid@, reached@, listed(stack@));
                vstd::set_lib::lemma_len_subset(reached@, grid@.dom());
            }
        } else {
            proof {
                assert(reached@ =~= seen);
                lemma_search_skip(grid@, seen, rest, pos@);
            }
        }
    }
    proof {
        assert(listed(stack@) =~= Set::<Pos>::empty());
        lemma_search_done(grid@, reached@);
    }
    reached
}

/// The cells of `grid` that are supported, if `wanted`, or those that are
/// not, each once.
fn pick(grid: &Grid, wanted: bool) -> (picked: Vec<Coord>)
    ensures
        picked@.no_duplicates(),
        forall|p: Pos| #[trigger]
            listed(picked@).contains(p) <==> grid@.contains_key(p) && (supported(grid@, p) == wanted),
{
    let reached = supported_set(grid);
    let cells = grid.coords();
    let mut picked: Vec<Coord> = Vec::new();
    let mut i: usize = 0;
    proof {
        grid.lemma_view();
    }
    while i < cells.len()
        invariant
            0 <= i <= cells.len(),
            cells@.no_duplicates(),
            picked@.no_duplicates(),
            forall|k: int| 0 <= k < cells.len() ==> grid@.contains_key(#[trigger] cells[k]@),
            forall|p: Pos| reached@.contains(p) <==> supported(grid@, p),
            forall|j: int|
                0 <= j < picked.len() ==> exists|k: int| 0 <= k < i && cells[k] == #[trigger] picked[j],
            forall|j: int| 0 <= j < picked.len() ==> supported(grid@, #[trigger] picked[j]@) == wanted,
            forall|k: int|
                0 <= k < i && supported(grid@, #[trigger] cells[k]@) == wanted ==> listed(picked@).contains(
                    cells[k]@,
                ),
        decreases cells.len() - i,
    {
        let cell = cells[i];
        if reached.contains(cell) == wanted {
            proof {
                lemma_listed_push(picked@, cell);
                assert forall|j: int| 0 <= j < picked.len() implies picked[j] != cell by {
                    let k = choose|k: int| 0 <= k < i && cells[k] == picked[j];
                }
            }
            picked.push(cell);
        }
        i += 1;
    }
    proof {
        assert forall|p: Pos| #[trigger]
            listed(picked@).contains(p) <==> grid@.contains_key(p) && (supported(grid@, p) == wanted) by {
            if listed(picked@).contains(p) {
                let j = choose|j: int| 0 <= j < picked.len() && #[trigger] picked[j]@ == p;
                let k = choose|k: int| 0 <= k < i && cells[k] == picked[j];
            }
            if grid@.contains_key(p) && supported(grid@, p) == wanted {
                let k = choose|k: int| 0 <= k < cells.len() && #[trigger] cells[k]@ == p;
            }
        }
    }
    picked
}

/// The supported cells of `grid`, each once, in no particular order.
pub fn supported_cells(grid: &Grid) -> (cells: Vec<Coord>)
    ensures
        cells@.no_duplicates(),
        forall|p: Pos| #[trigger] listed(cells@).contains(p) <==> supported(grid@, p),
        listed(cells@) == stable_part(grid@).dom(),
{
    let cells = pick(grid, true);
    proof {
        assert forall|p: Pos| #[trigger] listed(cells@).contains(p) <==> supported(grid@, p) by {
            if supported(grid@, p) {
                lemma_supported_is_occupied(grid@, p);
            }
        }
        assert(listed(cells@) =~= stable_part(grid@).dom());
    }
    cells
}

/// The occupied cells of `grid` that nothing supports, each once, in no
/// particular order.
pub fn loose_cells(grid: &Grid) -> (cells: Vec<Coord>)
    ensures
        cells@.no_duplicates(),
        forall|p: Pos| #[trigger] listed(cells@).contains(p) <==> grid@.contains_key(p) && !supported(grid@, p),
        listed(cells@) == loose_part(grid@).dom(),
{
    let cells = pick(grid, false);
    proof {
        assert(listed(cells@) =~= loose_part(grid@).dom());
    }
    cells
}

/// Whether the block in cell `pos` is supported.
pub fn is_supported(grid: &Grid, pos: Coord) -> (held: bool)
    ensures
        held == supported(grid@, pos@),
{
    let reached = supported_set(grid);
    reached.contains(pos)
}

} // verus!
