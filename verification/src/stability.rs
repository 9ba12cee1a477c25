//! Which blocks of a grid are supported.
//!
//! Support spreads from the anchors: to the block directly above a supported
//! block, which rests on it, and to the block below or beside a supported
//! block where the two facing connectors bond.

use crate::blocks::{Block, BlockKind};
use crate::bonding::side_links;
use crate::coords::{above, neighbor, Coord, Pos, Side};
use vstd::prelude::*;

verus! {

/// Whether the block in `q` is next to the block in `p` on `side` and the
/// connector of `p` on that side links with it.
pub open spec fn bonded_step(cells: Map<Pos, Block>, p: Pos, q: Pos, side: Side) -> bool {
    &&& q == neighbor(p, side)
    &&& side_links(cells, p, cells[p], side)
}

/// Whether the block in `p` passes its support on to the block in `q`: `q`
/// rests directly on `p`, or `q` hangs below or beside `p` by a bond.
pub open spec fn carries(cells: Map<Pos, Block>, p: Pos, q: Pos) -> bool {
    &&& cells.contains_key(p)
    &&& cells.contains_key(q)
    &&& (q == above(p) || bonded_step(cells, p, q, Side::South) || bonded_step(
        cells,
        p,
        q,
        Side::East,
    ) || bonded_step(cells, p, q, Side::West))
}

/// Whether `p` holds an anchor.
pub open spec fn is_anchor(cells: Map<Pos, Block>, p: Pos) -> bool {
    cells.contains_key(p) && cells[p].kind == BlockKind::Anchor
}

/// Whether `path` starts at an anchor and each of its cells carries the next.
pub open spec fn is_support_path(cells: Map<Pos, Block>, path: Seq<Pos>) -> bool {
    &&& path.len() > 0
    &&& is_anchor(cells, path[0])
    &&& forall|i: int| 0 <= i < path.len() - 1 ==> carries(cells, #[trigger] path[i], path[i + 1])
}

/// Whether the block in `p` is supported: some path leads to it from an
/// anchor.
pub open spec fn supported(cells: Map<Pos, Block>, p: Pos) -> bool {
    exists|path: Seq<Pos>| is_support_path(cells, path) && #[trigger] path.last() == p
}

/// The supported part of `cells`.
pub open spec fn stable_part(cells: Map<Pos, Block>) -> Map<Pos, Block> {
    Map::new(|p: Pos| cells.contains_key(p) && supported(cells, p), |p: Pos| cells[p])
}

/// The part of `cells` that nothing supports.
pub open spec fn loose_part(cells: Map<Pos, Block>) -> Map<Pos, Block> {
    Map::new(|p: Pos| cells.contains_key(p) && !supported(cells, p), |p: Pos| cells[p])
}

/// Only cells that hold a block are supported.
pub proof fn lemma_supported_is_occupied(cells: Map<Pos, Block>, p: Pos)
    requires
        supported(cells, p),
    ensures
        cells.contains_key(p),
{
    let path = choose|path: Seq<Pos>| is_support_path(cells, path) && #[trigger] path.last() == p;
    if path.len() > 1 {
        assert(carries(cells, path[path.len() - 2], path[path.len() - 2 + 1]));
    }
}

/// An anchor is always supported, whatever is around it.
pub proof fn lemma_anchor_supported(cells: Map<Pos, Block>, p: Pos)
    requires
        is_anchor(cells, p),
    ensures
        supported(cells, p),
{
    let path = seq![p];
    assert(is_support_path(cells, path));
    assert(path.last() == p);
}

/// Support passes along: what a supported block carries is supported.
pub proof fn lemma_support_passes(cells: Map<Pos, Block>, p: Pos, q: Pos)
    requires
        supported(cells, p),
        carries(cells, p, q),
    ensures
        supported(cells, q),
{
    let path = choose|path: Seq<Pos>| is_support_path(cells, path) && #[trigger] path.last() == p;
    let longer = path.push(q);
    assert forall|i: int| 0 <= i < longer.len() - 1 implies carries(cells, #[trigger] longer[i], longer[i + 1]) by {
        if i < path.len() - 1 {
            assert(carries(cells, path[i], path[i + 1]));
        }
    }
    assert(is_support_path(cells, longer));
    assert(longer.last() == q);
}

/// A block that bonds with an anchor next to it is supported, on whichever
/// side of the anchor it stands.
pub proof fn lemma_bonded_to_anchor_supported(cells: Map<Pos, Block>, anchor: Pos, side: Side, q: Pos)
    requires
        is_anchor(cells, anchor),
        cells.contains_key(q),
        bonded_step(cells, anchor, q, side),
    ensures
        supported(cells, q),
{
    lemma_anchor_supported(cells, anchor);
    assert(carries(cells, anchor, q));
    lemma_support_passes(cells, anchor, q);
}

/// A block directly above a supported block is supported, whatever its
/// connectors are.
pub proof fn lemma_resting_supported(cells: Map<Pos, Block>, p: Pos)
    requires
        supported(cells, p),
        cells.contains_key(above(p)),
    ensures
        supported(cells, above(p)),
{
    lemma_supported_is_occupied(cells, p);
    lemma_support_passes(cells, p, above(p));
}

/// Without an anchor nothing is supported.
pub proof fn lemma_no_anchor_no_support(cells: Map<Pos, Block>, p: Pos)
    requires
        forall|a: Pos| !is_anchor(cells, a),
    ensures
        !supported(cells, p),
{
}

/// Every cell on a path of support is supported.
pub proof fn lemma_path_is_supported(cells: Map<Pos, Block>, path: Seq<Pos>, i: int)
    requires
        is_support_path(cells, path),
        0 <= i < path.len(),
    ensures
        supported(cells, path[i]),
{
    let front = path.take(i + 1);
    assert forall|k: int| 0 <= k < front.len() - 1 implies carries(cells, #[trigger] front[k], front[k + 1]) by {
        assert(carries(cells, path[k], path[k + 1]));
    }
    assert(is_support_path(cells, front));
    assert(front.last() == path[i]);
}

/// More blocks never mean less support: what is supported stays supported
/// when blocks are added to free cells.
pub proof fn lemma_support_grows(less: Map<Pos, Block>, more: Map<Pos, Block>, p: Pos)
    requires
        less.submap_of(more),
        supported(less, p),
    ensures
        supported(more, p),
{
    let path = choose|path: Seq<Pos>| is_support_path(less, path) && #[trigger] path.last() == p;
    assert forall|q: Pos| less.contains_key(q) implies more.contains_key(q) && #[trigger] less[q] == more[q] by {
        assert(less.dom().contains(q) ==> more.dom().contains(q));
    }
    assert forall|i: int| 0 <= i < path.len() - 1 implies carries(more, #[trigger] path[i], path[i + 1]) by {
        assert(carries(less, path[i], path[i + 1]));
        assert(less[path[i]] == more[path[i]] && less[path[i + 1]] == more[path[i + 1]]);
    }
    assert(less[path[0]] == more[path[0]]);
    assert(is_support_path(more, path));
}

/// The supported blocks of a grid support each other: with the unsupported
/// blocks gone, every block that is left is still supported.
pub proof fn lemma_stable_part_is_stable(cells: Map<Pos, Block>)
    ensures
        forall|p: Pos| stable_part(cells).contains_key(p) ==> supported(stable_part(cells), p),
        stable_part(stable_part(cells)) == stable_part(cells),
        loose_part(stable_part(cells)) == Map::<Pos, Block>::empty(),
{
    let stable = stable_part(cells);
    assert forall|p: Pos| stable.contains_key(p) implies supported(stable, p) by {
        let path = choose|path: Seq<Pos>| is_support_path(cells, path) && #[trigger] path.last() == p;
        assert forall|i: int| 0 <= i < path.len() implies stable.contains_key(#[trigger] path[i]) by {
            lemma_path_is_supported(cells, path, i);
            lemma_supported_is_occupied(cells, path[i]);
        }
        assert forall|i: int| 0 <= i < path.len() - 1 implies carries(stable, #[trigger] path[i], path[i + 1]) by {
            assert(carries(cells, path[i], path[i + 1]));
            assert(stable.contains_key(path[i]));
            assert(stable.contains_key(path[i + 1]));
        }
        assert(stable.contains_key(path[0]));
        assert(is_support_path(stable, path));
    }
    assert(stable_part(stable) =~= stable);
    assert(loose_part(stable) =~= Map::<Pos, Block>::empty());
}

/// A set that holds every anchor and everything its members carry holds
/// every supported cell.
proof fn lemma_closed_holds_path(cells: Map<Pos, Block>, closed: Set<Pos>, path: Seq<Pos>, i: int)
    requires
        forall|a: Pos| is_anchor(cells, a) ==> closed.contains(a),
        forall|p: Pos, q: Pos| closed.contains(p) && #[trigger] carries(cells, p, q) ==> closed.contains(q),
        is_support_path(cells, path),
        0 <= i < path.len(),
    ensures
        closed.contains(path[i]),
    decreases i,
{
    if i > 0 {
        lemma_closed_holds_path(cells, closed, path, i - 1);
        assert(carries(cells, path[i - 1], path[i - 1 + 1]));
    }
}

/// A set that holds every anchor and everything its members carry holds
/// every supported cell.
pub proof fn lemma_closed_holds_supported(cells: Map<Pos, Block>, closed: Set<Pos>)
    requires
        forall|a: Pos| is_anchor(cells, a) ==> closed.contains(a),
        forall|p: Pos, q: Pos| closed.contains(p) && #[trigger] carries(cells, p, q) ==> closed.contains(q),
    ensures
        forall|p: Pos| supported(cells, p) ==> closed.contains(p),
{
    assert forall|p: Pos| supported(cells, p) implies closed.contains(p) by {
        let path = choose|path: Seq<Pos>| is_support_path(cells, path) && #[trigger] path.last() == p;
        lemma_closed_holds_path(cells, closed, path, path.len() - 1);
    }
}

/// Whether a supported block stays supported when the block in `gone` is
/// taken away: exactly when some path to it from an anchor avoids `gone`.
pub proof fn lemma_support_without(cells: Map<Pos, Block>, gone: Pos, p: Pos)
    ensures
        supported(cells.remove(gone), p) <==> exists|path: Seq<Pos>|
            is_support_path(cells, path) && #[trigger] path.last() == p && !path.contains(gone),
{
    let rest = cells.remove(gone);
    if supported(rest, p) {
        let path = choose|path: Seq<Pos>| is_support_path(rest, path) && #[trigger] path.last() == p;
        assert forall|i: int| 0 <= i < path.len() - 1 implies carries(cells, #[trigger] path[i], path[i + 1]) by {
            assert(carries(rest, path[i], path[i + 1]));
        }
        assert(is_support_path(cells, path));
        assert(!path.contains(gone)) by {
            if path.contains(gone) {
                let i = choose|i: int| 0 <= i < path.len() && path[i] == gone;
                if i == 0 {
                    assert(is_anchor(rest, path[0]));
                } else {
                    assert(carries(rest, path[i - 1], path[i - 1 + 1]));
                }
            }
        }
    }
    if exists|path: Seq<Pos>| is_support_path(cells, path) && #[trigger] path.last() == p && !path.contains(gone) {
        let path = choose|path: Seq<Pos>|
            is_support_path(cells, path) && #[trigger] path.last() == p && !path.contains(gone);
        assert forall|i: int| 0 <= i < path.len() implies rest.contains_key(#[trigger] path[i]) && rest[path[i]]
            == cells[path[i]] by {
            assert(path.contains(path[i]));
            if i == 0 {
            } else {
                assert(carries(cells, path[i - 1], path[i - 1 + 1]));
            }
        }
        assert forall|i: int| 0 <= i < path.len() - 1 implies carries(rest, #[trigger] path[i], path[i + 1]) by {
            assert(carries(cells, path[i], path[i + 1]));
            assert(rest.contains_key(path[i]));
            assert(rest.contains_key(path[i + 1]));
        }
        assert(is_support_path(rest, path));
    }
}

/// The cells that a list of coordinates names.
pub open spec fn listed(list: Seq<Coord>) -> Set<Pos> {
    Set::new(|p: Pos| exists|i: int| 0 <= i < list.len() && #[trigger] list[i]@ == p)
}

/// A list with one more coordinate names one more cell.
pub proof fn lemma_listed_push(list: Seq<Coord>, c: Coord)
    ensures
        listed(list.push(c)) == listed(list).insert(c@),
{
    let longer = list.push(c);
    assert forall|p: Pos| listed(longer).contains(p) <==> listed(list).insert(c@).contains(p) by {
        if listed(longer).contains(p) {
            let i = choose|i: int| 0 <= i < longer.len() && #[trigger] longer[i]@ == p;
            if i < list.len() {
                assert(list[i]@ == p);
            }
        }
        if listed(list).contains(p) {
            let i = choose|i: int| 0 <= i < list.len() && #[trigger] list[i]@ == p;
            assert(longer[i]@ == p);
        }
        if p == c@ {
            assert(longer[list.len() as int]@ == p);
        }
    }
    assert(listed(longer) =~= listed(list).insert(c@));
}

/// A list names the cells of its front part and the cell of its last
/// coordinate.
pub proof fn lemma_listed_pop(list: Seq<Coord>)
    requires
        list.len() > 0,
    ensures
        listed(list) == listed(list.drop_last()).insert(list.last()@),
{
    let shorter = list.drop_last();
    assert(shorter.push(list.last()) =~= list);
    lemma_listed_push(shorter, list.last());
}

} // verus!
