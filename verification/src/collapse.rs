//! What holds of the blocks that come loose in a tick, and of the chunk they
//! make.

use crate::blocks::{Block, BlockKind};
use crate::bonding::{bond_count, holds, side_links, would_link};
use crate::coords::{above, below, neighbor, sunk, Pos, Side};
use crate::damage::after_damage;
use crate::falling::{
    chunk_fate, fall_speed, landing, lands, member_lands, out_of_sight, rows_of, settled,
    ChunkView, Fate, BELOW_VIEW,
};
use crate::playing::PlayState;
use crate::stability::{
    bonded_step, carries, is_anchor, lemma_anchor_supported, lemma_support_passes,
    lemma_supported_is_occupied, loose_part, stable_part, supported,
};
use crate::survey::{deepest, lemma_deepest_exists};
use crate::tick::{after_tick, run_chunks};
use vstd::prelude::*;

verus! {

/// The supported and the unsupported blocks of a grid are all its blocks,
/// and no block is both.
pub proof fn lemma_parts(cells: Map<Pos, Block>)
    ensures
        stable_part(cells).dom().disjoint(loose_part(cells).dom()),
        stable_part(cells).union_prefer_right(loose_part(cells)) == cells,
        forall|p: Pos| stable_part(cells).contains_key(p) <==> supported(cells, p),
{
    assert forall|p: Pos| stable_part(cells).contains_key(p) <==> supported(cells, p) by {
        if supported(cells, p) {
            lemma_supported_is_occupied(cells, p);
        }
    }
    assert(stable_part(cells).union_prefer_right(loose_part(cells)) =~= cells);
}

/// No anchor ever comes loose.
pub proof fn lemma_anchors_stay(cells: Map<Pos, Block>, p: Pos)
    requires
        is_anchor(cells, p),
    ensures
        stable_part(cells).contains_key(p),
        !loose_part(cells).contains_key(p),
{
    lemma_anchor_supported(cells, p);
}

/// A block that would hold where it stands, against the supported blocks
/// alone, is supported itself.
pub proof fn lemma_holding_is_supported(cells: Map<Pos, Block>, p: Pos)
    requires
        cells.contains_key(p),
        holds(stable_part(cells), p, cells[p]),
    ensures
        supported(cells, p),
{
    let stable = stable_part(cells);
    let block = cells[p];
    if block.kind == BlockKind::Anchor {
        lemma_anchor_supported(cells, p);
    } else if stable.contains_key(below(p)) {
        assert(above(below(p)) == p);
        assert(carries(cells, below(p), p));
        lemma_support_passes(cells, below(p), p);
    } else {
        assert(bond_count(stable, p, block) > 0);
        let side = if side_links(stable, p, block, Side::North) {
            Side::North
        } else if side_links(stable, p, block, Side::East) {
            Side::East
        } else if side_links(stable, p, block, Side::South) {
            Side::South
        } else {
            Side::West
        };
        assert(side_links(stable, p, block, side));
        let q = neighbor(p, side);
        let connector = block.spec_connector(side)->Some_0;
        assert(would_link(stable, p, connector, side));
        assert(stable.contains_key(q) && stable[q] == cells[q]);
        assert(neighbor(q, side.spec_flip()) == p);
        if side == Side::South {
            assert(p == above(q));
        } else {
            assert(bonded_step(cells, q, p, side.spec_flip()));
        }
        assert(carries(cells, q, p));
        lemma_support_passes(cells, q, p);
    }
}

/// The blocks that have just come loose do not hold where they are: none of
/// them would, against the blocks that stayed.
pub proof fn lemma_loose_does_not_land(cells: Map<Pos, Block>)
    ensures
        !lands(stable_part(cells), loose_part(cells), 0),
{
    if lands(stable_part(cells), loose_part(cells), 0) {
        let p = choose|p: Pos| #[trigger] member_lands(stable_part(cells), loose_part(cells), p, 0);
        assert(sunk(p, 0) == p);
        lemma_holding_is_supported(cells, p);
    }
}

/// A chunk of blocks that have just come loose keeps falling through its
/// first tick, and does not move in it, as long as one of its blocks is in
/// sight.
pub proof fn lemma_fresh_chunk_falls(cells: Map<Pos, Block>, max_depth: int)
    requires
        exists|p: Pos| #[trigger] loose_part(cells).contains_key(p) && p.1 <= max_depth + BELOW_VIEW,
    ensures
        chunk_fate(stable_part(cells), (ChunkView { members: loose_part(cells), progress: 0, ticks: 0 }), max_depth)
            == Fate::Falling(ChunkView { members: loose_part(cells), progress: 0, ticks: 1 }),
{
    lemma_loose_does_not_land(cells);
    assert(fall_speed(0) == 0);
    assert(rows_of(0) == 0);
    assert(landing(stable_part(cells), loose_part(cells), 0, 0) is None) by {
        assert(landing(stable_part(cells), loose_part(cells), 1, 0) is None);
    }
    let p = choose|p: Pos| #[trigger] loose_part(cells).contains_key(p) && p.1 <= max_depth + BELOW_VIEW;
    assert(!out_of_sight(loose_part(cells), 0, max_depth + BELOW_VIEW));
}

/// A chunk that holds nowhere on its way and has fallen out of sight is
/// dropped from the list of chunks, and the standing blocks stay as they
/// are.
pub proof fn lemma_lost_chunk_is_dropped(
    cells: Map<Pos, Block>,
    chunks: Seq<ChunkView>,
    count: int,
    max_depth: int,
)
    requires
        0 < count <= chunks.len(),
        chunk_fate(cells, chunks[count - 1], max_depth) == Fate::Lost,
    ensures
        run_chunks(cells, chunks, count, max_depth) == run_chunks(
            cells,
            chunks.remove(count - 1),
            count - 1,
            max_depth,
        ),
        run_chunks(cells, seq![chunks[count - 1]], 1, max_depth) == (cells, Seq::<ChunkView>::empty()),
{
    let alone = seq![chunks[count - 1]];
    assert(alone[0] == chunks[count - 1]);
    assert(alone.remove(0) =~= Seq::<ChunkView>::empty());
    assert(run_chunks(cells, alone.remove(0), 0, max_depth) == (cells, alone.remove(0)));
}

/// A chunk is lost exactly when it holds nowhere on its way and all of it is
/// out of sight after the fall.
pub proof fn lemma_lost_iff(cells: Map<Pos, Block>, chunk: ChunkView, max_depth: int)
    ensures
        chunk_fate(cells, chunk, max_depth) == Fate::Lost <==> {
            let progress = chunk.progress + fall_speed(chunk.ticks);
            &&& landing(cells, chunk.members, rows_of(chunk.progress) as int, rows_of(progress) as int) is None
            &&& out_of_sight(chunk.members, rows_of(progress) as int, max_depth + BELOW_VIEW)
        },
{
}

/// The turn of the first `count` chunks leaves the later ones as they are,
/// at the end of the list.
pub proof fn lemma_run_keeps_tail(cells: Map<Pos, Block>, chunks: Seq<ChunkView>, count: int, max_depth: int)
    requires
        0 <= count <= chunks.len(),
    ensures
        ({
            let ran = run_chunks(cells, chunks, count, max_depth).1;
            &&& ran.len() >= chunks.len() - count
            &&& forall|j: int|
                count <= j < chunks.len() ==> #[trigger] ran[ran.len() - (chunks.len() - j)] == chunks[j]
        }),
    decreases count,
{
    if count > 0 {
        let i = count - 1;
        let ran = run_chunks(cells, chunks, count, max_depth).1;
        match chunk_fate(cells, chunks[i], max_depth) {
            Fate::Falling(next) => {
                let then = chunks.update(i, next);
                lemma_run_keeps_tail(cells, then, i, max_depth);
                assert forall|j: int| count <= j < chunks.len() implies #[trigger] ran[ran.len() - (chunks.len()
                    - j)] == chunks[j] by {
                    assert(ran[ran.len() - (then.len() - j)] == then[j]);
                }
            },
            Fate::Landed(rows) => {
                let then = chunks.remove(i);
                lemma_run_keeps_tail(settled(cells, chunks[i].members, rows as int), then, i, max_depth);
                assert forall|j: int| count <= j < chunks.len() implies #[trigger] ran[ran.len() - (chunks.len()
                    - j)] == chunks[j] by {
                    assert(ran[ran.len() - (then.len() - (j - 1))] == then[j - 1]);
                }
            },
            Fate::Lost => {
                let then = chunks.remove(i);
                lemma_run_keeps_tail(cells, then, i, max_depth);
                assert forall|j: int| count <= j < chunks.len() implies #[trigger] ran[ran.len() - (chunks.len()
                    - j)] == chunks[j] by {
                    assert(ran[ran.len() - (then.len() - (j - 1))] == then[j - 1]);
                }
            },
        }
    }
}

/// The blocks that nothing supports after the wear of a tick leave the
/// standing blocks in that tick, all of them and no others, as one new
/// chunk at the end of the list of chunks. It has not moved yet. Where
/// every block is supported, no chunk is made.
pub proof fn lemma_tick_detaches_loose(s: PlayState, hits: Set<Pos>)
    requires
        s.cells.dom().finite(),
    ensures
        ({
            let loose = loose_part(after_damage(s.cells, hits));
            let after = after_tick(s, hits);
            &&& after.audio.fall == exists|p: Pos| loose.contains_key(p)
            &&& (exists|p: Pos| loose.contains_key(p)) ==> after.chunks.len() > 0 && after.chunks.last() == (
            ChunkView { members: loose, progress: 0, ticks: 1 })
            &&& !(exists|p: Pos| loose.contains_key(p)) ==> after.chunks == run_chunks(
                stable_part(after_damage(s.cells, hits)),
                s.chunks,
                s.chunks.len() as int,
                deepest(s.cells),
            ).1
        }),
{
    let worn = after_damage(s.cells, hits);
    let loose = loose_part(worn);
    let stable = stable_part(worn);
    let max_depth = deepest(s.cells);
    lemma_deepest_exists(s.cells);
    assert(loose.dom().subset_of(s.cells.dom()));
    vstd::set_lib::lemma_len_subset(loose.dom(), s.cells.dom());
    if exists|p: Pos| loose.contains_key(p) {
        let p = choose|p: Pos| loose.contains_key(p);
        assert(loose.dom().contains(p));
        assert(loose.dom().len() > 0) by {
            if loose.dom().len() == 0 {
                assert(loose.dom() =~= Set::<Pos>::empty());
            }
        }
        assert(s.cells.contains_key(p));
        assert(loose_part(worn).contains_key(p) && p.1 <= max_depth + BELOW_VIEW);
        lemma_fresh_chunk_falls(worn, max_depth);
        let fresh = ChunkView { members: loose, progress: 0, ticks: 0 };
        let chunks = s.chunks.push(fresh);
        let next = ChunkView { members: loose, progress: 0, ticks: 1 };
        let then = chunks.update(chunks.len() - 1, next);
        assert(chunks[chunks.len() - 1] == fresh);
        lemma_run_keeps_tail(stable, then, chunks.len() - 1, max_depth);
        let ran = run_chunks(stable, then, chunks.len() - 1, max_depth).1;
        assert(ran[ran.len() - (then.len() - (chunks.len() - 1))] == then[chunks.len() - 1]);
    } else {
        assert(loose.dom() =~= Set::<Pos>::empty());
    }
}

} // verus!
