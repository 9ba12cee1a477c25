//! One tick of a game: wear, then the search for what is still supported,
//! then the fall of everything that is not.

use crate::blocks::Block;
use crate::coords::{Coord, Pos};
use crate::damage::{
    after_damage, any_struck, at_risk, collect_hits, draws_fit, hit_cells, is_chance_list,
    lemma_hits_are_at_risk, Chance, BREAK_TIMER,
};
use crate::falling::{chunk_fate, settled, Chunk, ChunkView, Fate, Outcome};
use crate::playing::{chunk_views, AudioSignals, ModePlaying, PlayState};
use crate::random::strikes;
use crate::stability::{listed, loose_part, stable_part};
use crate::survey::{deepest, total_mass, total_moment};
use vstd::prelude::*;

verus! {

/// What a tick does to the first `count` chunks of `chunks` and to the
/// standing blocks `cells`. The chunks take their turn one after the other,
/// the newest first. A chunk that settles adds its blocks to the standing
/// ones before the next chunk is looked at, and leaves the list; so does a
/// chunk that is lost.
pub open spec fn run_chunks(cells: Map<Pos, Block>, chunks: Seq<ChunkView>, count: int, max_depth: int) -> (
    Map<Pos, Block>,
    Seq<ChunkView>,
)
    decreases count,
{
    if count <= 0 || count > chunks.len() {
        (cells, chunks)
    } else {
        let i = count - 1;
        match chunk_fate(cells, chunks[i], max_depth) {
            Fate::Falling(next) => run_chunks(cells, chunks.update(i, next), i, max_depth),
            Fate::Landed(rows) => run_chunks(
                settled(cells, chunks[i].members, rows as int),
                chunks.remove(i),
                i,
                max_depth,
            ),
            Fate::Lost => run_chunks(cells, chunks.remove(i), i, max_depth),
        }
    }
}

/// The chunks at the start of their turn: those that fell before, and last
/// the blocks that have just come loose, if there are any.
pub open spec fn with_loose(chunks: Seq<ChunkView>, loose: Map<Pos, Block>) -> Seq<ChunkView> {
    if loose.dom().len() > 0 {
        chunks.push(ChunkView { members: loose, progress: 0, ticks: 0 })
    } else {
        chunks
    }
}

/// The state of a game after one tick in which wear strikes the cells
/// `hits`. The survey is taken first. Then wear strikes and destroys. What
/// is then unsupported leaves the standing blocks as one new chunk. Last,
/// every chunk falls.
pub open spec fn after_tick(s: PlayState, hits: Set<Pos>) -> PlayState {
    let worn = after_damage(s.cells, hits);
    let chunks = with_loose(s.chunks, loose_part(worn));
    let max_depth = deepest(s.cells);
    let ran = run_chunks(stable_part(worn), chunks, chunks.len() as int, max_depth);
    PlayState {
        cells: ran.0,
        chunks: ran.1,
        conveyor: s.conveyor,
        held: s.held,
        max_depth,
        mass: total_mass(s.cells),
        moment: total_moment(s.cells),
        audio: AudioSignals {
            damage: s.audio.damage || any_struck(s.cells, hits),
            fall: loose_part(worn).dom().len() > 0,
            ..s.audio
        },
        frames: if s.frames == u64::MAX {
            0
        } else {
            s.frames + 1
        },
    }
}

/// Which cells wear may strike in the coming tick: only blocks with a bond,
/// and only in one tick out of `BREAK_TIMER`.
pub open spec fn wear_allowed(s: PlayState, hits: Set<Pos>) -> bool {
    &&& hits.subset_of(at_risk(s.cells))
    &&& s.frames % (BREAK_TIMER as int) != 0 ==> hits == Set::<Pos>::empty()
}

/// Whether every chunk of a list is in order.
spec fn all_in_order(chunks: Seq<Chunk>) -> bool {
    forall|k: int| 0 <= k < chunks.len() ==> (#[trigger] chunks[k]).wf()
}

/// A list of chunks in order stays so when a chunk leaves it.
proof fn lemma_in_order_without(chunks: Seq<Chunk>, i: int)
    requires
        all_in_order(chunks),
        0 <= i < chunks.len(),
    ensures
        all_in_order(chunks.remove(i)),
        chunks[i].wf(),
{
    let rest = chunks.remove(i);
    assert forall|k: int| 0 <= k < rest.len() implies (#[trigger] rest[k]).wf() by {
        if k < i {
            assert(rest[k] == chunks[k]);
        } else {
            assert(rest[k] == chunks[k + 1]);
        }
    }
}

/// A list of chunks in order stays so when a chunk in order joins it.
proof fn lemma_in_order_with(chunks: Seq<Chunk>, i: int, chunk: Chunk)
    requires
        all_in_order(chunks),
        0 <= i <= chunks.len(),
        chunk.wf(),
    ensures
        all_in_order(chunks.insert(i, chunk)),
{
    let more = chunks.insert(i, chunk);
    assert forall|k: int| 0 <= k < more.len() implies (#[trigger] more[k]).wf() by {
        if k < i {
            assert(more[k] == chunks[k]);
        } else if k > i {
            assert(more[k] == chunks[k - 1]);
        }
    }
}

impl ModePlaying {
    /// Lets every chunk fall for one tick, the newest first.
    pub fn run_chunks(&mut self)
        requires
            old(self).wf(),
        ensures
            final(self).wf(),
            (final(self)@.cells, final(self)@.chunks) == run_chunks(
                old(self)@.cells,
                old(self)@.chunks,
                old(self)@.chunks.len() as int,
                old(self)@.max_depth,
            ),
            final(self)@ == (PlayState { cells: final(self)@.cells, chunks: final(self)@.chunks, ..old(self)@ }),
    {
        let mut i: usize = self.falling_blocks.len();
        let ghost start = self@;
        while i > 0
            invariant
                i <= self.falling_blocks.len(),
                self.wf(),
                run_chunks(self@.cells, self@.chunks, i as int, start.max_depth) == run_chunks(
                    start.cells,
                    start.chunks,
                    start.chunks.len() as int,
                    start.max_depth,
                ),
                self@ == (PlayState { cells: self@.cells, chunks: self@.chunks, ..start }),
            decreases i,
        {
            i -= 1;
            let ghost before = self.falling_blocks@;
            let ghost views = self@.chunks;
            let mut chunk = self.falling_blocks.remove(i);
            proof {
                assert(chunk_views(self.falling_blocks@) =~= views.remove(i as int));
                lemma_in_order_without(before, i as int);
            }
            match chunk.advance(&self.stable_blocks, self.max_depth) {
                Outcome::Falling => {
                    proof {
                        lemma_in_order_with(self.falling_blocks@, i as int, chunk);
                    }
                    self.falling_blocks.insert(i, chunk);
                    proof {
                        assert(chunk_views(self.falling_blocks@) =~= views.update(i as int, chunk@));
                    }
                },
                Outcome::Landed(rows) => {
                    chunk.settle(&mut self.stable_blocks, rows);
                },
                Outcome::Lost => {},
            }
        }
    }

    /// Lets one tick pass in which wear strikes the cells `hits`.
    pub fn advance_with(&mut self, hits: &Vec<Coord>)
        requires
            old(self).wf(),
        ensures
            final(self).wf(),
            final(self)@ == after_tick(old(self)@, listed(hits@)),
    {
        let ghost start = self@;
        let survey = self.stable_blocks.survey();
        self.max_depth = survey.max_depth;
        self.mass = survey.mass;
        self.moment = survey.moment;
        let any = self.stable_blocks.apply_damage(hits);
        if any {
            self.audio.damage = true;
        }
        let ghost worn = self.stable_blocks@;
        let ghost fell_before = self@.chunks;
        match Chunk::detach(&mut self.stable_blocks) {
            Some(chunk) => {
                self.audio.fall = true;
                self.falling_blocks.push(chunk);
                proof {
                    assert(chunk_views(self.falling_blocks@) =~= fell_before.push(chunk@));
                }
            },
            None => {
                self.audio.fall = false;
            },
        }
        assert(self@.chunks == with_loose(start.chunks, loose_part(worn)));
        self.run_chunks();
        self.frames_elapsed = if self.frames_elapsed == u64::MAX {
            0
        } else {
            self.frames_elapsed + 1
        };
    }

    /// Draws, for every standing block, whether wear strikes it, and returns
    /// the cells of the blocks that it strikes. Every block has one draw, with
    /// the chance that follows from where it stands. No cell is returned
    /// twice, and a block without a bond is never struck.
    pub fn roll_damage(&self) -> (hits: Vec<Coord>)
        ensures
            exists|list: Seq<(Coord, Chance)>, draws: Seq<bool>|
                is_chance_list(self@.cells, list) && draws_fit(list, draws) && hits@ == #[trigger] hit_cells(
                    list,
                    draws,
                ),
            hits@.no_duplicates(),
            listed(hits@).subset_of(at_risk(self@.cells)),
    {
        let chances = self.stable_blocks.break_chances();
        let mut draws: Vec<bool> = Vec::new();
        let mut i: usize = 0;
        while i < chances.len()
            invariant
                0 <= i <= chances.len(),
                draws.len() == i,
                forall|k: int|
                    0 <= k < chances.len() ==> (#[trigger] chances[k]).1.numerator <= chances[k].1.denominator
                        && chances[k].1.denominator > 0,
                forall|k: int|
                    0 <= k < i ==> ((#[trigger] chances[k]).1.numerator == 0 ==> !draws[k]) && (
                    chances[k].1.numerator == chances[k].1.denominator ==> draws[k]),
            decreases chances.len() - i,
        {
            let hit = strikes(chances[i].1);
            draws.push(hit);
            i += 1;
        }
        let hits = collect_hits(&chances, &draws);
        proof {
            assert(draws_fit(chances@, draws@));
            lemma_hits_are_at_risk(self@.cells, chances@, draws@);
        }
        hits
    }

    /// Lets one tick pass. In one tick out of `BREAK_TIMER` wear strikes, at
    /// random, some of the blocks that have a bond.
    pub fn advance_tick(&mut self)
        requires
            old(self).wf(),
        ensures
            final(self).wf(),
            exists|hits: Set<Pos>|
                wear_allowed(old(self)@, hits) && final(self)@ == #[trigger] after_tick(old(self)@, hits),
    {
        let hits = if self.frames_elapsed % BREAK_TIMER == 0 {
            self.roll_damage()
        } else {
            Vec::new()
        };
        proof {
            if self.frames_elapsed % BREAK_TIMER != 0 {
                assert(listed(hits@) =~= Set::<Pos>::empty());
            }
            assert(wear_allowed(self@, listed(hits@)));
        }
        self.advance_with(&hits);
    }
}

} // verus!
