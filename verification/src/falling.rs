//! Chunks of blocks in free fall.
//!
//! The blocks that come loose in one tick fall together as one rigid chunk.
//! A chunk keeps the cells its blocks came from and how far it has fallen
//! since; it ends when it settles on the grid again or drops out of sight.

use crate::blocks::Block;
use crate::bonding::holds;
use crate::coords::{in_range, sunk, Coord, Pos};
use crate::flood::loose_cells;
use crate::grid::Grid;
use crate::stability::{lemma_listed_push, listed, loose_part, stable_part, supported};
use vstd::prelude::*;

verus! {

/// The speed a chunk gains with every tick, in sixtieths of a row per tick.
pub const FALL_ACCELERATION: u64 = 1;

/// The highest speed of a chunk, in sixtieths of a row per tick: half a row.
pub const FALL_TERMINAL: u64 = 30;

/// How many units of fall make one row.
pub const FALL_UNITS: u64 = 60;

/// How many rows below the deepest known block a chunk may fall before it
/// counts as gone.
pub const BELOW_VIEW: i32 = 14;

/// The greatest fall a chunk that is still in play can have behind it.
pub const FALL_LIMIT: u64 = 257698038600;

/// A block of a falling chunk, with the cell it came from.
#[derive(Clone, Copy, Debug)]
pub struct FallingBlock {
    pub block: Block,
    pub origin: Coord,
}

/// The blocks of a list of falling blocks, by the cell each came from.
pub open spec fn members_of(list: Seq<FallingBlock>) -> Map<Pos, Block>
    decreases list.len(),
{
    if list.len() == 0 {
        Map::empty()
    } else {
        members_of(list.drop_last()).insert(list.last().origin@, list.last().block)
    }
}

/// Whether no two blocks of `list` came from the same cell.
pub open spec fn origins_distinct(list: Seq<FallingBlock>) -> bool {
    forall|i: int, j: int|
        0 <= i < list.len() && 0 <= j < list.len() && i != j ==> (#[trigger] list[i]).origin@ != (
        #[trigger] list[j]).origin@
}

/// In a list with distinct origins, the map holds exactly the listed blocks.
pub proof fn lemma_members_of(list: Seq<FallingBlock>)
    requires
        origins_distinct(list),
    ensures
        forall|i: int| 0 <= i < list.len() ==> members_of(list).contains_key((#[trigger] list[i]).origin@),
        forall|i: int| 0 <= i < list.len() ==> members_of(list)[(#[trigger] list[i]).origin@] == list[i].block,
        forall|p: Pos| #[trigger]
            members_of(list).contains_key(p) ==> exists|i: int| 0 <= i < list.len() && (#[trigger] list[i]).origin@ == p,
        members_of(list).dom().finite(),
    decreases list.len(),
{
    if list.len() > 0 {
        let front = list.drop_last();
        assert forall|i: int, j: int| 0 <= i < front.len() && 0 <= j < front.len() && i != j implies (
        #[trigger] front[i]).origin@ != (#[trigger] front[j]).origin@ by {
            assert(front[i] == list[i] && front[j] == list[j]);
        }
        lemma_members_of(front);
        assert forall|i: int| 0 <= i < list.len() implies members_of(list).contains_key(
            (#[trigger] list[i]).origin@,
        ) && members_of(list)[list[i].origin@] == list[i].block by {
            if i < front.len() {
                assert(front[i] == list[i]);
                assert(list[i].origin@ != list[list.len() - 1].origin@);
            }
        }
        assert forall|p: Pos| #[trigger] members_of(list).contains_key(p) implies exists|i: int|
            0 <= i < list.len() && (#[trigger] list[i]).origin@ == p by {
            if p == list.last().origin@ {
                assert(list[list.len() - 1].origin@ == p);
            } else {
                let i = choose|i: int| 0 <= i < front.len() && (#[trigger] front[i]).origin@ == p;
                assert(list[i].origin@ == p);
            }
        }
    }
}

/// A chunk as the simulation sees it: its blocks by the cell each came from,
/// how far it has fallen in sixtieths of a row, and for how many ticks.
pub struct ChunkView {
    pub members: Map<Pos, Block>,
    pub progress: nat,
    pub ticks: nat,
}

/// How a chunk ends its tick.
pub enum Fate {
    /// It keeps falling, in the given state.
    Falling(ChunkView),
    /// It settles on the grid, the given number of rows below where it came
    /// loose.
    Landed(nat),
    /// It has fallen out of sight and is gone.
    Lost,
}

/// The speed of a chunk that has fallen for `ticks` ticks.
pub open spec fn fall_speed(ticks: nat) -> nat {
    if FALL_ACCELERATION * ticks < FALL_TERMINAL {
        (FALL_ACCELERATION * ticks) as nat
    } else {
        FALL_TERMINAL as nat
    }
}

/// The number of whole rows in a fall of `progress`.
pub open spec fn rows_of(progress: nat) -> nat {
    progress / (FALL_UNITS as nat)
}

/// Whether the block from cell `p` would hold where it is once the chunk is
/// `rows` rows down.
pub open spec fn member_lands(cells: Map<Pos, Block>, members: Map<Pos, Block>, p: Pos, rows: int) -> bool {
    &&& members.contains_key(p)
    &&& in_range(sunk(p, rows))
    &&& holds(cells, sunk(p, rows), members[p])
}

/// Whether a chunk that is `rows` rows down would hold as a whole: one of its
/// blocks would.
pub open spec fn lands(cells: Map<Pos, Block>, members: Map<Pos, Block>, rows: int) -> bool {
    exists|p: Pos| #[trigger] member_lands(cells, members, p, rows)
}

/// The first of the rows `lo` to `hi` in which the chunk would hold, if there
/// is one.
pub open spec fn landing(cells: Map<Pos, Block>, members: Map<Pos, Block>, lo: int, hi: int) -> Option<int>
    decreases hi - lo + 1,
{
    if lo > hi {
        None
    } else if lands(cells, members, lo) {
        Some(lo)
    } else {
        landing(cells, members, lo + 1, hi)
    }
}

/// Whether every block of a chunk that is `rows` rows down lies deeper than
/// `floor`.
pub open spec fn out_of_sight(members: Map<Pos, Block>, rows: int, floor: int) -> bool {
    forall|p: Pos| #[trigger] members.contains_key(p) ==> p.1 + rows > floor
}

/// The grid after a chunk has settled `rows` rows down. A block whose cell is
/// taken, or lies outside the range of coordinates, is dropped.
pub open spec fn settled(cells: Map<Pos, Block>, members: Map<Pos, Block>, rows: int) -> Map<Pos, Block> {
    Map::new(
        |q: Pos| cells.contains_key(q) || (in_range(q) && members.contains_key(sunk(q, -rows))),
        |q: Pos|
            if cells.contains_key(q) {
                cells[q]
            } else {
                members[sunk(q, -rows)]
            },
    )
}

/// What one tick does to a chunk. It falls by its speed. It settles in the
/// first row, from the one it was in to the one it reaches, in which it would
/// hold. Failing that it is lost once all of it lies more than `BELOW_VIEW`
/// rows below `max_depth`, and keeps falling otherwise.
pub open spec fn chunk_fate(cells: Map<Pos, Block>, chunk: ChunkView, max_depth: int) -> Fate {
    let progress = chunk.progress + fall_speed(chunk.ticks);
    match landing(cells, chunk.members, rows_of(chunk.progress) as int, rows_of(progress) as int) {
        Some(rows) => Fate::Landed(rows as nat),
        None => {
            if out_of_sight(chunk.members, rows_of(progress) as int, max_depth + BELOW_VIEW) {
                Fate::Lost
            } else {
                Fate::Falling(ChunkView { members: chunk.members, progress, ticks: chunk.ticks + 1 })
            }
        },
    }
}

/// How a chunk ended its tick.
#[derive(Clone, Copy, Debug, PartialEq, Eq, Structural)]
pub enum Outcome {
    /// It keeps falling.
    Falling,
    /// It would hold this many rows below where it came loose.
    Landed(u64),
    /// It has fallen out of sight.
    Lost,
}

/// A group of blocks that fall together.
#[derive(Debug)]
pub struct Chunk {
    members: Vec<FallingBlock>,
    fall_progress: u64,
    ticks_falling: u64,
}

impl View for Chunk {
    type V = ChunkView;

    closed spec fn view(&self) -> ChunkView {
        ChunkView {
            members: members_of(self.members@),
            progress: self.fall_progress as nat,
            ticks: self.ticks_falling as nat,
        }
    }
}

impl Chunk {
    /// What holds of every chunk in play: it has blocks, no two of them from
    /// the same cell, and its fall is within the limit.
    pub closed spec fn wf(&self) -> bool {
        &&& self.members@.len() > 0
        &&& origins_distinct(self.members@)
        &&& self.fall_progress <= FALL_LIMIT
        &&& (self.ticks_falling <= FALL_TERMINAL || self.fall_progress >= FALL_TERMINAL * (self.ticks_falling
            - FALL_TERMINAL))
    }

    /// The blocks of the chunk, in the order in which they are kept.
    pub closed spec fn spec_members(&self) -> Seq<FallingBlock> {
        self.members@
    }

    /// The view of a chunk lists the blocks that it keeps.
    pub proof fn lemma_view(&self)
        ensures
            self@.members == members_of(self.spec_members()),
            self.wf() ==> origins_distinct(self.spec_members()) && self.spec_members().len() > 0,
            self.wf() ==> self@.members.dom().finite() && self@.members.dom().len() > 0,
    {
        if self.wf() {
            lemma_members_of(self.members@);
            assert(self@.members.contains_key(self.members@[0].origin@));
            if self@.members.dom().len() == 0 {
                assert(self@.members.dom() =~= Set::<Pos>::empty());
            }
        }
    }

    /// The blocks of the chunk with the cells they came from.
    pub fn members(&self) -> (list: &Vec<FallingBlock>)
        ensures
            list@ == self.spec_members(),
    {
        &self.members
    }

    /// How far the chunk has fallen, in sixtieths of a row.
    pub fn fall_progress(&self) -> (progress: u64)
        ensures
            progress == self@.progress,
    {
        self.fall_progress
    }

    /// For how many ticks the chunk has been falling.
    pub fn ticks_falling(&self) -> (ticks: u64)
        ensures
            ticks == self@.ticks,
    {
        self.ticks_falling
    }

    /// How many whole rows the chunk has fallen.
    pub fn rows_fallen(&self) -> (rows: u64)
        ensures
            rows == rows_of(self@.progress),
    {
        self.fall_progress / FALL_UNITS
    }

    /// Takes the unsupported blocks out of `grid`. If there are any, they
    /// make up a new chunk that has not fallen yet.
    pub fn detach(grid: &mut Grid) -> (fresh: Option<Chunk>)
        ensures
            final(grid)@ == stable_part(old(grid)@),
            fresh is Some <==> loose_part(old(grid)@).dom().len() > 0,
            fresh matches Some(chunk) ==> chunk.wf() && chunk@ == (ChunkView {
                members: loose_part(old(grid)@),
                progress: 0,
                ticks: 0,
            }),
    {
        let cells = loose_cells(grid);
        let mut members: Vec<FallingBlock> = Vec::new();
        let mut i: usize = 0;
        let ghost before = grid@;
        proof {
            grid.lemma_view();
        }
        while i < cells.len()
            invariant
                0 <= i <= cells.len(),
                cells@.no_duplicates(),
                forall|p: Pos| #[trigger]
                    listed(cells@).contains(p) <==> before.contains_key(p) && !supported(before, p),
                members.len() == i,
                forall|j: int|
                    0 <= j < i ==> (#[trigger] members[j]).origin == cells[j] && members[j].block
                        == before[cells[j]@],
                forall|p: Pos| #[trigger]
                    grid@.contains_key(p) <==> before.contains_key(p) && !listed(cells@.take(i as int)).contains(p),
                forall|p: Pos| grid@.contains_key(p) ==> grid@[p] == before[p],
            decreases cells.len() - i,
        {
            let cell = cells[i];
            proof {
                assert(listed(cells@).contains(cell@));
                assert(cells@.take(i as int + 1) =~= cells@.take(i as int).push(cell));
                lemma_listed_push(cells@.take(i as int), cell);
                assert(!listed(cells@.take(i as int)).contains(cell@)) by {
                    if listed(cells@.take(i as int)).contains(cell@) {
                        let j = choose|j: int| 0 <= j < i && #[trigger] cells@.take(i as int)[j]@ == cell@;
                        assert(cells@[j] == cells@[i as int]);
                    }
                }
            }
            let block = grid.remove(cell).unwrap();
            members.push(FallingBlock { block, origin: cell });
            i += 1;
        }
        proof {
            assert(cells@.take(i as int) =~= cells@);
            assert(grid@ =~= stable_part(before));
            assert(listed(cells@) =~= loose_part(before).dom());
            assert forall|a: int, b: int| 0 <= a < members.len() && 0 <= b < members.len() && a != b implies (
            #[trigger] members@[a]).origin@ != (#[trigger] members@[b]).origin@ by {
                assert(cells@[a] != cells@[b]);
            }
            lemma_members_of(members@);
            assert(members_of(members@) =~= loose_part(before)) by {
                assert forall|p: Pos| loose_part(before).contains_key(p) implies members_of(members@).contains_key(
                    p,
                ) by {
                    let j = choose|j: int| 0 <= j < cells.len() && #[trigger] cells[j]@ == p;
                    assert(members@[j].origin@ == p);
                }
                assert forall|p: Pos| members_of(members@).contains_key(p) implies loose_part(before).contains_key(
                    p,
                ) && members_of(members@)[p] == loose_part(before)[p] by {
                    let j = choose|j: int| 0 <= j < members.len() && (#[trigger] members@[j]).origin@ == p;
                    assert(listed(cells@).contains(cells[j]@));
                }
            }
            if members.len() == 0 {
                assert(loose_part(before).dom() =~= Set::<Pos>::empty());
            } else {
                assert(loose_part(before).contains_key(members@[0].origin@));
                if loose_part(before).dom().len() == 0 {
                    assert(loose_part(before).dom() =~= Set::<Pos>::empty());
                }
            }
        }
        if members.len() == 0 {
            None
        } else {
            Some(Chunk { members, fall_progress: 0, ticks_falling: 0 })
        }
    }

    /// Whether the chunk would hold as a whole `rows` rows below where it
    /// came loose.
    pub fn lands_at(&self, grid: &Grid, rows: u64) -> (held: bool)
        requires
            self.wf(),
        ensures
            held == lands(grid@, self@.members, rows as int),
    {
        let mut i: usize = 0;
        proof {
            lemma_members_of(self.members@);
        }
        while i < self.members.len()
            invariant
                0 <= i <= self.members.len(),
                forall|j: int|
                    0 <= j < i ==> !member_lands(
                        grid@,
                        members_of(self.members@),
                        (#[trigger] self.members@[j]).origin@,
                        rows as int,
                    ),
                forall|j: int|
                    0 <= j < self.members.len() ==> members_of(self.members@).contains_key(
                        (#[trigger] self.members@[j]).origin@,
                    ),
                forall|j: int|
                    0 <= j < self.members.len() ==> members_of(self.members@)[(#[trigger] self.members@[j]).origin@]
                        == self.members@[j].block,
            decreases self.members.len() - i,
        {
            let member = self.members[i];
            match member.origin.sunk(rows) {
                Some(cell) => {
                    if grid.is_stable(cell, &member.block) {
                        assert(member_lands(grid@, self@.members, member.origin@, rows as int));
                        return true;
                    }
                },
                None => {},
            }
            i += 1;
        }
        proof {
            if lands(grid@, self@.members, rows as int) {
                let p = choose|p: Pos| #[trigger] member_lands(grid@, self@.members, p, rows as int);
                let j = choose|j: int| 0 <= j < self.members@.len() && (#[trigger] self.members@[j]).origin@ == p;
                assert(false);
            }
        }
        false
    }

    /// The first of the rows `lo` to `hi` in which the chunk would hold.
    pub fn first_landing(&self, grid: &Grid, lo: u64, hi: u64) -> (found: Option<u64>)
        requires
            self.wf(),
        ensures
            found is Some <==> landing(grid@, self@.members, lo as int, hi as int) is Some,
            found matches Some(rows) ==> landing(grid@, self@.members, lo as int, hi as int) == Some(rows as int),
    {
        if lo > hi {
            return None;
        }
        let mut rows: u64 = lo;
        loop
            invariant
                self.wf(),
                lo <= rows <= hi,
                landing(grid@, self@.members, lo as int, hi as int) == landing(
                    grid@,
                    self@.members,
                    rows as int,
                    hi as int,
                ),
            decreases hi - rows,
        {
            if self.lands_at(grid, rows) {
                return Some(rows);
            }
            if rows == hi {
                assert(landing(grid@, self@.members, rows as int + 1, hi as int) is None);
                return None;
            }
            rows += 1;
        }
    }

    /// Whether every block of the chunk, `rows` rows below where it came
    /// loose, lies deeper than `BELOW_VIEW` rows below `max_depth`.
    pub fn is_out_of_sight(&self, rows: u64, max_depth: i32) -> (gone: bool)
        requires
            self.wf(),
        ensures
            gone == out_of_sight(self@.members, rows as int, max_depth + BELOW_VIEW),
    {
        let floor: i128 = max_depth as i128 + BELOW_VIEW as i128;
        let mut i: usize = 0;
        proof {
            lemma_members_of(self.members@);
        }
        while i < self.members.len()
            invariant
                0 <= i <= self.members.len(),
                floor == max_depth + BELOW_VIEW,
                forall|j: int| 0 <= j < i ==> (#[trigger] self.members@[j]).origin.y + rows > floor,
                forall|j: int|
                    0 <= j < self.members.len() ==> members_of(self.members@).contains_key(
                        (#[trigger] self.members@[j]).origin@,
                    ),
            decreases self.members.len() - i,
        {
            let depth: i128 = self.members[i].origin.y as i128 + rows as i128;
            if depth <= floor {
                assert(self@.members.contains_key(self.members@[i as int].origin@));
                return false;
            }
            i += 1;
        }
        proof {
            assert forall|p: Pos| #[trigger] self@.members.contains_key(p) implies p.1 + rows > floor by {
                let j = choose|j: int| 0 <= j < self.members@.len() && (#[trigger] self.members@[j]).origin@ == p;
            }
        }
        true
    }

    /// Lets the chunk fall for one tick and says how the tick ends for it.
    /// Only a chunk that keeps falling changes.
    pub fn advance(&mut self, grid: &Grid, max_depth: i32) -> (outcome: Outcome)
        requires
            old(self).wf(),
        ensures
            chunk_fate(grid@, old(self)@, max_depth as int) == match outcome {
                Outcome::Falling => Fate::Falling(final(self)@),
                Outcome::Landed(rows) => Fate::Landed(rows as nat),
                Outcome::Lost => Fate::Lost,
            },
            outcome is Falling ==> final(self).wf(),
            !(outcome is Falling) ==> *final(self) == *old(self),
            final(self).spec_members() == old(self).spec_members(),
    {
        let speed: u64 = if FALL_ACCELERATION * self.ticks_falling < FALL_TERMINAL {
            FALL_ACCELERATION * self.ticks_falling
        } else {
            FALL_TERMINAL
        };
        let progress: u64 = self.fall_progress + speed;
        let lo: u64 = self.fall_progress / FALL_UNITS;
        let hi: u64 = progress / FALL_UNITS;
        match self.first_landing(grid, lo, hi) {
            Some(rows) => Outcome::Landed(rows),
            None => {
                if self.is_out_of_sight(hi, max_depth) {
                    Outcome::Lost
                } else {
                    proof {
                        lemma_members_of(self.members@);
                        let p = choose|p: Pos| #[trigger] self@.members.contains_key(p) && !(p.1 + hi > max_depth
                            + BELOW_VIEW);
                        let j = choose|j: int|
                            0 <= j < self.members@.len() && (#[trigger] self.members@[j]).origin@ == p;
                        assert(hi <= 0x1_0000_000e);
                    }
                    self.fall_progress = progress;
                    self.ticks_falling = self.ticks_falling + 1;
                    Outcome::Falling
                }
            },
        }
    }

    /// Puts the blocks of the chunk into `grid`, each `rows` rows below the
    /// cell it came from. A block whose cell is taken is dropped; the others
    /// still go in.
    pub fn settle(&self, grid: &mut Grid, rows: u64)
        requires
            self.wf(),
        ensures
            final(grid)@ == settled(old(grid)@, self@.members, rows as int),
    {
        let ghost before = grid@;
        let mut i: usize = 0;
        proof {
            lemma_members_of(self.members@);
            grid.lemma_view();
            assert(self.members@.take(0) =~= Seq::<FallingBlock>::empty());
            assert(grid@ =~= settled(before, members_of(self.members@.take(0)), rows as int));
        }
        while i < self.members.len()
            invariant
                0 <= i <= self.members.len(),
                origins_distinct(self.members@),
                forall|p: Pos| before.contains_key(p) ==> in_range(p),
                grid@ == settled(before, members_of(self.members@.take(i as int)), rows as int),
            decreases self.members.len() - i,
        {
            let member = self.members[i];
            let ghost done = self.members@.take(i as int);
            let ghost next = self.members@.take(i as int + 1);
            proof {
                assert(next.drop_last() =~= done);
                assert(next.last() == member);
                assert(origins_distinct(done)) by {
                    assert forall|a: int, b: int| 0 <= a < done.len() && 0 <= b < done.len() && a != b implies (
                    #[trigger] done[a]).origin@ != (#[trigger] done[b]).origin@ by {
                        assert(done[a] == self.members@[a] && done[b] == self.members@[b]);
                    }
                }
                lemma_members_of(done);
                assert(!members_of(done).contains_key(member.origin@)) by {
                    if members_of(done).contains_key(member.origin@) {
                        let j = choose|j: int| 0 <= j < done.len() && (#[trigger] done[j]).origin@ == member.origin@;
                        assert(done[j] == self.members@[j]);
                        assert(self.members@[j].origin@ != self.members@[i as int].origin@);
                    }
                }
            }
            match member.origin.sunk(rows) {
                Some(cell) => {
                    let ghost held = grid@;
                    let inserted = grid.insert(cell, member.block);
                    proof {
                        assert(sunk(cell@, -(rows as int)) == member.origin@);
                        assert(held.contains_key(cell@) == before.contains_key(cell@));
                        assert(grid@ =~= settled(before, members_of(next), rows as int)) by {
                            assert forall|q: Pos| #[trigger]
                                settled(before, members_of(next), rows as int).contains_key(q)
                                    <==> grid@.contains_key(q) by {
                                if q != cell@ {
                                    assert(sunk(q, -(rows as int)) != member.origin@);
                                }
                            }
                        }
                    }
                },
                None => {
                    proof {
                        assert(grid@ =~= settled(before, members_of(next), rows as int)) by {
                            assert forall|q: Pos| #[trigger]
                                settled(before, members_of(next), rows as int).contains_key(q)
                                    <==> grid@.contains_key(q) by {
                                if in_range(q) && sunk(q, -(rows as int)) == member.origin@ {
                                    assert(q == sunk(member.origin@, rows as int));
                                }
                            }
                        }
                    }
                },
            }
            i += 1;
        }
        proof {
            assert(self.members@.take(i as int) =~= self.members@);
        }
    }
}

} // verus!
