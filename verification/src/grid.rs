//! The grid index: a sparse map from cells to the blocks that stand in them.

use crate::blocks::Block;
use crate::coords::{
    in_range, lemma_pack_injective, lemma_pack_unpack, lemma_unpack_pack, neighbor, pack, unpack,
    Coord, Pos, Side,
};
use std::collections::{HashMap, HashSet};
use vstd::prelude::*;
use vstd::std_specs::iter::IteratorSpec;

verus! {

/// The blocks that stand in the grid, by cell. No cell holds two blocks.
pub struct Grid {
    cells: HashMap<u64, Block>,
}

impl View for Grid {
    type V = Map<Pos, Block>;

    closed spec fn view(&self) -> Map<Pos, Block> {
        Map::new(
            |p: Pos| in_range(p) && self.cells@.contains_key(pack(p) as u64),
            |p: Pos| self.cells@[pack(p) as u64],
        )
    }
}

/// Every cell in range has a key of its own.
proof fn lemma_keys()
    ensures
        forall|p: Pos| in_range(p) ==> 0 <= #[trigger] pack(p) <= u64::MAX,
        forall|p: Pos, q: Pos| in_range(p) && in_range(q) && #[trigger] pack(p) == #[trigger] pack(q) ==> p == q,
        forall|k: u64| in_range(#[trigger] unpack(k as int)) && pack(unpack(k as int)) == k,
{
    assert forall|p: Pos| in_range(p) implies 0 <= #[trigger] pack(p) <= u64::MAX by {
        lemma_pack_unpack(p);
    }
    assert forall|p: Pos, q: Pos| in_range(p) && in_range(q) && #[trigger] pack(p) == #[trigger] pack(
        q,
    ) implies p == q by {
        lemma_pack_injective(p, q);
    }
    assert forall|k: u64| in_range(#[trigger] unpack(k as int)) && pack(unpack(k as int)) == k by {
        lemma_unpack_pack(k as int);
    }
}

impl Grid {
    /// A grid holds finitely many blocks, all of them in cells in range.
    pub proof fn lemma_view(&self)
        ensures
            self@.dom().finite(),
            forall|p: Pos| self@.contains_key(p) ==> in_range(p),
    {
        lemma_keys();
        let keys = self.cells@.dom();
        let cells = keys.map(|k: u64| unpack(k as int));
        keys.lemma_map_finite(|k: u64| unpack(k as int));
        assert(self@.dom() =~= cells) by {
            assert forall|p: Pos| self@.dom().contains(p) implies cells.contains(p) by {
                let k = pack(p) as u64;
                assert(keys.contains(k));
                assert(unpack(k as int) == p);
            }
        }
    }

    /// An empty grid.
    pub fn new() -> (grid: Grid)
        ensures
            grid@ == Map::<Pos, Block>::empty(),
    {
        let grid = Grid { cells: HashMap::new() };
        assert(grid@ =~= Map::<Pos, Block>::empty());
        grid
    }

    /// The block in cell `pos`, if there is one.
    pub fn get(&self, pos: Coord) -> (found: Option<Block>)
        ensures
            found is Some <==> self@.contains_key(pos@),
            found matches Some(block) ==> block == self@[pos@],
    {
        let key: u64 = pos.key();
        match self.cells.get(&key) {
            Some(block) => Some(*block),
            None => None,
        }
    }

    /// Whether a block stands in cell `pos`.
    pub fn contains(&self, pos: Coord) -> (occupied: bool)
        ensures
            occupied == self@.contains_key(pos@),
    {
        let key: u64 = pos.key();
        self.cells.contains_key(&key)
    }

    /// Puts `block` into cell `pos` if the cell is free, and says whether it
    /// did. An occupied cell keeps its block.
    pub fn insert(&mut self, pos: Coord, block: Block) -> (inserted: bool)
        ensures
            inserted == !old(self)@.contains_key(pos@),
            inserted ==> final(self)@ == old(self)@.insert(pos@, block),
            !inserted ==> final(self)@ == old(self)@,
    {
        let key: u64 = pos.key();
        if self.cells.contains_key(&key) {
            false
        } else {
            self.cells.insert(key, block);
            proof {
                lemma_keys();
                assert(self@ =~= old(self)@.insert(pos@, block));
            }
            true
        }
    }

    /// Puts `block` into cell `pos`, in place of the block that stood there
    /// if there was one.
    pub fn put(&mut self, pos: Coord, block: Block)
        ensures
            final(self)@ == old(self)@.insert(pos@, block),
    {
        let key: u64 = pos.key();
        self.cells.insert(key, block);
        proof {
            lemma_keys();
            assert(self@ =~= old(self)@.insert(pos@, block));
        }
    }

    /// Takes the block out of cell `pos` and returns it, if there is one.
    pub fn remove(&mut self, pos: Coord) -> (taken: Option<Block>)
        ensures
            taken is Some <==> old(self)@.contains_key(pos@),
            taken matches Some(block) ==> block == old(self)@[pos@],
            final(self)@ == old(self)@.remove(pos@),
    {
        let key: u64 = pos.key();
        let taken = self.cells.remove(&key);
        proof {
            lemma_keys();
            assert(self@ =~= old(self)@.remove(pos@));
        }
        taken
    }

    /// The number of blocks in the grid.
    pub fn len(&self) -> (n: usize)
        ensures
            n == self@.dom().len(),
    {
        proof {
            self.lemma_len();
        }
        self.cells.len()
    }

    /// The grid holds as many blocks as it has keys.
    proof fn lemma_len(&self)
        ensures
            self@.dom().len() == self.cells@.dom().len(),
    {
        lemma_keys();
        self.lemma_view();
        let keys = self.cells@.dom();
        let key_of = |p: Pos| pack(p) as u64;
        assert(self@.dom().map(key_of) =~= keys) by {
            assert forall|k: u64| keys.contains(k) implies self@.dom().map(key_of).contains(k) by {
                let p = unpack(k as int);
                assert(self@.dom().contains(p));
                assert(key_of(p) == k);
            }
        }
        vstd::set_lib::lemma_map_size(self@.dom(), keys, key_of);
    }

    /// The occupied cells, each once, in no particular order.
    pub fn coords(&self) -> (cells: Vec<Coord>)
        ensures
            cells@.no_duplicates(),
            forall|i: int| 0 <= i < cells.len() ==> self@.contains_key(#[trigger] cells[i]@),
            forall|p: Pos| self@.contains_key(p) ==> exists|i: int| 0 <= i < cells.len() && #[trigger] cells[i]@ == p,
            cells.len() == self@.dom().len(),
    {
        let mut cells: Vec<Coord> = Vec::new();
        proof {
            lemma_keys();
            self.lemma_len();
        }
        let ghost keys = self.cells.keys().remaining().unref();
        for key in it: self.cells.keys()
            invariant
                it.seq().unref() == keys,
                keys.no_duplicates(),
                keys.to_set() == self.cells@.dom(),
                cells.len() == it.index(),
                forall|i: int| 0 <= i < cells.len() ==> pack(#[trigger] cells[i]@) == keys[i],
        {
            cells.push(Coord::from_key(*key));
        }
        proof {
            assert forall|i: int, j: int| 0 <= i < cells.len() && 0 <= j < cells.len() && i != j implies cells[i]
                != cells[j] by {
                assert(keys[i] != keys[j]);
                assert(pack(cells[i]@) != pack(cells[j]@));
            }
            assert forall|i: int| 0 <= i < cells.len() implies self@.contains_key(#[trigger] cells[i]@) by {
                assert(keys.to_set().contains(keys[i]));
            }
            assert forall|p: Pos| self@.contains_key(p) implies exists|i: int|
                0 <= i < cells.len() && #[trigger] cells[i]@ == p by {
                let k = pack(p) as u64;
                assert(keys.to_set().contains(k));
                let i = choose|i: int| 0 <= i < keys.len() && keys[i] == k;
                assert(cells[i]@ == p);
            }
            keys.unique_seq_to_set();
        }
        cells
    }

    /// The blocks with their cells, each once, in no particular order.
    pub fn entries(&self) -> (list: Vec<(Coord, Block)>)
        ensures
            list.len() == self@.dom().len(),
            forall|i: int, j: int| 0 <= i < j < list.len() ==> list[i].0 != list[j].0,
            forall|i: int|
                0 <= i < list.len() ==> self@.contains_key((#[trigger] list[i]).0@) && self@[list[i].0@]
                    == list[i].1,
            forall|p: Pos|
                self@.contains_key(p) ==> exists|i: int| 0 <= i < list.len() && (#[trigger] list[i]).0@ == p,
    {
        let cells = self.coords();
        let mut list: Vec<(Coord, Block)> = Vec::new();
        let mut i: usize = 0;
        while i < cells.len()
            invariant
                0 <= i <= cells.len(),
                list.len() == i,
                forall|k: int| 0 <= k < cells.len() ==> self@.contains_key(#[trigger] cells[k]@),
                forall|k: int| 0 <= k < i ==> (#[trigger] list[k]).0 == cells[k] && list[k].1 == self@[cells[k]@],
            decreases cells.len() - i,
        {
            let cell = cells[i];
            match self.get(cell) {
                Some(block) => {
                    list.push((cell, block));
                },
                None => {},
            }
            i += 1;
        }
        proof {
            assert forall|p: Pos| self@.contains_key(p) implies exists|i: int|
                0 <= i < list.len() && (#[trigger] list[i]).0@ == p by {
                let k = choose|k: int| 0 <= k < cells.len() && #[trigger] cells[k]@ == p;
                assert(list[k].0@ == p);
            }
        }
        list
    }

    /// The block in the cell next to `pos` on `side`, if there is one.
    pub fn neighbor_block(&self, pos: Coord, side: Side) -> (found: Option<Block>)
        ensures
            found is Some <==> self@.contains_key(neighbor(pos@, side)),
            found matches Some(block) ==> block == self@[neighbor(pos@, side)],
    {
        match pos.step(side) {
            Some(next) => self.get(next),
            None => {
                proof {
                    self.lemma_view();
                }
                None
            },
        }
    }
}

/// A set of cells.
pub struct CellSet {
    keys: HashSet<u64>,
}

impl View for CellSet {
    type V = Set<Pos>;

    closed spec fn view(&self) -> Set<Pos> {
        Set::new(|p: Pos| in_range(p) && self.keys@.contains(pack(p) as u64))
    }
}

impl CellSet {
    /// All cells of the set are in range.
    pub proof fn lemma_view(&self)
        ensures
            forall|p: Pos| self@.contains(p) ==> in_range(p),
    {
    }

    /// An empty set.
    pub fn new() -> (set: CellSet)
        ensures
            set@ == Set::<Pos>::empty(),
    {
        let set = CellSet { keys: HashSet::new() };
        assert(set@ =~= Set::<Pos>::empty());
        set
    }

    /// Adds cell `pos` to the set, and says whether it was new to it.
    pub fn insert(&mut self, pos: Coord) -> (fresh: bool)
        ensures
            final(self)@ == old(self)@.insert(pos@),
            fresh == !old(self)@.contains(pos@),
    {
        let key: u64 = pos.key();
        let fresh = self.keys.insert(key);
        proof {
            lemma_keys();
            assert(self@ =~= old(self)@.insert(pos@));
        }
        fresh
    }

    /// Whether cell `pos` is in the set.
    pub fn contains(&self, pos: Coord) -> (held: bool)
        ensures
            held == self@.contains(pos@),
    {
        let key: u64 = pos.key();
        self.keys.contains(&key)
    }
}

} // verus!
