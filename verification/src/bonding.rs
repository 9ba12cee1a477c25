//! Bonds between neighbouring blocks, and whether a single block would hold
//! in a given cell.

use crate::blocks::{sides_bond, Block, BlockKind, Connector};
use crate::coords::{above, below, neighbor, Coord, Pos, Side};
use crate::grid::Grid;
use vstd::prelude::*;

verus! {

/// Whether `connector`, on the side `facing` of cell `p`, would bond with the
/// block next to it on that side. There is no bond without a neighbour, nor
/// with a neighbour whose facing side is smooth.
pub open spec fn would_link(cells: Map<Pos, Block>, p: Pos, connector: Connector, facing: Side) -> bool {
    let q = neighbor(p, facing);
    cells.contains_key(q) && sides_bond(cells[q].spec_connector(facing.spec_flip()), Some(connector))
}

/// Whether `block`, standing in cell `p`, would bond on `side`.
pub open spec fn side_links(cells: Map<Pos, Block>, p: Pos, block: Block, side: Side) -> bool {
    block.spec_connector(side) matches Some(connector) && would_link(cells, p, connector, side)
}

/// On how many of its four sides `block`, standing in cell `p`, would bond.
pub open spec fn bond_count(cells: Map<Pos, Block>, p: Pos, block: Block) -> nat {
    (if side_links(cells, p, block, Side::North) { 1nat } else { 0 })
    + (if side_links(cells, p, block, Side::East) { 1nat } else { 0 })
    + (if side_links(cells, p, block, Side::South) { 1nat } else { 0 })
    + (if side_links(cells, p, block, Side::West) { 1nat } else { 0 })
}

/// Whether `block` would hold in cell `p` without being an anchor: it rests
/// on the block below, or one of its sides bonds.
pub open spec fn holds_anchorless(cells: Map<Pos, Block>, p: Pos, block: Block) -> bool {
    cells.contains_key(below(p)) || bond_count(cells, p, block) > 0
}

/// Whether `block` would hold in cell `p`: anchors hold anywhere, everything
/// else has to rest or bond.
pub open spec fn holds(cells: Map<Pos, Block>, p: Pos, block: Block) -> bool {
    block.kind == BlockKind::Anchor || holds_anchorless(cells, p, block)
}

/// Whether an anchor may be put into cell `p`: it hangs from the block above,
/// or it would hold like any other block.
pub open spec fn anchor_fits(cells: Map<Pos, Block>, p: Pos, block: Block) -> bool {
    cells.contains_key(above(p)) || holds_anchorless(cells, p, block)
}

impl Grid {
    /// Whether `connector`, on the side `facing` of cell `position`, would
    /// bond with the block next to it.
    pub fn would_link(&self, position: Coord, connector: &Connector, facing: Side) -> (links: bool)
        ensures
            links == would_link(self@, position@, *connector, facing),
    {
        match self.neighbor_block(position, facing) {
            Some(block) => {
                match block.connector(facing.flip()) {
                    Some(other) => other.links_with(connector),
                    None => false,
                }
            },
            None => false,
        }
    }

    /// Whether `block`, standing in cell `pos`, would bond on `side`.
    pub fn side_links(&self, pos: Coord, block: &Block, side: Side) -> (links: bool)
        ensures
            links == side_links(self@, pos@, *block, side),
    {
        match block.connector(side) {
            Some(connector) => self.would_link(pos, &connector, side),
            None => false,
        }
    }

    /// On how many of its four sides `block`, standing in cell `pos`, would
    /// bond.
    pub fn live_bonds(&self, pos: Coord, block: &Block) -> (count: usize)
        ensures
            count == bond_count(self@, pos@, *block),
            count <= 4,
    {
        let mut count: usize = 0;
        if self.side_links(pos, block, Side::North) {
            count += 1;
        }
        if self.side_links(pos, block, Side::East) {
            count += 1;
        }
        if self.side_links(pos, block, Side::South) {
            count += 1;
        }
        if self.side_links(pos, block, Side::West) {
            count += 1;
        }
        count
    }

    /// Whether a block stands in the cell `dx` to the right of and `dy` below
    /// `pos`.
    pub fn occupied_at(&self, pos: Coord, dx: i32, dy: i32) -> (occupied: bool)
        ensures
            occupied == self@.contains_key((pos.x + dx, pos.y + dy)),
    {
        match pos.offset(dx, dy) {
            Some(cell) => self.contains(cell),
            None => {
                proof {
                    self.lemma_view();
                }
                false
            },
        }
    }

    /// Whether `block` would hold in cell `pos` without being an anchor.
    pub fn is_stable_anchorless(&self, pos: Coord, block: &Block) -> (stable: bool)
        ensures
            stable == holds_anchorless(self@, pos@, *block),
    {
        self.occupied_at(pos, 0, 1) || self.live_bonds(pos, block) > 0
    }

    /// Whether `block` can stay in cell `pos`: it is an anchor, it rests on a
    /// block, or it bonds with one.
    pub fn is_stable(&self, pos: Coord, block: &Block) -> (stable: bool)
        ensures
            stable == holds(self@, pos@, *block),
    {
        block.kind == BlockKind::Anchor || self.is_stable_anchorless(pos, block)
    }

    /// Whether the anchor `block` may be put into cell `pos`.
    pub fn can_anchor_be_placed(&self, pos: Coord, block: &Block) -> (fits: bool)
        ensures
            fits == anchor_fits(self@, pos@, *block),
    {
        self.occupied_at(pos, 0, -1) || self.is_stable_anchorless(pos, block)
    }
}

} // verus!
