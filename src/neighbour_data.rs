//! Four values attached to the neighbour slots of a cell: either the indices
//! of the neighbours themselves, or the number of agents sent to each of them.
//! Slots are numbered in the order top (0), right (1), bottom (2), left (3).
use vstd::prelude::*;

verus! {

/// The number of neighbour slots of a cell of a two-dimensional grid.
pub const SLOTS: u32 = 4;

/// One `u32` for each neighbour slot; `size` is the number of slots.
#[derive(Debug, Clone, Copy)]
pub struct Neighbours {
    pub top: u32,
    pub bottom: u32,
    pub left: u32,
    pub right: u32,
    pub size: u32,
}

/// The slot that faces slot `k` from the other side: a move through slot `k`
/// of one cell arrives through slot `opposite(k)` of the other.
pub open spec fn opposite(k: int) -> int {
    (k + 2) % 4
}

impl Neighbours {
    /// The value held in slot `k`.
    pub open spec fn slot(self, k: int) -> u32 {
        if k == 0 {
            self.top
        } else if k == 1 {
            self.right
        } else if k == 2 {
            self.bottom
        } else {
            self.left
        }
    }

    /// The sum of the four slots.
    pub open spec fn total(self) -> int {
        self.top + self.right + self.bottom + self.left
    }

    pub fn new(top: u32, right: u32, bottom: u32, left: u32) -> (r: Neighbours)
        ensures
            r.top == top,
            r.right == right,
            r.bottom == bottom,
            r.left == left,
            r.size == SLOTS,
    {
        Neighbours { top, bottom, left, right, size: SLOTS }
    }

    /// The value held in slot `k`.
    pub fn get(&self, k: u32) -> (r: u32)
        requires
            k < SLOTS,
        ensures
            r == self.slot(k as int),
    {
        if k == 0 {
            self.top
        } else if k == 1 {
            self.right
        } else if k == 2 {
            self.bottom
        } else {
            self.left
        }
    }

    /// Counts one more agent sent through slot `k`.
    pub fn add_agent_to_slot(&mut self, k: u32)
        requires
            k < SLOTS,
            old(self).slot(k as int) < u32::MAX,
        ensures
            forall|j: int| 0 <= j < 4 ==> #[trigger] final(self).slot(j) == old(self).slot(j) + if j
                == k {
                1int
            } else {
                0int
            },
            final(self).size == old(self).size,
    {
        if k == 0 {
            self.top = self.top + 1;
        } else if k == 1 {
            self.right = self.right + 1;
        } else if k == 2 {
            self.bottom = self.bottom + 1;
        } else {
            self.left = self.left + 1;
        }
    }

    /// Walks the four slots in order: top, right, bottom, left.
    pub fn into_iter(self) -> (r: NeighboursIntoIterator)
        ensures
            r.neighbours == self,
            r.index == 0,
    {
        NeighboursIntoIterator { neighbours: self, index: 0 }
    }
}

/// A walk over the slots of a `Neighbours`, in slot order.
pub struct NeighboursIntoIterator {
    pub neighbours: Neighbours,
    pub index: u32,
}

impl NeighboursIntoIterator {
    /// The value of the next slot, or `None` once all four were handed out.
    pub fn next(&mut self) -> (r: Option<u32>)
        ensures
            final(self).neighbours == old(self).neighbours,
            old(self).index < SLOTS ==> r == Some(old(self).neighbours.slot(old(self).index as int))
                && final(self).index == old(self).index + 1,
            old(self).index >= SLOTS ==> r is None && final(self).index == old(self).index,
    {
        if self.index < SLOTS {
            let v = self.neighbours.get(self.index);
            self.index = self.index + 1;
            Some(v)
        } else {
            None
        }
    }
}

} // verus!
