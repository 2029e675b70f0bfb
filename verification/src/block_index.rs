//! Cycling selector over the blocks a player may place during one turn.

use vstd::prelude::*;

verus! {

/// How many blocks the player is dealt at the start of each turn.
pub const NUM_BLOCKS_PER_TURN: usize = 3;

/// What a cell of the board should show once the hovering block and the
/// lines it would clear are overlaid on the occupied cells.
#[derive(Debug, Clone, Copy, PartialEq, Eq, Structural)]
pub enum DisplayPointStatus {
    Occupied,
    Unoccupied,
    Hovered { has_conflict: bool },
    Blast,
}

/// Index of the currently selected block, together with how many blocks
/// of the current turn are still unplaced (counted from zero).
#[derive(Debug)]
pub struct BlockIndex {
    val: usize,
    num_left: usize,
}

impl BlockIndex {
    /// The selected block's index.
    pub closed spec fn value(&self) -> usize {
        self.val
    }

    /// How many blocks of the turn are still unplaced, counted from zero.
    pub closed spec fn blocks_left(&self) -> usize {
        self.num_left
    }

    /// Construct a new block index.
    pub fn new(val: usize) -> (r: Self)
        ensures
            r.value() == val,
            r.blocks_left() == NUM_BLOCKS_PER_TURN - 1,
    {
        BlockIndex { val, num_left: NUM_BLOCKS_PER_TURN - 1 }
    }

    /// Retrieve the contained value.
    pub fn current(&self) -> (r: usize)
        ensures
            r == self.value(),
    {
        self.val
    }

    /// Retrieve the contained value and decrement the internal counter.
    pub fn place(&mut self) -> (prev: usize)
        ensures
            prev == old(self).value(),
            final(self).blocks_left() == if old(self).blocks_left() == 0 {
                (NUM_BLOCKS_PER_TURN - 1) as usize
            } else {
                (old(self).blocks_left() - 1) as usize
            },
            final(self).value() == if old(self).value() == 0 {
                0usize
            } else {
                (old(self).value() - 1) as usize
            },
    {
        let prev = self.val;
        self.num_left = if self.num_left == 0 {
            NUM_BLOCKS_PER_TURN - 1
        } else {
            self.num_left - 1
        };
        self.val = if self.val == 0 {
            0
        } else {
            self.val - 1
        };
        prev
    }

    /// Advance the selection to the next valid value, wrapping to zero
    /// once it reaches the count of remaining blocks.
    pub fn cycle(&mut self) -> (r: &mut Self)
        requires
            old(self).value() == old(self).blocks_left() || old(self).value() < usize::MAX,
        ensures
            r.value() == if old(self).value() == old(self).blocks_left() {
                0usize
            } else {
                (old(self).value() + 1) as usize
            },
            r.blocks_left() == old(self).blocks_left(),
            *final(self) == *final(r),
    {
        if self.val == self.num_left {
            self.val = 0;
        } else {
            self.val += 1;
        }
        self
    }
}

impl Default for BlockIndex {
    fn default() -> (r: Self)
        ensures
            r.value() == 0,
            r.blocks_left() == NUM_BLOCKS_PER_TURN - 1,
    {
        BlockIndex { val: 0, num_left: NUM_BLOCKS_PER_TURN - 1 }
    }
}

} // verus!
