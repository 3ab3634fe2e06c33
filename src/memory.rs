//! A flat memory of signed 32-bit cells with a tagged-block allocator that
//! never moves nor frees a block.
//!
//! A block of `size` payload cells starting at index `b` is preceded by two
//! header cells: its tag at `b - 2` and its size at `b - 1`.

use vstd::prelude::*;
use crate::decode::MAX_CELLS;

verus! {

/// Cells a block takes besides its payload.
pub const HEADER_CELLS: usize = 2;

/// Whether a block of `size` payload cells fits in a memory of `len` cells
/// whose first free cell is `free`.
pub open spec fn block_fits(free: nat, len: nat, size: int) -> bool {
    size >= 0 && free + HEADER_CELLS + size <= len
}

/// The cells after a block of `tag` and `size` was placed at `free`.
pub open spec fn with_block(cells: Seq<i32>, free: nat, tag: i32, size: i32) -> Seq<i32> {
    cells.update(free as int, tag).update(free + 1int, size)
}

/// The cells of a machine, and the allocator's mark: every cell from `free`
/// on is still unallocated.
pub struct Memory {
    cells: Vec<i32>,
    free: usize,
}

impl Memory {
    /// The contents, cell by cell.
    pub closed spec fn cells(&self) -> Seq<i32> {
        self.cells@
    }

    /// The first cell not yet handed out by the allocator.
    pub closed spec fn free(&self) -> nat {
        self.free as nat
    }

    pub open spec fn wf(&self) -> bool {
        &&& self.cells().len() <= MAX_CELLS
        &&& self.free() <= self.cells().len()
    }

    /// A memory of `size` cells, all zero, whose heap starts at cell 0.
    pub fn new(size: usize) -> (r: Memory)
        requires
            size <= MAX_CELLS,
        ensures
            r.wf(),
            r.cells() == Seq::new(size as nat, |i: int| 0i32),
            r.free() == 0,
    {
        let mut cells: Vec<i32> = Vec::new();
        let mut i: usize = 0;
        while i < size
            invariant
                i <= size,
                cells@ == Seq::new(i as nat, |j: int| 0i32),
            decreases size - i,
        {
            cells.push(0);
            i = i + 1;
            proof {
                assert(cells@ =~= Seq::new(i as nat, |j: int| 0i32));
            }
        }
        Memory { cells, free: 0 }
    }

    pub fn len(&self) -> (r: usize)
        ensures
            r == self.cells().len(),
    {
        self.cells.len()
    }

    pub fn load(&self, i: usize) -> (r: i32)
        requires
            i < self.cells().len(),
        ensures
            r == self.cells()[i as int],
    {
        self.cells[i]
    }

    pub fn store(&mut self, i: usize, v: i32)
        requires
            old(self).wf(),
            i < old(self).cells().len(),
        ensures
            final(self).wf(),
            final(self).cells() == old(self).cells().update(i as int, v),
            final(self).free() == old(self).free(),
    {
        self.cells.set(i, v);
    }

    /// Marks the cells below `start` as taken: allocation begins there.
    pub fn set_heap_start(&mut self, start: usize)
        requires
            old(self).wf(),
            start <= old(self).cells().len(),
        ensures
            final(self).wf(),
            final(self).cells() == old(self).cells(),
            final(self).free() == start,
    {
        self.free = start;
    }

    /// Reserves a block of `size` payload cells tagged `tag` and returns the
    /// index of its first payload cell, or `None` where `size` is negative or
    /// the block does not fit in what is left. Payload cells are not touched.
    pub fn allocate(&mut self, tag: i32, size: i32) -> (r: Option<usize>)
        requires
            old(self).wf(),
        ensures
            final(self).wf(),
            block_fits(old(self).free(), old(self).cells().len(), size as int) ==> {
                &&& r == Some((old(self).free() + HEADER_CELLS) as usize)
                &&& final(self).cells() == with_block(old(self).cells(), old(self).free(), tag, size)
                &&& final(self).free() == old(self).free() + HEADER_CELLS + size
            },
            !block_fits(old(self).free(), old(self).cells().len(), size as int) ==> {
                &&& r.is_none()
                &&& final(self).cells() == old(self).cells()
                &&& final(self).free() == old(self).free()
            },
    {
        if size < 0 {
            return None;
        }
        let n = size as usize;
        if self.cells.len() - self.free < HEADER_CELLS || self.cells.len() - self.free - HEADER_CELLS < n {
            return None;
        }
        let b = self.free + HEADER_CELLS;
        self.cells.set(self.free, tag);
        self.cells.set(self.free + 1, size);
        self.free = b + n;
        Some(b)
    }

    /// The size recorded for the block at `b`, or `None` where `b` has no
    /// header cell inside the memory.
    pub fn block_size(&self, b: usize) -> (r: Option<i32>)
        ensures
            r == (if 1 <= b <= self.cells().len() {
                Some(self.cells()[b - 1])
            } else {
                None::<i32>
            }),
    {
        if 1 <= b && b <= self.cells.len() {
            Some(self.cells[b - 1])
        } else {
            None
        }
    }

    /// The tag recorded for the block at `b`, or `None` where `b` has no
    /// header cell inside the memory.
    pub fn block_tag(&self, b: usize) -> (r: Option<i32>)
        ensures
            r == (if 2 <= b && b - 2 < self.cells().len() {
                Some(self.cells()[b - 2])
            } else {
                None::<i32>
            }),
    {
        if 2 <= b && b - 2 < self.cells.len() {
            Some(self.cells[b - 2])
        } else {
            None
        }
    }

    /// Writes `words` into the cells from index 0 on and starts the heap
    /// right after them; `false`, with nothing changed, where they do not fit.
    pub fn load_image(&mut self, words: &Vec<i32>) -> (r: bool)
        requires
            old(self).wf(),
        ensures
            final(self).wf(),
            r == (words@.len() <= old(self).cells().len()),
            r ==> final(self).cells() == words@ + old(self).cells().skip(words@.len() as int),
            r ==> final(self).free() == words@.len(),
            !r ==> *final(self) == *old(self),
    {
        if words.len() > self.cells.len() {
            return false;
        }
        let ghost start = self.cells@;
        let mut i: usize = 0;
        while i < words.len()
            invariant
                i <= words@.len() <= start.len(),
                self.cells@.len() == start.len(),
                self.cells@ == words@.take(i as int) + start.skip(i as int),
                self.free <= start.len(),
                start.len() <= MAX_CELLS,
            decreases words@.len() - i,
        {
            self.cells.set(i, words[i]);
            i = i + 1;
            proof {
                assert(self.cells@ =~= words@.take(i as int) + start.skip(i as int));
            }
        }
        proof {
            assert(words@.take(i as int) =~= words@);
        }
        self.free = words.len();
        true
    }
}

} // verus!
