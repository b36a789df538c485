//! Memory bookkeeping: allocation statistics and the offset arithmetic of a
//! frame allocator.

use vstd::prelude::*;

verus! {

/// Memory tracking statistics.
#[derive(Debug)]
pub struct MemoryStats {
    allocated: usize,
    peak: usize,
    allocation_count: usize,
}

impl MemoryStats {
    /// Bytes currently allocated.
    pub closed spec fn spec_current(&self) -> usize {
        self.allocated
    }

    /// The highest number of bytes allocated at one time.
    pub closed spec fn spec_peak(&self) -> usize {
        self.peak
    }

    /// The number of allocations recorded.
    pub closed spec fn spec_count(&self) -> usize {
        self.allocation_count
    }

    /// Create new memory stats, all zero.
    pub fn new() -> (s: MemoryStats)
        ensures
            s.spec_current() == 0,
            s.spec_peak() == 0,
            s.spec_count() == 0,
    {
        MemoryStats { allocated: 0, peak: 0, allocation_count: 0 }
    }

    /// Record an allocation of `size` bytes: the bytes allocated grow by
    /// `size`, the peak follows if it is exceeded, and the number of
    /// allocations grows by one, wrapping around at the top.
    pub fn record_alloc(&mut self, size: usize)
        requires
            old(self).spec_current() + size <= usize::MAX,
        ensures
            final(self).spec_current() == old(self).spec_current() + size,
            final(self).spec_peak() == (if final(self).spec_current() > old(self).spec_peak() {
                final(self).spec_current()
            } else {
                old(self).spec_peak()
            }),
            final(self).spec_count() == (if old(self).spec_count() == usize::MAX {
                0
            } else {
                old(self).spec_count() + 1
            }),
    {
        let new_size = self.allocated + size;
        self.allocated = new_size;
        self.allocation_count = self.allocation_count.wrapping_add(1);
        if new_size > self.peak {
            self.peak = new_size;
        }
    }

    /// Record a deallocation of `size` bytes: the bytes allocated shrink by
    /// `size`, wrapping around below zero. Peak and count stay.
    pub fn record_dealloc(&mut self, size: usize)
        ensures
            final(self).spec_current() == (if old(self).spec_current() >= size {
                old(self).spec_current() - size
            } else {
                old(self).spec_current() - size + usize::MAX + 1
            }),
            final(self).spec_peak() == old(self).spec_peak(),
            final(self).spec_count() == old(self).spec_count(),
    {
        self.allocated = self.allocated.wrapping_sub(size);
    }

    /// Get current allocated bytes.
    pub fn current(&self) -> (n: usize)
        ensures
            n == self.spec_current(),
    {
        self.allocated
    }

    /// Get peak allocated bytes.
    pub fn peak_usage(&self) -> (n: usize)
        ensures
            n == self.spec_peak(),
    {
        self.peak
    }

    /// Get total allocation count.
    pub fn count(&self) -> (n: usize)
        ensures
            n == self.spec_count(),
    {
        self.allocation_count
    }

    /// Reset statistics to zero.
    pub fn reset(&mut self)
        ensures
            final(self).spec_current() == 0,
            final(self).spec_peak() == 0,
            final(self).spec_count() == 0,
    {
        self.allocated = 0;
        self.peak = 0;
        self.allocation_count = 0;
    }
}

impl Default for MemoryStats {
    /// The default statistics are all zero.
    fn default() -> (s: MemoryStats)
        ensures
            s.spec_current() == 0,
            s.spec_peak() == 0,
            s.spec_count() == 0,
    {
        MemoryStats::new()
    }
}

/// The least multiple of `align` that is not below `offset`.
pub open spec fn align_up(offset: int, align: int) -> int
    recommends
        align >= 1,
        offset >= 0,
{
    if offset % align == 0 {
        offset
    } else {
        offset + (align - offset % align)
    }
}

/// `align_up` gives a multiple of `align`, the least one at or above
/// `offset`.
pub proof fn lemma_align_up(offset: int, align: int)
    requires
        align >= 1,
        offset >= 0,
    ensures
        align_up(offset, align) % align == 0,
        offset <= align_up(offset, align) < offset + align,
{
    let r = offset % align;
    if r != 0 {
        assert((offset + (align - r)) % align == 0) by (nonlinear_arith)
            requires
                r == offset % align,
                align >= 1,
                offset >= 0,
                r != 0,
        ;
    }
}

/// Frame allocator for per-frame temporary allocations: a block of
/// `capacity` bytes from which ranges are handed out front to back, and which
/// is emptied as a whole at the end of the frame.
///
/// The allocator keeps the offsets; the memory itself is the caller's.
pub struct FrameAllocator {
    capacity: usize,
    offset: usize,
    stats: MemoryStats,
}

impl FrameAllocator {
    /// The size of the block.
    pub closed spec fn spec_capacity(&self) -> usize {
        self.capacity
    }

    /// The number of bytes in use, padding included.
    pub closed spec fn spec_used(&self) -> usize {
        self.offset
    }

    /// The statistics of the allocator.
    pub closed spec fn spec_stats(&self) -> MemoryStats {
        self.stats
    }

    /// The invariant: no more is in use than the block holds, and no more
    /// was handed out than is in use.
    pub open spec fn wf(&self) -> bool {
        &&& self.spec_used() <= self.spec_capacity()
        &&& self.spec_stats().spec_current() <= self.spec_used()
    }

    /// Create a new frame allocator with the given capacity.
    pub fn new(capacity: usize) -> (a: FrameAllocator)
        ensures
            a.wf(),
            a.spec_capacity() == capacity,
            a.spec_used() == 0,
            a.spec_stats().spec_current() == 0,
            a.spec_stats().spec_count() == 0,
    {
        FrameAllocator { capacity, offset: 0, stats: MemoryStats::new() }
    }

    /// Allocate `size` bytes aligned to `align` (an alignment of zero counts
    /// as one). Returns the offset of the range in the block, or `None`,
    /// changing nothing, if there is not enough space remaining.
    pub fn allocate(&mut self, size: usize, align: usize) -> (at: Option<usize>)
        requires
            old(self).wf(),
        ensures
            final(self).wf(),
            final(self).spec_capacity() == old(self).spec_capacity(),
            ({
                let step = if align == 0 {
                    1
                } else {
                    align as int
                };
                let start = align_up(old(self).spec_used() as int, step);
                &&& at is Some <==> start + size <= old(self).spec_capacity()
                &&& at matches Some(offset) ==> offset == start && final(self).spec_used() == start
                    + size && final(self).spec_stats().spec_current() == old(
                    self,
                ).spec_stats().spec_current() + size
                &&& at is None ==> final(self).spec_used() == old(self).spec_used() && final(self).spec_stats() == old(self).spec_stats()
            }),
    {
        let align = if align == 0 {
            1
        } else {
            align
        };
        proof {
            lemma_align_up(self.offset as int, align as int);
        }
        let rem = self.offset % align;
        let pad = if rem == 0 {
            0
        } else {
            align - rem
        };
        if pad > self.capacity - self.offset {
            return None;
        }
        let start = self.offset + pad;
        if size > self.capacity - start {
            return None;
        }
        self.offset = start + size;
        self.stats.record_alloc(size);
        Some(start)
    }

    /// Reset the allocator for the next frame: the block is empty again and
    /// the statistics are zero.
    pub fn reset(&mut self)
        ensures
            final(self).wf(),
            final(self).spec_capacity() == old(self).spec_capacity(),
            final(self).spec_used() == 0,
            final(self).spec_stats().spec_current() == 0,
            final(self).spec_stats().spec_peak() == 0,
            final(self).spec_stats().spec_count() == 0,
    {
        self.offset = 0;
        self.stats.reset();
    }

    /// Get the current usage.
    pub fn used(&self) -> (n: usize)
        ensures
            n == self.spec_used(),
    {
        self.offset
    }

    /// Get the capacity.
    pub fn capacity(&self) -> (n: usize)
        ensures
            n == self.spec_capacity(),
    {
        self.capacity
    }

    /// Get remaining space.
    pub fn remaining(&self) -> (n: usize)
        requires
            self.wf(),
        ensures
            n == self.spec_capacity() - self.spec_used(),
    {
        self.capacity - self.offset
    }

    /// Get memory statistics.
    pub fn stats(&self) -> (s: &MemoryStats)
        ensures
            *s == self.spec_stats(),
    {
        &self.stats
    }
}

} // verus!
