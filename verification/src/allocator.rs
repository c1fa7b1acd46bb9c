//! Region (bump/arena) memory allocator.
//!
//! An allocator owns one contiguous reserved byte region and hands out
//! monotonically advancing sub-ranges of it. There is no per-object free:
//! the only way to reclaim space is [`RegionAllocator::clear`], an O(1)
//! epoch reset that invalidates every previously returned range.

use crate::VmError;
use vstd::prelude::*;

verus! {

/// Contiguous chunk of memory backing a [`RegionAllocator`].
///
/// `bytes` is the reserved region; its length is the region's capacity and
/// never changes for the region's lifetime. `offset` says how many bytes
/// are allocated; contents beyond `offset` are unspecified garbage.
pub struct RegionMemoryBuffer {
    /// The reserved bytes. The length is fixed at construction.
    pub bytes: Vec<u8>,
    /// Offset from the base of the region: how many bytes are allocated.
    pub offset: usize,
}

/// Simple region based allocator.
///
/// Allocates a contiguous region of memory with a specific size, and
/// maintains a pointer within that memory; every allocation advances the
/// pointer by the requested size.
pub struct RegionAllocator {
    /// The memory reserved for the allocator.
    pub region: RegionMemoryBuffer,
}

impl RegionAllocator {
    /// Total capacity of the region in bytes; fixed at construction.
    pub open spec fn capacity(self) -> nat {
        self.region.bytes@.len()
    }

    /// How many bytes are currently allocated.
    pub open spec fn offset(self) -> nat {
        self.region.offset as nat
    }

    /// All bytes of the region, allocated or not.
    pub open spec fn contents(self) -> Seq<u8> {
        self.region.bytes@
    }

    /// The allocated prefix of the region.
    pub open spec fn written(self) -> Seq<u8> {
        self.contents().take(self.offset() as int)
    }

    /// The allocation offset never exceeds the capacity.
    pub open spec fn wf(self) -> bool {
        self.offset() <= self.capacity()
    }

    /// Create a new allocator with a specific size. The region starts
    /// zeroed and fully unallocated.
    pub fn new(size: usize) -> (r: Self)
        ensures
            r.wf(),
            r.capacity() == size,
            r.offset() == 0,
            r.contents() == Seq::new(size as nat, |i: int| 0u8),
    {
        let bytes = vec![0u8; size];
        proof {
            assert(bytes@ =~= Seq::new(size as nat, |i: int| 0u8));
        }
        RegionAllocator { region: RegionMemoryBuffer { bytes, offset: 0 } }
    }

    /// Allocate a new chunk of memory with a specific size; returns the
    /// base offset of the allocated chunk.
    ///
    /// Allocation is all-or-nothing: if fewer than `size` bytes remain,
    /// `OutOfMemory` is returned and the allocator is left unchanged.
    pub fn allocate(&mut self, size: usize) -> (r: Result<usize, VmError>)
        requires
            old(self).wf(),
        ensures
            final(self).wf(),
            final(self).capacity() == old(self).capacity(),
            final(self).contents() == old(self).contents(),
            r is Ok <==> old(self).offset() + size <= old(self).capacity(),
            r is Ok ==> r->Ok_0 == old(self).offset()
                && final(self).offset() == old(self).offset() + size,
            r is Err ==> *final(self) == *old(self) && r == Err::<usize, VmError>(VmError::OutOfMemory),
    {
        if size > self.region.bytes.len() - self.region.offset {
            Err(VmError::OutOfMemory)
        } else {
            let base = self.region.offset;
            self.region.offset = self.region.offset + size;
            Ok(base)
        }
    }

    /// Free all memory: an O(1) epoch reset. Does not zero the region and
    /// does not release the reservation; every range returned by earlier
    /// allocations is invalidated.
    pub fn clear(&mut self) -> (r: Result<(), VmError>)
        ensures
            r is Ok,
            final(self).offset() == 0,
            final(self).capacity() == old(self).capacity(),
            final(self).contents() == old(self).contents(),
            final(self).wf(),
    {
        self.region.offset = 0;
        Ok(())
    }

    /// Allocate `data.len()` bytes and copy `data` into the allocated
    /// range; returns the base offset of the copy. The allocator is the
    /// sole long-term owner of the copy.
    ///
    /// All-or-nothing like [`RegionAllocator::allocate`].
    pub fn emplace_buffer(&mut self, data: &[u8]) -> (r: Result<usize, VmError>)
        requires
            old(self).wf(),
        ensures
            final(self).wf(),
            final(self).capacity() == old(self).capacity(),
            r is Ok <==> old(self).offset() + data@.len() <= old(self).capacity(),
            r is Ok ==> r->Ok_0 == old(self).offset()
                && final(self).offset() == old(self).offset() + data@.len()
                && final(self).contents() == old(self).contents().take(old(self).offset() as int)
                    + data@
                    + old(self).contents().skip((old(self).offset() + data@.len()) as int),
            r is Err ==> *final(self) == *old(self) && r == Err::<usize, VmError>(VmError::OutOfMemory),
    {
        let base = match self.allocate(data.len()) {
            Ok(b) => b,
            Err(e) => {
                return Err(e);
            },
        };
        let ghost orig = self.contents();
        let ghost orig_state = *self;
        let n = self.region.bytes.len();
        let mut j: usize = 0;
        while j < data.len()
            invariant
                0 <= j <= data@.len(),
                base + data@.len() <= n,
                self.region.bytes@.len() == n,
                self.wf(),
                self.capacity() == orig_state.capacity(),
                self.offset() == orig_state.offset(),
                self.contents().len() == orig.len(),
                forall|k: int| 0 <= k < base ==> self.contents()[k] == orig[k],
                forall|k: int| 0 <= k < j ==> self.contents()[base + k] == data@[k],
                forall|k: int| base + data@.len() <= k < orig.len() ==> self.contents()[k] == orig[k],
            decreases data@.len() - j,
        {
            self.region.bytes[base + j] = data[j];
            j = j + 1;
        }
        proof {
            assert(self.contents() =~= orig.take(base as int) + data@ + orig.skip(
                base + data@.len(),
            ));
        }
        Ok(base)
    }

    /// Overwrite already-allocated bytes in place without moving the
    /// offset (used to patch a reserved field once its value is known).
    pub fn write_bytes_at(&mut self, i: usize, data: &[u8])
        requires
            old(self).wf(),
            i + data@.len() <= old(self).offset(),
        ensures
            final(self).wf(),
            final(self).capacity() == old(self).capacity(),
            final(self).offset() == old(self).offset(),
            final(self).contents() == old(self).contents().take(i as int) + data@ + old(
                self,
            ).contents().skip(i + data@.len()),
    {
        let ghost orig = self.contents();
        let ghost orig_state = *self;
        let n = self.region.bytes.len();
        let mut j: usize = 0;
        while j < data.len()
            invariant
                0 <= j <= data@.len(),
                i + data@.len() <= n,
                self.region.bytes@.len() == n,
                self.wf(),
                self.capacity() == orig_state.capacity(),
                self.offset() == orig_state.offset(),
                self.contents().len() == orig.len(),
                forall|k: int| 0 <= k < i ==> self.contents()[k] == orig[k],
                forall|k: int| 0 <= k < j ==> self.contents()[i + k] == data@[k],
                forall|k: int| i + data@.len() <= k < orig.len() ==> self.contents()[k] == orig[k],
            decreases data@.len() - j,
        {
            self.region.bytes[i + j] = data[j];
            j = j + 1;
        }
        proof {
            assert(self.contents() =~= orig.take(i as int) + data@ + orig.skip(i + data@.len()));
        }
    }

    /// Read one allocated byte.
    pub fn get_byte(&self, i: usize) -> (r: u8)
        requires
            self.wf(),
            i < self.offset(),
        ensures
            r == self.contents()[i as int],
    {
        self.region.bytes[i]
    }

    /// Copy of the whole region, allocated or not.
    pub fn copy_contents(&self) -> (r: Vec<u8>)
        ensures
            r@ == self.contents(),
    {
        let n = self.region.bytes.len();
        let mut r: Vec<u8> = Vec::new();
        let mut i: usize = 0;
        while i < n
            invariant
                0 <= i <= n,
                n == self.region.bytes@.len(),
                r@.len() == i,
                forall|k: int| 0 <= k < i ==> r@[k] == self.region.bytes@[k],
            decreases n - i,
        {
            r.push(self.region.bytes[i]);
            i = i + 1;
        }
        proof {
            assert(r@ =~= self.contents());
        }
        r
    }

    /// The region's total size in bytes.
    pub fn get_buffer_size(&self) -> (r: usize)
        ensures
            r == self.capacity(),
    {
        self.region.bytes.len()
    }

    /// How many bytes are currently allocated.
    pub fn current_offset(&self) -> (r: usize)
        ensures
            r == self.offset(),
    {
        self.region.offset
    }
}

/// Sum of a sequence of requested allocation sizes.
pub open spec fn sum_sizes(sizes: Seq<usize>) -> int
    decreases sizes.len(),
{
    if sizes.len() == 0 {
        0
    } else {
        sum_sizes(sizes.drop_last()) + sizes.last()
    }
}

/// The offset after folding a sequence of `alloc` calls over an arena with
/// the given capacity, starting from `offset`; `None` as soon as one call
/// fails. Mirrors the contract of [`RegionAllocator::alloc`]: a successful
/// call advances the offset by the requested size, a failing call is the
/// end of the all-successful sequence.
pub open spec fn offset_after_allocs(offset: int, capacity: int, sizes: Seq<usize>) -> Option<int>
    decreases sizes.len(),
{
    if sizes.len() == 0 {
        Some(offset)
    } else {
        match offset_after_allocs(offset, capacity, sizes.drop_last()) {
            Some(o) => if o + sizes.last() <= capacity {
                Some(o + sizes.last())
            } else {
                None
            },
            None => None,
        }
    }
}

/// Arena monotonicity: for every sequence of `alloc` calls that each
/// succeed, the offset after the sequence equals the starting offset plus
/// the sum of the requested sizes. (That a failing `alloc` never changes
/// the offset is part of the contract of [`RegionAllocator::alloc`].)
pub proof fn lemma_alloc_monotonic(offset: int, capacity: int, sizes: Seq<usize>)
    requires
        offset_after_allocs(offset, capacity, sizes) is Some,
    ensures
        offset_after_allocs(offset, capacity, sizes) == Some(offset + sum_sizes(sizes)),
    decreases sizes.len(),
{
    if sizes.len() > 0 {
        lemma_alloc_monotonic(offset, capacity, sizes.drop_last());
    }
}

/// Clear resets exactly: after `clear()` the offset is 0 whatever was
/// allocated before, and an allocation of the full original capacity
/// succeeds again. Stated over the same model of `alloc` that
/// [`offset_after_allocs`] uses; the offset-is-0 half is the contract of
/// [`RegionAllocator::clear`] itself.
pub proof fn lemma_clear_then_full_alloc(capacity: usize)
    ensures
        offset_after_allocs(0, capacity as int, seq![capacity]) == Some(capacity as int),
{
    let sizes = seq![capacity];
    assert(sizes.drop_last() =~= Seq::<usize>::empty());
    assert(offset_after_allocs(0, capacity as int, Seq::<usize>::empty()) == Some(0int));
    assert(sizes.last() == capacity);
}

} // verus!
