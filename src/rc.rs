use vstd::prelude::*;

use crate::atomic::{Atomic, Ordering};
use crate::error::OutOfMemory;
use crate::page_alloc::{PageAllocator, PAGE_SIZE};
use crate::raw_alloc::{class_alloc_ok, class_of, effective_size, KAllocator, MAX_SIZE_CLASS, NUM_SIZE_CLASSES};

verus! {

/// Add one to the count unless it is saturated at `usize::MAX`; returns the
/// new count.
pub fn increment_atomic_saturating(counter: &mut Atomic<usize>) -> (r: usize)
    ensures
        old(counter)@ == usize::MAX ==> r == usize::MAX,
        old(counter)@ < usize::MAX ==> r == old(counter)@ + 1,
        final(counter)@ == r,
{
    let old_count = counter.load(Ordering::Relaxed);
    let new_count = if old_count == usize::MAX { old_count } else { old_count + 1 };
    match counter.compare_exchange_weak(old_count, new_count, Ordering::Relaxed, Ordering::Relaxed) {
        Ok(_) => new_count,
        Err(updated_count) => updated_count,
    }
}

/// Take one from the count unless it is saturated at `usize::MAX`, which
/// stays for ever; returns the new count.
pub fn decrement_if_unsaturated(counter: &mut Atomic<usize>) -> (r: usize)
    ensures
        old(counter)@ == usize::MAX ==> r == usize::MAX,
        old(counter)@ == 0 ==> r == 0,
        0 < old(counter)@ < usize::MAX ==> r == old(counter)@ - 1,
        final(counter)@ == r,
{
    let old_count = counter.load(Ordering::Relaxed);
    if old_count == usize::MAX {
        return old_count;
    }
    let new_count = if old_count == 0 { 0 } else { old_count - 1 };
    match counter.compare_exchange_weak(old_count, new_count, Ordering::Release, Ordering::Relaxed) {
        Ok(_) => new_count,
        Err(updated_count) => updated_count,
    }
}

/// A reference-counted allocation: the count of live handles and the payload,
/// in a header block of the size-class allocator. When the last handle goes
/// the payload is destroyed and the header freed; a count that reached
/// `usize::MAX` never moves again, and its payload and header are never
/// freed.
pub struct KrcBox<T> {
    refcount: Atomic<usize>,
    value: Option<T>,
    header: usize,
    header_size: usize,
}

/// The alignment of a box's header.
pub const HEADER_ALIGN: usize = 8;

impl<T> KrcBox<T> {
    /// The number of live handles.
    pub closed spec fn count(&self) -> usize {
        self.refcount@
    }

    /// The payload, until it is destroyed.
    pub closed spec fn payload(&self) -> Option<T> {
        self.value
    }

    /// The address of the header block in the size-class allocator.
    pub closed spec fn header(&self) -> usize {
        self.header
    }

    /// The size the header block was asked for with.
    pub closed spec fn header_size(&self) -> usize {
        self.header_size
    }

    /// Alive: at least one handle and a payload, and a header that a size
    /// class serves.
    pub open spec fn is_live(&self) -> bool {
        &&& self.count() >= 1
        &&& self.payload() is Some
        &&& 0 < self.header_size() <= MAX_SIZE_CLASS
    }

    /// A new allocation with one handle: a header of `size` bytes from the
    /// size-class allocator holds the count and the payload.
    pub fn new(value: T, size: usize, heap: &mut KAllocator, pages: &mut PageAllocator) -> (r: Result<
        KrcBox<T>,
        OutOfMemory,
    >)
        requires
            old(pages).wf(),
            old(pages).free_ram_end + PAGE_SIZE <= usize::MAX,
            old(pages).free_ram_end % PAGE_SIZE == 0,
            old(heap).wf(old(pages).free_ram_end),
            0 < size <= MAX_SIZE_CLASS,
        ensures
            final(pages).wf(),
            final(pages).free_ram == old(pages).free_ram,
            final(pages).free_ram_end == old(pages).free_ram_end,
            final(heap).wf(final(pages).free_ram_end),
            final(pages).owned().subset_of(old(pages).owned()),
            final(pages).next <= old(pages).next + PAGE_SIZE,
            r is Ok <==> class_alloc_ok(*old(heap), *old(pages), effective_size(size, HEADER_ALIGN)),
            r is Err ==> *final(pages) == *old(pages),
            r matches Ok(b) ==> b.count() == 1 && b.payload() == Some(value) && b.header_size() == size
                && b.is_live(),
    {
        match heap.allocate_inner(pages, size, HEADER_ALIGN) {
            Ok((header, _)) => Ok(KrcBox { refcount: Atomic::new(1), value: Some(value), header, header_size: size }),
            Err(e) => Err(e),
        }
    }

    /// Whether exactly one handle exists.
    pub fn is_unique(this: &Self) -> (r: bool)
        ensures
            r == (this.count() == 1),
    {
        this.refcount.load(Ordering::Acquire) == 1
    }

    /// The payload.
    pub fn get(&self) -> (r: &T)
        requires
            self.is_live(),
        ensures
            Some(*r) == self.payload(),
    {
        self.value.as_ref().unwrap()
    }

    /// Exclusive access to the payload.
    pub fn get_mut(&mut self) -> (r: &mut T)
        requires
            old(self).is_live(),
        ensures
            Some(*r) == old(self).payload(),
            final(self).payload() == Some(*final(r)),
            final(self).count() == old(self).count(),
            final(self).header() == old(self).header(),
            final(self).header_size() == old(self).header_size(),
    {
        self.value.as_mut().unwrap()
    }

    /// One more handle: the count goes up by one, or stays saturated.
    pub fn clone_handle(&mut self)
        requires
            old(self).is_live(),
        ensures
            final(self).payload() == old(self).payload(),
            final(self).header() == old(self).header(),
            final(self).header_size() == old(self).header_size(),
            old(self).count() == usize::MAX ==> final(self).count() == usize::MAX,
            old(self).count() < usize::MAX ==> final(self).count() == old(self).count() + 1,
    {
        increment_atomic_saturating(&mut self.refcount);
    }

    /// One handle less. When the last handle goes the payload is destroyed
    /// and handed back, once, and the header goes back to its size class;
    /// a saturated count never drops, destroys or frees.
    pub fn drop_handle(&mut self, heap: &mut KAllocator) -> (r: Option<T>)
        requires
            old(self).is_live(),
            old(heap).classes@.len() == NUM_SIZE_CLASSES,
        ensures
            final(heap).classes@.len() == NUM_SIZE_CLASSES,
            forall|end: usize| old(heap).wf(end) ==> #[trigger] final(heap).wf(end),
            final(self).header_size() == old(self).header_size(),
            old(self).count() == usize::MAX ==> r is None && final(self).count() == usize::MAX
                && final(self).payload() == old(self).payload() && *final(heap) == *old(heap),
            old(self).count() == 1 ==> {
                let c = class_of(effective_size(old(self).header_size(), HEADER_ALIGN)) as int;
                &&& r == old(self).payload()
                &&& final(self).count() == 0
                &&& final(self).payload() is None
                &&& final(heap).classes@[c].free_list@ == old(heap).classes@[c].free_list@.push(old(self).header())
                &&& final(heap).classes@[c].fresh_head == old(heap).classes@[c].fresh_head
                &&& forall|j: int| 0 <= j < NUM_SIZE_CLASSES && j != c ==> final(heap).classes@[j] == old(heap).classes@[j]
            },
            1 < old(self).count() < usize::MAX ==> r is None && final(self).count() == old(
                self,
            ).count() - 1 && final(self).payload() == old(self).payload() && *final(heap) == *old(heap),
    {
        if decrement_if_unsaturated(&mut self.refcount) == 0 {
            heap.deallocate_inner(self.header, self.header_size, HEADER_ALIGN);
            self.value.take()
        } else {
            None
        }
    }
}

} // verus!
