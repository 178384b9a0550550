use vstd::prelude::*;

use crate::error::OutOfMemory;
use crate::page_alloc::{alloc_pages, free_pages, frames, PageAllocator, PAGE_SIZE};

verus! {

/// The smallest size class, in bytes.
pub const MIN_SIZE_CLASS: usize = 16;

/// The largest size class, in bytes.
pub const MAX_SIZE_CLASS: usize = 2048;

/// The number of size classes: 16, 32, ..., 2048.
pub const NUM_SIZE_CLASSES: usize = 8;

/// The block size of size class `i`: `16 << i`.
pub open spec fn class_raw_size(i: nat) -> nat
    decreases i,
{
    if i == 0 {
        16
    } else {
        2 * class_raw_size((i - 1) as nat)
    }
}

/// The first size class from `i` on whose blocks hold `size` bytes (the last
/// class if none does).
pub open spec fn class_from(size: nat, i: nat) -> nat
    decreases NUM_SIZE_CLASSES - i,
{
    if i + 1 >= NUM_SIZE_CLASSES || size <= class_raw_size(i) {
        i
    } else {
        class_from(size, i + 1)
    }
}

/// The size class that serves `size` bytes.
pub open spec fn class_of(size: nat) -> nat {
    class_from(size, 0)
}

/// The smallest size class whose blocks hold `size` bytes, with its block
/// size; `None` for sizes above the largest class.
pub fn class_for_size(size: usize) -> (r: Option<(usize, usize)>)
    ensures
        size > MAX_SIZE_CLASS <==> r is None,
        r matches Some((i, raw)) ==> {
            &&& i < NUM_SIZE_CLASSES
            &&& raw == class_raw_size(i as nat)
            &&& size <= raw
            &&& i == 0 || class_raw_size((i - 1) as nat) < size
            &&& i == class_of(size as nat)
        },
{
    if size > MAX_SIZE_CLASS {
        return None;
    }
    let mut i: usize = 0;
    let mut raw: usize = MIN_SIZE_CLASS;
    while raw < size
        invariant
            size <= MAX_SIZE_CLASS,
            i < NUM_SIZE_CLASSES,
            raw == class_raw_size(i as nat),
            raw <= MAX_SIZE_CLASS,
            i == 0 || class_raw_size((i - 1) as nat) < size,
            raw == MAX_SIZE_CLASS <==> i == NUM_SIZE_CLASSES - 1,
            class_of(size as nat) == class_from(size as nat, i as nat),
        decreases MAX_SIZE_CLASS - raw,
    {
        proof {
            lemma_class_sizes(i as nat);
        }
        raw = raw * 2;
        i = i + 1;
        proof {
            lemma_class_sizes(i as nat);
        }
    }
    Some((i, raw))
}

/// The block sizes of the classes, one by one.
proof fn lemma_class_sizes(i: nat)
    requires
        i < NUM_SIZE_CLASSES,
    ensures
        class_raw_size(i) == MAX_SIZE_CLASS <==> i == NUM_SIZE_CLASSES - 1,
        class_raw_size(i) <= MAX_SIZE_CLASS,
        PAGE_SIZE as int % class_raw_size(i) as int == 0,
        class_raw_size(i) >= 16,
{
    reveal_with_fuel(class_raw_size, 8);
    assert(class_raw_size(0) == 16);
    assert(class_raw_size(1) == 32);
    assert(class_raw_size(2) == 64);
    assert(class_raw_size(3) == 128);
    assert(class_raw_size(4) == 256);
    assert(class_raw_size(5) == 512);
    assert(class_raw_size(6) == 1024);
    assert(class_raw_size(7) == 2048);
    if i == 0 {
        assert(4096int % 16int == 0);
    } else if i == 1 {
        assert(4096int % 32int == 0);
    } else if i == 2 {
        assert(4096int % 64int == 0);
    } else if i == 3 {
        assert(4096int % 128int == 0);
    } else if i == 4 {
        assert(4096int % 256int == 0);
    } else if i == 5 {
        assert(4096int % 512int == 0);
    } else if i == 6 {
        assert(4096int % 1024int == 0);
    } else {
        assert(4096int % 2048int == 0);
    }
}

/// A page-aligned address is a multiple of every block size.
proof fn lemma_aligned_multiple(x: int, s: int)
    requires
        x >= 0,
        s > 0,
        x % PAGE_SIZE as int == 0,
        PAGE_SIZE as int % s == 0,
    ensures
        x % s == 0,
{
    let a = x / PAGE_SIZE as int;
    let k = PAGE_SIZE as int / s;
    vstd::arithmetic::div_mod::lemma_fundamental_div_mod(x, PAGE_SIZE as int);
    vstd::arithmetic::div_mod::lemma_fundamental_div_mod(PAGE_SIZE as int, s);
    assert(x == (a * k) * s) by (nonlinear_arith)
        requires
            x == PAGE_SIZE as int * a,
            PAGE_SIZE as int == s * k,
    ;
    vstd::arithmetic::div_mod::lemma_mod_multiples_basic(a * k, s);
}

/// A block cut inside a page that is not used up ends at or before `end`.
proof fn lemma_block_fits(x: int, s: int, e: int)
    requires
        x >= 0,
        s > 0,
        x % s == 0,
        PAGE_SIZE as int % s == 0,
        x % PAGE_SIZE as int != 0,
        x <= e,
        e % PAGE_SIZE as int == 0,
    ensures
        x + s <= e,
{
    let q = x / s;
    let k = PAGE_SIZE as int / s;
    let m = e / PAGE_SIZE as int;
    vstd::arithmetic::div_mod::lemma_fundamental_div_mod(x, s);
    vstd::arithmetic::div_mod::lemma_fundamental_div_mod(PAGE_SIZE as int, s);
    vstd::arithmetic::div_mod::lemma_fundamental_div_mod(e, PAGE_SIZE as int);
    assert(x != e);
    let km = k * m;
    vstd::arithmetic::mul::lemma_mul_is_associative(s, k, m);
    assert(e == km * s);
    assert(x == q * s);
    vstd::arithmetic::mul::lemma_mul_strict_inequality_converse(q, km, s);
    vstd::arithmetic::mul::lemma_mul_inequality(q + 1, km, s);
    assert((q + 1) * s == q * s + s) by (nonlinear_arith);
}

/// The allocator of one size class: a stack of freed blocks and a cursor
/// into the page that fresh blocks are cut from.
pub struct FixedSizeAllocator {
    pub free_list: Vec<usize>,
    pub fresh_head: usize,
}

impl FixedSizeAllocator {
    /// An allocator with no page and no freed block.
    pub fn new() -> (r: FixedSizeAllocator)
        ensures
            r.free_list@.len() == 0,
            r.fresh_head == 0,
    {
        FixedSizeAllocator { free_list: Vec::new(), fresh_head: 0 }
    }

    /// Fresh blocks are cut at multiples of the block size, below `end`.
    pub open spec fn wf(&self, size: nat, end: usize) -> bool {
        &&& self.fresh_head as int % size as int == 0
        &&& self.fresh_head <= end
    }

    /// A block of `size` bytes: the last freed one if any, else the next one
    /// cut from the current page, taking a new page when that one is used up.
    pub fn allocate(&mut self, pages: &mut PageAllocator, size: usize) -> (r: Result<
        usize,
        OutOfMemory,
    >)
        requires
            old(pages).wf(),
            old(pages).free_ram_end + PAGE_SIZE <= usize::MAX,
            16 <= size <= PAGE_SIZE,
            PAGE_SIZE as int % size as int == 0,
            old(self).wf(size as nat, old(pages).free_ram_end),
            old(pages).free_ram_end % PAGE_SIZE == 0,
        ensures
            r is Err ==> final(self).free_list@ == old(self).free_list@ && final(self).fresh_head == old(self).fresh_head
                && *final(pages) == *old(pages),
            final(pages).next <= old(pages).next + PAGE_SIZE,
            final(pages).owned().subset_of(old(pages).owned()),
            final(pages).wf(),
            final(pages).free_ram == old(pages).free_ram,
            final(pages).free_ram_end == old(pages).free_ram_end,
            final(self).wf(size as nat, final(pages).free_ram_end),
            old(self).free_list@.len() > 0 ==> {
                &&& r == Ok::<usize, OutOfMemory>(old(self).free_list@.last())
                &&& final(self).free_list@ == old(self).free_list@.drop_last()
                &&& final(self).fresh_head == old(self).fresh_head
                &&& *final(pages) == *old(pages)
            },
            old(self).free_list@.len() == 0 && old(self).fresh_head % PAGE_SIZE != 0 ==> {
                &&& r == Ok::<usize, OutOfMemory>(old(self).fresh_head)
                &&& final(self).fresh_head == old(self).fresh_head + size
                &&& *final(pages) == *old(pages)
            },
            old(self).free_list@.len() == 0 && old(self).fresh_head % PAGE_SIZE == 0 ==> {
                &&& r is Err <==> (!old(pages).has_run_of(1) && old(pages).next + PAGE_SIZE
                    > old(pages).free_ram_end)
                &&& r matches Ok(p) ==> p % PAGE_SIZE == 0 && frames(p as int, 1).subset_of(
                    old(pages).owned(),
                ) && final(pages).owned() == old(pages).owned().difference(frames(p as int, 1))
                    && final(self).fresh_head == p + size
            },
    {
        match self.free_list.pop() {
            Some(block) => {
                return Ok(block);
            },
            None => {},
        }
        if self.fresh_head % PAGE_SIZE == 0 {
            match alloc_pages(pages, 1) {
                Ok(page) => {
                    self.fresh_head = page;
                },
                Err(e) => {
                    return Err(e);
                },
            }
        }
        let block = self.fresh_head;
        proof {
            if block % PAGE_SIZE == 0 {
                lemma_aligned_multiple(block as int, size as int);
            } else {
                lemma_block_fits(block as int, size as int, pages.free_ram_end as int);
            }
            vstd::arithmetic::div_mod::lemma_mod_add_multiples_vanish(block as int, size as int);
        }
        self.fresh_head = block + size;
        Ok(block)
    }

    /// Put a block back on the stack of freed blocks.
    pub fn deallocate(&mut self, block: usize)
        ensures
            final(self).free_list@ == old(self).free_list@.push(block),
            final(self).fresh_head == old(self).fresh_head,
    {
        self.free_list.push(block);
    }
}

/// The kernel's allocator of small objects: one block allocator per size
/// class, with requests above the largest class served by whole pages.
pub struct KAllocator {
    pub classes: Vec<FixedSizeAllocator>,
}

/// Whether the size class that serves `size` bytes can hand out a block:
/// it has a freed one, room in its current page, or a page can be had.
pub open spec fn class_alloc_ok(heap: KAllocator, pages: PageAllocator, size: nat) -> bool {
    let c = class_of(size) as int;
    ||| heap.classes@[c].free_list@.len() > 0
    ||| heap.classes@[c].fresh_head % PAGE_SIZE != 0
    ||| pages.has_run_of(1)
    ||| pages.next + PAGE_SIZE <= pages.free_ram_end
}

/// Where a request of `size` bytes aligned to `align` is served from.
pub open spec fn effective_size(size: usize, align: usize) -> nat {
    if size >= align {
        size as nat
    } else {
        align as nat
    }
}

/// The pages that a request above the largest class takes.
pub open spec fn pages_for(size: nat) -> nat {
    ((size + PAGE_SIZE - 1) / PAGE_SIZE as int) as nat
}

impl KAllocator {
    /// Every size class keeps its invariant below `end`.
    pub open spec fn wf(&self, end: usize) -> bool {
        &&& self.classes@.len() == NUM_SIZE_CLASSES
        &&& forall|i: int|
            0 <= i < NUM_SIZE_CLASSES ==> (#[trigger] self.classes@[i]).wf(
                class_raw_size(i as nat),
                end,
            )
    }

    /// An allocator whose classes hold no page yet.
    pub fn new() -> (r: KAllocator)
        ensures
            forall|end: usize| r.wf(end),
            forall|i: int| 0 <= i < NUM_SIZE_CLASSES ==> (#[trigger] r.classes@[i]).free_list@.len()
                == 0,
    {
        let mut classes: Vec<FixedSizeAllocator> = Vec::new();
        let mut i: usize = 0;
        while i < NUM_SIZE_CLASSES
            invariant
                i <= NUM_SIZE_CLASSES,
                classes@.len() == i,
                forall|j: int|
                    0 <= j < i ==> (#[trigger] classes@[j]).fresh_head == 0
                        && classes@[j].free_list@.len() == 0,
            decreases NUM_SIZE_CLASSES - i,
        {
            classes.push(FixedSizeAllocator::new());
            i += 1;
        }
        proof {
            assert forall|end: usize, j: int| 0 <= j < NUM_SIZE_CLASSES implies #[trigger] classes@[
                j].wf(class_raw_size(j as nat), end) by {
                lemma_class_sizes(j as nat);
                assert(classes@[j].fresh_head == 0);
            }
            assert forall|end: usize| #[trigger] (KAllocator { classes }).wf(end) by {
                assert(forall|j: int|
                    0 <= j < NUM_SIZE_CLASSES ==> #[trigger] classes@[j].wf(
                        class_raw_size(j as nat),
                        end,
                    ));
            }
        }
        KAllocator { classes }
    }

    /// Memory for `size` bytes aligned to `align`: the address and the length
    /// actually reserved. Empty requests get the alignment itself as a
    /// dangling address; requests above the largest class get whole pages.
    pub fn allocate_inner(&mut self, pages: &mut PageAllocator, size: usize, align: usize) -> (r:
        Result<(usize, usize), OutOfMemory>)
        requires
            old(pages).wf(),
            old(pages).free_ram_end + PAGE_SIZE <= usize::MAX,
            old(pages).free_ram_end % PAGE_SIZE == 0,
            old(self).wf(old(pages).free_ram_end),
            1 <= align <= PAGE_SIZE,
            size <= usize::MAX - PAGE_SIZE,
        ensures
            final(pages).wf(),
            final(pages).free_ram == old(pages).free_ram,
            final(pages).free_ram_end == old(pages).free_ram_end,
            final(self).wf(final(pages).free_ram_end),
            final(pages).owned().subset_of(old(pages).owned()),
            r is Err ==> *final(pages) == *old(pages) && final(self).classes@.len() == old(self).classes@.len()
                && forall|j: int| 0 <= j < old(self).classes@.len() ==> (#[trigger] final(self).classes@[j]).free_list@
                == old(self).classes@[j].free_list@ && final(self).classes@[j].fresh_head == old(self).classes@[j].fresh_head,
            size > 0 && effective_size(size, align) <= MAX_SIZE_CLASS ==> final(pages).next <= old(pages).next + PAGE_SIZE
                && (r is Ok <==> class_alloc_ok(*old(self), *old(pages), effective_size(size, align))),
            size == 0 ==> r == Ok::<(usize, usize), OutOfMemory>((align, 0usize)) && *final(self)
                == *old(self) && *final(pages) == *old(pages),
            r matches Ok((p, len)) ==> len >= size,
            size > 0 && effective_size(size, align) > MAX_SIZE_CLASS ==> {
                &&& r is Err <==> (!old(pages).has_run_of(pages_for(effective_size(size, align)) as usize)
                    && old(pages).next + pages_for(effective_size(size, align)) * PAGE_SIZE
                    > old(pages).free_ram_end)
                &&& r matches Ok((p, len)) ==> len == pages_for(effective_size(size, align))
                    * PAGE_SIZE && p % PAGE_SIZE == 0
                &&& final(self).classes@ == old(self).classes@
            },
            size > 0 && effective_size(size, align) <= MAX_SIZE_CLASS ==> {
                let c = class_of(effective_size(size, align)) as int;
                &&& old(self).classes@[c].free_list@.len() > 0 ==> r == Ok::<
                    (usize, usize),
                    OutOfMemory,
                >((old(self).classes@[c].free_list@.last(), class_raw_size(c as nat) as usize))
                    && final(self).classes@[c].free_list@ == old(
                    self,
                ).classes@[c].free_list@.drop_last()
                &&& old(self).classes@[c].free_list@.len() > 0 ==> *final(pages) == *old(pages)
                &&& (old(self).classes@[c].free_list@.len() == 0 && old(self).classes@[c].fresh_head % PAGE_SIZE != 0)
                    ==> r == Ok::<(usize, usize), OutOfMemory>(
                    (old(self).classes@[c].fresh_head, class_raw_size(c as nat) as usize),
                ) && *final(pages) == *old(pages)
                &&& (old(self).classes@[c].free_list@.len() == 0 && old(self).classes@[c].fresh_head % PAGE_SIZE == 0)
                    ==> (r is Err <==> (!old(pages).has_run_of(1) && old(pages).next + PAGE_SIZE > old(pages).free_ram_end))
                &&& r matches Ok((p, len)) ==> len == class_raw_size(c as nat)
                &&& forall|j: int| 0 <= j < NUM_SIZE_CLASSES && j != c ==> final(self).classes@[j] == old(self).classes@[j]
            },
    {
        if size == 0 {
            return Ok((align, 0));
        }
        let eff = if size >= align { size } else { align };
        match class_for_size(eff) {
            None => {
                let num_pages = eff / PAGE_SIZE + if eff % PAGE_SIZE == 0 { 0 } else { 1 };
                proof {
                    assert(num_pages == pages_for(eff as nat)) by {
                        vstd::arithmetic::div_mod::lemma_fundamental_div_mod(eff as int, PAGE_SIZE as int);
                        vstd::arithmetic::div_mod::lemma_fundamental_div_mod((eff + PAGE_SIZE - 1) as int, PAGE_SIZE as int);
                    }
                }
                match alloc_pages(pages, num_pages) {
                    Ok(p) => {
                        assert(num_pages * PAGE_SIZE >= eff) by (nonlinear_arith)
                            requires num_pages == eff / PAGE_SIZE + if eff % PAGE_SIZE == 0 { 0usize } else { 1usize },
                        ;
                        Ok((p, num_pages * PAGE_SIZE))
                    },
                    Err(e) => Err(e),
                }
            },
            Some((c, raw)) => {
                proof {
                    lemma_class_sizes(c as nat);
                    assert(self.classes@[c as int].wf(class_raw_size(c as nat), pages.free_ram_end));
                }
                let ghost old_classes = self.classes@;
                let res = self.classes[c].allocate(pages, raw);
                proof {
                    assert forall|i: int| 0 <= i < NUM_SIZE_CLASSES implies (
                    #[trigger] self.classes@[i]).wf(class_raw_size(i as nat), pages.free_ram_end) by {
                        if i != c {
                            assert(self.classes@[i] == old_classes[i]);
                        }
                    }
                }
                match res {
                    Ok(p) => Ok((p, raw)),
                    Err(e) => Err(e),
                }
            },
        }
    }

    /// Return a block of a size-class request; empty requests free nothing.
    pub fn deallocate_inner(&mut self, block: usize, size: usize, align: usize)
        requires
            effective_size(size, align) <= MAX_SIZE_CLASS,
            old(self).classes@.len() == NUM_SIZE_CLASSES,
        ensures
            final(self).classes@.len() == NUM_SIZE_CLASSES,
            size == 0 ==> *final(self) == *old(self),
            forall|end: usize| old(self).wf(end) ==> #[trigger] final(self).wf(end),
            size > 0 ==> {
                let c = class_of(effective_size(size, align)) as int;
                &&& final(self).classes@[c].free_list@ == old(self).classes@[c].free_list@.push(block)
                &&& final(self).classes@[c].fresh_head == old(self).classes@[c].fresh_head
                &&& forall|j: int| 0 <= j < NUM_SIZE_CLASSES && j != c ==> final(self).classes@[j] == old(self).classes@[j]
            },
    {
        if size == 0 {
            return;
        }
        let eff = if size >= align { size } else { align };
        match class_for_size(eff) {
            Some((c, raw)) => {
                self.classes[c].deallocate(block);
            },
            None => {},
        }
    }
}

/// Freeing a block and asking again for the same size hands back that very
/// block.
pub proof fn lemma_dealloc_then_alloc_same_block(
    k0: KAllocator,
    k1: KAllocator,
    size: usize,
    align: usize,
    block: usize,
    r: Result<(usize, usize), OutOfMemory>,
)
    requires
        k0.classes@.len() == NUM_SIZE_CLASSES,
        k1.classes@.len() == NUM_SIZE_CLASSES,
        size > 0,
        effective_size(size, align) <= MAX_SIZE_CLASS,
        k1.classes@[class_of(effective_size(size, align)) as int].free_list@ == k0.classes@[class_of(
            effective_size(size, align),
        ) as int].free_list@.push(block),
        ({
            let c = class_of(effective_size(size, align)) as int;
            k1.classes@[c].free_list@.len() > 0 ==> r == Ok::<(usize, usize), OutOfMemory>(
                (k1.classes@[c].free_list@.last(), class_raw_size(c as nat) as usize),
            )
        }),
    ensures
        r matches Ok((p, len)) && p == block && len >= size,
{
    let c = class_of(effective_size(size, align));
    lemma_class_of_fits(effective_size(size, align), 0);
    lemma_class_sizes(c);
    assert(k1.classes@[c as int].free_list@.last() == block);
}

/// The class that serves a size holds it.
proof fn lemma_class_of_fits(size: nat, i: nat)
    requires
        size <= MAX_SIZE_CLASS,
        i < NUM_SIZE_CLASSES,
    ensures
        size <= class_raw_size(class_from(size, i)),
        class_from(size, i) < NUM_SIZE_CLASSES,
    decreases NUM_SIZE_CLASSES - i,
{
    lemma_class_sizes(i);
    if i + 1 >= NUM_SIZE_CLASSES || size <= class_raw_size(i) {
    } else {
        lemma_class_of_fits(size, i + 1);
    }
}

} // verus!
