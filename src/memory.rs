use vstd::prelude::*;

use crate::error::OutOfMemory;
use crate::page_alloc::{alloc_pages, frames, PageAllocator, PAGE_SIZE};

verus! {

/// The bytes of physical memory `[base, base + bytes.len())`.
pub struct PhysicalMemory {
    pub base: usize,
    pub bytes: Vec<u8>,
}

impl PhysicalMemory {
    /// Whether `[addr, addr + len)` lies inside this memory.
    pub open spec fn holds(&self, addr: int, len: int) -> bool {
        self.base <= addr && addr + len <= self.base + self.bytes@.len()
    }

    /// The byte at physical address `addr`.
    pub open spec fn byte(&self, addr: int) -> u8 {
        self.bytes@[addr - self.base]
    }

    /// `size` zero bytes starting at `base`.
    pub fn new(base: usize, size: usize) -> (r: PhysicalMemory)
        requires
            base + size <= usize::MAX,
        ensures
            r.base == base,
            r.bytes@.len() == size,
            forall|i: int| 0 <= i < size ==> r.bytes@[i] == 0,
    {
        let mut bytes: Vec<u8> = Vec::new();
        let mut i: usize = 0;
        while i < size
            invariant
                i <= size,
                bytes@.len() == i,
                forall|j: int| 0 <= j < i ==> bytes@[j] == 0,
            decreases size - i,
        {
            bytes.push(0);
            i += 1;
        }
        PhysicalMemory { base, bytes }
    }

    /// Whether `[addr, addr + len)` lies inside this memory.
    pub fn contains(&self, addr: usize, len: usize) -> (r: bool)
        requires
            self.base + self.bytes@.len() <= usize::MAX,
        ensures
            r == self.holds(addr as int, len as int),
    {
        addr >= self.base && len <= self.bytes.len() && addr - self.base <= self.bytes.len() - len
    }

    /// Copy `data` to physical address `addr`.
    pub fn write_bytes(&mut self, addr: usize, data: &[u8])
        requires
            old(self).holds(addr as int, data@.len() as int),
        ensures
            final(self).base == old(self).base,
            final(self).bytes@.len() == old(self).bytes@.len(),
            forall|a: int|
                #![trigger final(self).byte(a)]
                old(self).holds(a, 1) ==> final(self).byte(a) == if addr <= a < addr + data@.len() {
                    data@[a - addr]
                } else {
                    old(self).byte(a)
                },
    {
        let off = addr - self.base;
        let n = self.bytes.len();
        let mut i: usize = 0;
        while i < data.len()
            invariant
                n == self.bytes@.len(),
                off == addr - self.base,
                self.base == old(self).base,
                self.bytes@.len() == old(self).bytes@.len(),
                old(self).holds(addr as int, data@.len() as int),
                i <= data@.len(),
                forall|a: int|
                    #![trigger self.byte(a)]
                    old(self).holds(a, 1) ==> self.byte(a) == if addr <= a < addr + i {
                        data@[a - addr]
                    } else {
                        old(self).byte(a)
                    },
            decreases data@.len() - i,
        {
            assert(off + i < self.bytes@.len());
            let ghost prev_mem = *self;
            let ghost prev = self.bytes@;
            self.bytes.set(off + i, data[i]);
            proof {
                assert forall|a: int| #![trigger self.byte(a)] old(self).holds(a, 1) implies self.byte(a)
                    == if addr <= a < addr + i + 1 {
                    data@[a - addr]
                } else {
                    old(self).byte(a)
                } by {
                    assert(prev_mem.byte(a) == prev[a - self.base]);
                    assert(self.bytes@[a - self.base] == if a - self.base == off + i {
                        data@[i as int]
                    } else {
                        prev[a - self.base]
                    });
                }
            }
            i += 1;
        }
    }

    /// Set `len` bytes from `addr` to zero.
    pub fn zero(&mut self, addr: usize, len: usize)
        requires
            old(self).holds(addr as int, len as int),
        ensures
            final(self).base == old(self).base,
            final(self).bytes@.len() == old(self).bytes@.len(),
            forall|a: int|
                #![trigger final(self).byte(a)]
                old(self).holds(a, 1) ==> final(self).byte(a) == if addr <= a < addr + len {
                    0u8
                } else {
                    old(self).byte(a)
                },
    {
        let off = addr - self.base;
        let n = self.bytes.len();
        let mut i: usize = 0;
        while i < len
            invariant
                n == self.bytes@.len(),
                off == addr - self.base,
                self.base == old(self).base,
                self.bytes@.len() == old(self).bytes@.len(),
                old(self).holds(addr as int, len as int),
                i <= len,
                forall|a: int|
                    #![trigger self.byte(a)]
                    old(self).holds(a, 1) ==> self.byte(a) == if addr <= a < addr + i {
                        0u8
                    } else {
                        old(self).byte(a)
                    },
            decreases len - i,
        {
            assert(off + i < self.bytes@.len());
            let ghost prev_mem = *self;
            let ghost prev = self.bytes@;
            self.bytes.set(off + i, 0);
            proof {
                assert forall|a: int| #![trigger self.byte(a)] old(self).holds(a, 1) implies self.byte(a)
                    == if addr <= a < addr + i + 1 {
                    0u8
                } else {
                    old(self).byte(a)
                } by {
                    assert(prev_mem.byte(a) == prev[a - self.base]);
                    assert(self.bytes@[a - self.base] == if a - self.base == off + i {
                        0u8
                    } else {
                        prev[a - self.base]
                    });
                }
            }
            i += 1;
        }
    }

    /// The `len` bytes at physical address `addr`.
    pub fn read_bytes(&self, addr: usize, len: usize) -> (r: Vec<u8>)
        requires
            self.holds(addr as int, len as int),
        ensures
            r@.len() == len,
            forall|i: int| 0 <= i < len ==> r@[i] == self.byte(addr + i),
    {
        let off = addr - self.base;
        let n = self.bytes.len();
        let mut out: Vec<u8> = Vec::new();
        let mut i: usize = 0;
        while i < len
            invariant
                n == self.bytes@.len(),
                off == addr - self.base,
                self.holds(addr as int, len as int),
                i <= len,
                out@.len() == i,
                forall|j: int| 0 <= j < i ==> out@[j] == self.byte(addr + j),
            decreases len - i,
        {
            assert(off + i < self.bytes@.len());
            out.push(self.bytes[off + i]);
            i += 1;
        }
        out
    }
}

/// Allocate `num_pages` frames as `alloc_pages` does and fill them with
/// zeros.
pub fn alloc_pages_zeroed(alloc: &mut PageAllocator, mem: &mut PhysicalMemory, num_pages: usize) -> (r: Result<
    usize,
    OutOfMemory,
>)
    requires
        old(alloc).wf(),
        num_pages <= usize::MAX / PAGE_SIZE,
        old(mem).holds(old(alloc).free_ram as int, old(alloc).free_ram_end - old(alloc).free_ram),
    ensures
        final(alloc).wf(),
        final(alloc).free_ram == old(alloc).free_ram,
        final(alloc).free_ram_end == old(alloc).free_ram_end,
        final(mem).base == old(mem).base,
        final(mem).bytes@.len() == old(mem).bytes@.len(),
        r is Err <==> (!old(alloc).has_run_of(num_pages) && old(alloc).next + num_pages * PAGE_SIZE
            > old(alloc).free_ram_end),
        r is Err ==> *final(alloc) == *old(alloc) && final(mem).bytes@ == old(mem).bytes@,
        final(alloc).next <= old(alloc).next + num_pages * PAGE_SIZE,
        r matches Ok(p) ==> {
            &&& p % PAGE_SIZE == 0
            &&& old(alloc).free_ram <= p
            &&& p + num_pages * PAGE_SIZE <= old(alloc).free_ram_end
            &&& frames(p as int, num_pages as int).subset_of(old(alloc).owned())
            &&& final(alloc).owned() == old(alloc).owned().difference(frames(p as int, num_pages as int))
            &&& forall|a: int| #![trigger final(mem).byte(a)] old(mem).holds(a, 1) ==> final(mem).byte(a)
                == if p <= a < p + num_pages * PAGE_SIZE { 0u8 } else { old(mem).byte(a) }
        },
{
    let p = match alloc_pages(alloc, num_pages) {
        Ok(p) => p,
        Err(e) => {
            return Err(e);
        },
    };
    mem.zero(p, num_pages * PAGE_SIZE);
    Ok(p)
}

} // verus!
