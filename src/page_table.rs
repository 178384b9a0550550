use vstd::prelude::*;

use crate::bitset::BitSet;
use crate::csr::AllowUserModeMemory;
use crate::error::OutOfMemory;
use crate::page_alloc::{alloc_pages, frames, pn, PageAllocator, PAGE_SIZE};
use crate::memory::PhysicalMemory;

verus! {

/// The number of entries in one page table.
pub const PAGE_TABLE_LENGTH: usize = 1024;

/// The bytes that one root entry spans: 4 MiB.
pub const MEGAPAGE_SIZE: usize = 0x40_0000;

/// The last address that Sv32 can reach.
pub const MAX_ADDRESS: usize = 0xffff_ffff;

pub const FLAG_VALID: u32 = 1;
pub const FLAG_READABLE: u32 = 2;
pub const FLAG_WRITABLE: u32 = 4;
pub const FLAG_EXECUTABLE: u32 = 8;
pub const FLAG_USER: u32 = 16;
pub const FLAGS_MASK: u32 = 31;

/// A physical byte address.
#[derive(Clone, Copy, Debug, PartialEq, Eq, Structural)]
pub struct PhysicalAddress(pub usize);

impl PhysicalAddress {
    /// Whether the address is a multiple of `align`.
    pub fn is_aligned(self, align: usize) -> (r: bool)
        requires
            align > 0,
        ensures
            r == (self.0 % align == 0),
    {
        self.0 % align == 0
    }

    /// Address zero.
    pub fn null() -> (r: PhysicalAddress)
        ensures
            r.0 == 0,
    {
        PhysicalAddress(0)
    }

    /// The address `offset` bytes further on.
    pub fn byte_add(self, offset: usize) -> (r: PhysicalAddress)
        requires
            self.0 + offset <= usize::MAX,
        ensures
            r.0 == self.0 + offset,
    {
        PhysicalAddress(self.0 + offset)
    }
}

/// The flag bits of a page-table entry: Valid, Readable, Writable, Executable
/// and UserAccessible, in bits 0 to 4.
#[derive(Clone, Copy, Debug, PartialEq, Eq, Structural)]
pub struct PageTableFlags {
    pub bits: u32,
}

impl PageTableFlags {
    /// The flags of the raw bits; bits above the five flags are dropped.
    pub fn from_bits(bits: u32) -> (r: PageTableFlags)
        ensures
            r.bits == bits & FLAGS_MASK,
    {
        PageTableFlags { bits: bits & FLAGS_MASK }
    }

    /// Both sets of flags.
    pub fn bit_or(self, other: PageTableFlags) -> (r: PageTableFlags)
        ensures
            r.bits == self.bits | other.bits,
    {
        PageTableFlags { bits: self.bits | other.bits }
    }

    /// Whether every flag of `other` is set here.
    pub fn contains(self, other: PageTableFlags) -> (r: bool)
        ensures
            r == (self.bits & other.bits == other.bits),
    {
        self.bits & other.bits == other.bits
    }

    /// Whether the Valid flag is set.
    pub fn valid(self) -> (r: bool)
        ensures
            r == (self.bits & FLAG_VALID != 0),
    {
        self.bits & FLAG_VALID != 0
    }
}

impl BitSet for PageTableFlags {
    type Repr = u32;

    fn as_inner(&self) -> &u32 {
        &self.bits
    }

    fn as_inner_mut(&mut self) -> &mut u32 {
        &mut self.bits
    }
}

/// The page-number bits of an entry that address memory below 4 GiB.
pub const PPN_MASK: u32 = 0xf_ffff;

/// The physical address that an entry points to.
pub open spec fn pte_addr(e: u32) -> int {
    ((e >> 10u32) & PPN_MASK) as int * PAGE_SIZE as int
}

/// The flags of an entry.
pub open spec fn pte_flags(e: u32) -> u32 {
    e & FLAGS_MASK
}

/// The entry for a page-aligned address below 4 GiB and the given flags.
pub open spec fn pte_of(addr: usize, flags: u32) -> u32 {
    (((addr / PAGE_SIZE) as u32) << 10u32) | (flags & FLAGS_MASK)
}

/// A page-table entry: flags in bits 0 to 4, the page number from bit 10.
#[derive(Clone, Copy, Debug, PartialEq, Eq, Structural)]
pub struct PageTableEntry(pub u32);

impl PageTableEntry {
    /// The entry that points at `addr` with `flags`.
    pub fn from_addr_flags(addr: PhysicalAddress, flags: PageTableFlags) -> (r: PageTableEntry)
        requires
            addr.0 % PAGE_SIZE == 0,
            addr.0 <= MAX_ADDRESS,
        ensures
            r.0 == pte_of(addr.0, flags.bits),
            pte_addr(r.0) == addr.0,
            pte_flags(r.0) == flags.bits & FLAGS_MASK,
    {
        let page = (addr.0 / PAGE_SIZE) as u32;
        let f = flags.bits;
        proof {
            lemma_pte_fields(page, f);
            assert(page as int * PAGE_SIZE as int == addr.0) by {
                vstd::arithmetic::div_mod::lemma_fundamental_div_mod(addr.0 as int, PAGE_SIZE as int);
            }
        }
        PageTableEntry((page << 10u32) | (f & FLAGS_MASK))
    }

    /// The physical address that the entry points to.
    pub fn physical_addr(self) -> (r: PhysicalAddress)
        ensures
            r.0 == pte_addr(self.0),
    {
        let raw = self.0;
        let page = (raw >> 10u32) & PPN_MASK;
        proof {
            assert(page <= 0xf_ffff) by (bit_vector)
                requires
                    page == (raw >> 10u32) & 0xf_ffffu32,
            ;
        }
        PhysicalAddress(page as usize * PAGE_SIZE)
    }

    /// The flags of the entry.
    pub fn flags(self) -> (r: PageTableFlags)
        ensures
            r.bits == pte_flags(self.0),
    {
        PageTableFlags { bits: self.0 & FLAGS_MASK }
    }
}

/// The fields of an entry built from a page number and flags read back.
proof fn lemma_pte_fields(page: u32, f: u32)
    requires
        page < 0x10_0000,
    ensures
        (((page << 10u32) | (f & FLAGS_MASK)) >> 10u32) & PPN_MASK == page,
        ((page << 10u32) | (f & FLAGS_MASK)) & FLAGS_MASK == f & FLAGS_MASK,
{
    assert((((page << 10u32) | (f & 31u32)) >> 10u32) & 0xf_ffffu32 == page) by (bit_vector)
        requires
            page < 0x10_0000u32,
    ;
    assert(((page << 10u32) | (f & 31u32)) & 31u32 == f & 31u32) by (bit_vector);
}

/// One page of 1,024 entries, at physical address `addr`.
pub struct PageTable {
    pub addr: usize,
    pub entries: Vec<PageTableEntry>,
}

impl PageTable {
    /// A table of invalid entries at `addr`.
    pub fn empty(addr: usize) -> (r: PageTable)
        ensures
            r.addr == addr,
            r.entries@.len() == PAGE_TABLE_LENGTH,
            forall|i: int| 0 <= i < PAGE_TABLE_LENGTH ==> (#[trigger] r.entries@[i]).0 == 0,
    {
        let mut entries: Vec<PageTableEntry> = Vec::new();
        let mut i: usize = 0;
        while i < PAGE_TABLE_LENGTH
            invariant
                i <= PAGE_TABLE_LENGTH,
                entries@.len() == i,
                forall|j: int| 0 <= j < i ==> (#[trigger] entries@[j]).0 == 0,
            decreases PAGE_TABLE_LENGTH - i,
        {
            entries.push(PageTableEntry(0));
            i += 1;
        }
        PageTable { addr, entries }
    }
}

/// The index into the root table for `va`.
pub open spec fn vpn1(va: int) -> int {
    (va / MEGAPAGE_SIZE as int) % PAGE_TABLE_LENGTH as int
}

/// The index into the second-level table for `va`.
pub open spec fn vpn0(va: int) -> int {
    (va / PAGE_SIZE as int) % PAGE_TABLE_LENGTH as int
}

/// An Sv32 two-level page table: the root table and the second-level
/// tables that its entries point to, each known by its physical address.
pub struct AddressSpace {
    pub root: PageTable,
    pub leaves: Vec<PageTable>,
}

impl AddressSpace {
    pub open spec fn root_entry(&self, va: int) -> u32 {
        self.root.entries@[vpn1(va)].0
    }

    /// Whether a second-level table sits at `addr`.
    pub open spec fn has_leaf(&self, addr: int) -> bool {
        exists|i: int| 0 <= i < self.leaves@.len() && #[trigger] self.leaves@[i].addr == addr
    }

    /// The second-level table at `addr`.
    pub open spec fn leaf_at(&self, addr: int) -> int {
        choose|i: int| 0 <= i < self.leaves@.len() && #[trigger] self.leaves@[i].addr == addr
    }

    /// The invariant: full-size tables at page-aligned addresses below 4 GiB,
    /// distinct addresses, and each valid root entry a pointer (no flags but
    /// Valid) to one of the second-level tables.
    pub open spec fn wf(&self) -> bool {
        &&& self.root.entries@.len() == PAGE_TABLE_LENGTH
        &&& self.root.addr % PAGE_SIZE == 0
        &&& self.root.addr <= MAX_ADDRESS
        &&& forall|i: int|
            0 <= i < self.leaves@.len() ==> {
                &&& (#[trigger] self.leaves@[i]).entries@.len() == PAGE_TABLE_LENGTH
                &&& self.leaves@[i].addr % PAGE_SIZE == 0
                &&& self.leaves@[i].addr <= MAX_ADDRESS
                &&& self.leaves@[i].addr != self.root.addr
            }
        &&& forall|i: int, j: int|
            0 <= i < self.leaves@.len() && 0 <= j < self.leaves@.len() && i != j ==> (
            #[trigger] self.leaves@[i]).addr != (#[trigger] self.leaves@[j]).addr
        &&& forall|k: int|
            0 <= k < PAGE_TABLE_LENGTH && (#[trigger] self.root.entries@[k]).0 & FLAG_VALID != 0
                ==> pte_flags(self.root.entries@[k].0) == FLAG_VALID && self.has_leaf(
                pte_addr(self.root.entries@[k].0),
            )
        &&& forall|k: int, l: int|
            0 <= k < PAGE_TABLE_LENGTH && 0 <= l < PAGE_TABLE_LENGTH && k != l && (
            #[trigger] self.root.entries@[k]).0 & FLAG_VALID != 0 && (
            #[trigger] self.root.entries@[l]).0 & FLAG_VALID != 0 ==> pte_addr(
                self.root.entries@[k].0,
            ) != pte_addr(self.root.entries@[l].0)
    }

    /// The second-level entry for `va`, if a second-level table covers it.
    pub open spec fn walk(&self, va: int) -> Option<u32> {
        let e1 = self.root_entry(va);
        if e1 & FLAG_VALID == 0 {
            None
        } else {
            Some(self.leaves@[self.leaf_at(pte_addr(e1))].entries@[vpn0(va)].0)
        }
    }

    /// The valid second-level entry for `va`, if there is one.
    pub open spec fn mapping(&self, va: int) -> Option<u32> {
        match self.walk(va) {
            Some(e) => if e & FLAG_VALID != 0 {
                Some(e)
            } else {
                None
            },
            None => None,
        }
    }

    /// Whether `va`'s page is mapped with every flag of `flags`.
    pub open spec fn has_flags(&self, va: int, flags: u32) -> bool {
        self.walk(va) matches Some(e) && e & flags == flags
    }

    /// The physical address that `va` translates to, when it is mapped.
    pub open spec fn translate(&self, va: int) -> int {
        pte_addr(self.walk(va)->0) + va % PAGE_SIZE as int
    }

    /// The frames that the tables themselves occupy.
    pub open spec fn table_frames(&self) -> Set<int> {
        Set::new(
            |pg: int|
                frames(self.root.addr as int, 1).contains(pg) || exists|i: int|
                    0 <= i < self.leaves@.len() && #[trigger] frames(
                        self.leaves@[i].addr as int,
                        1,
                    ).contains(pg),
        )
    }

    /// A space with an empty root table at `root_addr`.
    pub fn new(root_addr: usize) -> (r: AddressSpace)
        requires
            root_addr % PAGE_SIZE == 0,
            root_addr <= MAX_ADDRESS,
        ensures
            r.wf(),
            r.root.addr == root_addr,
            r.leaves@.len() == 0,
            forall|va: int| #[trigger] r.walk(va) is None,
    {
        let root = PageTable::empty(root_addr);
        let r = AddressSpace { root, leaves: Vec::new() };
        proof {
            assert forall|va: int| #[trigger] r.walk(va) is None by {
                assert(0 <= vpn1(va) < PAGE_TABLE_LENGTH);
                assert(r.root.entries@[vpn1(va)].0 == 0);
                assert(0u32 & FLAG_VALID == 0) by (bit_vector);
            }
            assert forall|k: int|
                0 <= k < PAGE_TABLE_LENGTH && (#[trigger] r.root.entries@[k]).0 & FLAG_VALID != 0
                    implies false by {
                assert(0u32 & 1u32 == 0) by (bit_vector);
            }
        }
        r
    }

    /// The index of the second-level table at `addr`.
    fn find_leaf(&self, addr: usize) -> (r: usize)
        requires
            self.wf(),
            self.has_leaf(addr as int),
        ensures
            r == self.leaf_at(addr as int),
            r < self.leaves@.len(),
    {
        let mut i: usize = 0;
        while i < self.leaves.len()
            invariant
                self.wf(),
                self.has_leaf(addr as int),
                i <= self.leaves@.len(),
                forall|j: int| 0 <= j < i ==> (#[trigger] self.leaves@[j]).addr != addr,
            decreases self.leaves@.len() - i,
        {
            if self.leaves[i].addr == addr {
                return i;
            }
            i += 1;
        }
        proof {
            let k = choose|k: int| 0 <= k < self.leaves@.len() && #[trigger] self.leaves@[k].addr == addr;
            assert(self.leaves@[k].addr != addr);
        }
        0
    }

    /// The second-level entry for `va`, if a second-level table covers it.
    pub fn entry_for_vaddr(&self, va: usize) -> (r: Option<PageTableEntry>)
        requires
            self.wf(),
        ensures
            r is None <==> self.walk(va as int) is None,
            r matches Some(e) ==> self.walk(va as int) == Some(e.0),
    {
        let k = (va / MEGAPAGE_SIZE) % PAGE_TABLE_LENGTH;
        let e1 = self.root.entries[k];
        let raw = e1.0;
        proof {
            assert((raw & 31u32) & 1u32 == raw & 1u32) by (bit_vector);
            assert(k as int == vpn1(va as int));
        }
        if !e1.flags().valid() {
            return None;
        }
        assert(self.root.entries@[k as int].0 & FLAG_VALID != 0);
        let i = self.find_leaf(e1.physical_addr().0);
        Some(self.leaves[i].entries[(va / PAGE_SIZE) % PAGE_TABLE_LENGTH])
    }
}

/// With distinct addresses, the table found at an address is the one there.
proof fn lemma_leaf_at_unique(space: AddressSpace, idx: int)
    requires
        space.wf(),
        0 <= idx < space.leaves@.len(),
    ensures
        space.has_leaf(space.leaves@[idx].addr as int),
        space.leaf_at(space.leaves@[idx].addr as int) == idx,
{
    let a = space.leaves@[idx].addr as int;
    assert(space.leaves@[idx].addr == a);
    let c = space.leaf_at(a);
    if c != idx {
        assert(space.leaves@[c].addr != space.leaves@[idx].addr);
    }
}

/// Map the page at `vaddr` to the frame at `paddr` with `flags` and Valid,
/// taking a frame for a second-level table when the root entry is invalid.
/// The page must not be mapped already.
pub fn map_page(
    space: &mut AddressSpace,
    pages: &mut PageAllocator,
    vaddr: usize,
    paddr: PhysicalAddress,
    flags: PageTableFlags,
) -> (r: Result<(), OutOfMemory>)
    requires
        old(space).wf(),
        old(pages).wf(),
        old(pages).free_ram_end <= MAX_ADDRESS,
        old(space).table_frames().disjoint(old(pages).owned()),
        vaddr % PAGE_SIZE == 0,
        paddr.0 % PAGE_SIZE == 0,
        paddr.0 <= MAX_ADDRESS,
        old(space).mapping(vaddr as int) is None,
    ensures
        final(pages).next <= old(pages).next + PAGE_SIZE,
        final(pages).owned().subset_of(old(pages).owned()),
        final(space).wf(),
        final(pages).wf(),
        final(pages).free_ram == old(pages).free_ram,
        final(pages).free_ram_end == old(pages).free_ram_end,
        final(space).table_frames().disjoint(final(pages).owned()),
        final(space).root.addr == old(space).root.addr,
        r is Err <==> (old(space).root_entry(vaddr as int) & FLAG_VALID == 0 && !old(pages).has_run_of(1) && old(pages).next + PAGE_SIZE > old(pages).free_ram_end),
        r is Err ==> *final(space) == *old(space) && *final(pages) == *old(pages),
        r is Ok ==> final(space).walk(vaddr as int) == Some(
            pte_of(paddr.0, flags.bits | FLAG_VALID),
        ),
        r is Ok ==> final(space).mapping(vaddr as int) == Some(
            pte_of(paddr.0, flags.bits | FLAG_VALID),
        ),
        r is Ok ==> pte_addr(final(space).walk(vaddr as int)->0) == paddr.0 && pte_flags(
            final(space).walk(vaddr as int)->0,
        ) == (flags.bits | FLAG_VALID) & FLAGS_MASK,
        r is Ok ==> forall|va: int|
            (vpn1(va) != vpn1(vaddr as int) || vpn0(va) != vpn0(vaddr as int)) ==> #[trigger] final(space).mapping(va)
                == old(space).mapping(va),
{
    let ghost s0 = *space;
    let ghost pages0 = *pages;
    let k1 = (vaddr / MEGAPAGE_SIZE) % PAGE_TABLE_LENGTH;
    let k0 = (vaddr / PAGE_SIZE) % PAGE_TABLE_LENGTH;
    assert(k1 as int == vpn1(vaddr as int));
    assert(k0 as int == vpn0(vaddr as int));
    let e1 = space.root.entries[k1];
    let raw = e1.0;
    proof {
        assert((raw & 31u32) & 1u32 == raw & 1u32) by (bit_vector);
    }
    if !e1.flags().valid() {
        let page = match alloc_pages(pages, 1) {
            Ok(p) => p,
            Err(e) => {
                return Err(e);
            },
        };
        let entry = PageTableEntry::from_addr_flags(
            PhysicalAddress(page),
            PageTableFlags { bits: FLAG_VALID },
        );
        proof {
            assert(pn(page as int) == pn(page as int));
            assert(frames(page as int, 1).contains(pn(page as int)));
            assert(pages0.owned().contains(pn(page as int)));
            assert forall|j: int| 0 <= j < s0.leaves@.len() implies (#[trigger] s0.leaves@[j]).addr
                != page by {
                assert(frames(s0.leaves@[j].addr as int, 1).contains(pn(s0.leaves@[j].addr as int)));
                assert(s0.table_frames().contains(pn(s0.leaves@[j].addr as int)));
                if s0.leaves@[j].addr == page {
                    assert(false);
                }
            }
            assert(frames(s0.root.addr as int, 1).contains(pn(s0.root.addr as int)));
            assert(s0.table_frames().contains(pn(s0.root.addr as int)));
            assert(s0.root.addr != page);
            assert(1u32 & 31u32 == 1u32) by (bit_vector);
            let ev = entry.0;
            assert(ev & 31u32 == 1u32 ==> ev & 1u32 != 0) by (bit_vector);
        }
        space.root.entries.set(k1, entry);
        space.leaves.push(PageTable::empty(page));
        proof {
            let s1 = *space;
            let n = s0.leaves@.len() as int;
            assert(s1.leaves@[n].addr == page);
            assert forall|i: int, j: int|
                0 <= i < s1.leaves@.len() && 0 <= j < s1.leaves@.len() && i != j implies (
                #[trigger] s1.leaves@[i]).addr != (#[trigger] s1.leaves@[j]).addr by {
                if i < n && j < n {
                    assert(s1.leaves@[i] == s0.leaves@[i]);
                    assert(s1.leaves@[j] == s0.leaves@[j]);
                } else if i < n {
                    assert(s1.leaves@[i] == s0.leaves@[i]);
                } else {
                    assert(s1.leaves@[j] == s0.leaves@[j]);
                }
            }
            assert forall|i: int| 0 <= i < s1.leaves@.len() implies {
                &&& (#[trigger] s1.leaves@[i]).entries@.len() == PAGE_TABLE_LENGTH
                &&& s1.leaves@[i].addr % PAGE_SIZE == 0
                &&& s1.leaves@[i].addr <= MAX_ADDRESS
                &&& s1.leaves@[i].addr != s1.root.addr
            } by {
                if i < n {
                    assert(s1.leaves@[i] == s0.leaves@[i]);
                }
            }
            assert forall|i: int| 0 <= i < n implies s1.has_leaf(#[trigger] s0.leaves@[i].addr as int) by {
                assert(s1.leaves@[i] == s0.leaves@[i]);
            }
            assert forall|k: int|
                0 <= k < PAGE_TABLE_LENGTH && (#[trigger] s1.root.entries@[k]).0 & FLAG_VALID != 0
                    implies pte_flags(s1.root.entries@[k].0) == FLAG_VALID && s1.has_leaf(
                    pte_addr(s1.root.entries@[k].0),
                ) by {
                if k == k1 {
                    assert(s1.leaves@[n].addr == page);
                } else {
                    assert(s1.root.entries@[k] == s0.root.entries@[k]);
                    let c = s0.leaf_at(pte_addr(s0.root.entries@[k].0));
                    assert(s1.leaves@[c] == s0.leaves@[c]);
                }
            }
            assert forall|k: int, l: int|
                0 <= k < PAGE_TABLE_LENGTH && 0 <= l < PAGE_TABLE_LENGTH && k != l && (
                #[trigger] s1.root.entries@[k]).0 & FLAG_VALID != 0 && (
                #[trigger] s1.root.entries@[l]).0 & FLAG_VALID != 0 implies pte_addr(
                    s1.root.entries@[k].0,
                ) != pte_addr(s1.root.entries@[l].0) by {
                if k == k1 {
                    let c = s0.leaf_at(pte_addr(s0.root.entries@[l].0));
                    assert(s0.leaves@[c].addr != page);
                } else if l == k1 {
                    let c = s0.leaf_at(pte_addr(s0.root.entries@[k].0));
                    assert(s0.leaves@[c].addr != page);
                } else {
                    assert(s1.root.entries@[k] == s0.root.entries@[k]);
                    assert(s1.root.entries@[l] == s0.root.entries@[l]);
                }
            }
            assert(s1.wf());
            assert forall|va: int| vpn1(va) != vpn1(vaddr as int) implies #[trigger] s1.walk(va) == s0.walk(va) by {
                assert(0 <= vpn1(va) < PAGE_TABLE_LENGTH);
                assert(s1.root.entries@[vpn1(va)] == s0.root.entries@[vpn1(va)]);
                if s0.root_entry(va) & FLAG_VALID != 0 {
                    let c = s0.leaf_at(pte_addr(s0.root_entry(va)));
                    lemma_leaf_at_unique(s0, c);
                    assert(s1.leaves@[c] == s0.leaves@[c]);
                    lemma_leaf_at_unique(s1, c);
                }
            }
            lemma_leaf_at_unique(s1, n);
            assert forall|va: int| vpn1(va) == vpn1(vaddr as int) implies #[trigger] s1.mapping(va) is None && s0.mapping(va) is None by {
                assert(0 <= vpn0(va) < PAGE_TABLE_LENGTH);
                assert(s1.leaves@[n].entries@[vpn0(va)].0 == 0);
                assert(0u32 & 1u32 == 0) by (bit_vector);
            }
            assert forall|pg: int| #[trigger] s1.table_frames().contains(pg) implies !pages.owned().contains(pg) by {
                if frames(s1.root.addr as int, 1).contains(pg) {
                    assert(s0.table_frames().contains(pg));
                } else {
                    let c = choose|c: int| 0 <= c < s1.leaves@.len() && #[trigger] frames(s1.leaves@[c].addr as int, 1).contains(pg);
                    if c < n {
                        assert(s1.leaves@[c] == s0.leaves@[c]);
                        assert(s0.table_frames().contains(pg));
                    }
                }
            }
        }
    }
    let ghost s2 = *space;
    assert(forall|va: int| (vpn1(va) != vpn1(vaddr as int) || vpn0(va) != vpn0(vaddr as int)) ==> #[trigger] s2.mapping(va) == s0.mapping(va));
    let e1 = space.root.entries[k1];
    assert(space.root.entries@[k1 as int].0 & FLAG_VALID != 0);
    let i = space.find_leaf(e1.physical_addr().0);
    let entry = PageTableEntry::from_addr_flags(paddr, flags.bit_or(PageTableFlags { bits: FLAG_VALID }));
    proof {
        let ev = entry.0;
        let fb = flags.bits;
        assert(ev & 31u32 == (fb | 1u32) & 31u32 ==> ev & 1u32 != 0) by (bit_vector);
        lemma_leaf_at_unique(s2, i as int);
    }
    space.leaves[i].entries.set(k0, entry);
    proof {
        let s3 = *space;
        assert forall|j: int| 0 <= j < s3.leaves@.len() && j != i implies #[trigger] s3.leaves@[j] == s2.leaves@[j] by {}
        assert forall|j: int, l: int|
            0 <= j < s3.leaves@.len() && 0 <= l < s3.leaves@.len() && j != l implies (
            #[trigger] s3.leaves@[j]).addr != (#[trigger] s3.leaves@[l]).addr by {
            assert(s2.leaves@[j].addr != s2.leaves@[l].addr);
        }
        assert forall|j: int| 0 <= j < s3.leaves@.len() implies {
            &&& (#[trigger] s3.leaves@[j]).entries@.len() == PAGE_TABLE_LENGTH
            &&& s3.leaves@[j].addr % PAGE_SIZE == 0
            &&& s3.leaves@[j].addr <= MAX_ADDRESS
            &&& s3.leaves@[j].addr != s3.root.addr
        } by {
            assert(s2.leaves@[j].entries@.len() == PAGE_TABLE_LENGTH);
        }
        assert forall|k: int|
            0 <= k < PAGE_TABLE_LENGTH && (#[trigger] s3.root.entries@[k]).0 & FLAG_VALID != 0
                implies pte_flags(s3.root.entries@[k].0) == FLAG_VALID && s3.has_leaf(
                pte_addr(s3.root.entries@[k].0),
            ) by {
            let c = s2.leaf_at(pte_addr(s2.root.entries@[k].0));
            assert(s3.leaves@[c].addr == s2.leaves@[c].addr);
        }
        assert(s3.wf());
        assert forall|va: int| (vpn1(va) != vpn1(vaddr as int) || vpn0(va) != vpn0(vaddr as int)) implies #[trigger] s3.walk(va) == s2.walk(va) by {
            assert(0 <= vpn1(va) < PAGE_TABLE_LENGTH);
            if s2.root_entry(va) & FLAG_VALID != 0 {
                let c = s2.leaf_at(pte_addr(s2.root_entry(va)));
                lemma_leaf_at_unique(s2, c);
                lemma_leaf_at_unique(s3, c);
                if c == i && vpn1(va) != vpn1(vaddr as int) {
                    assert(s2.root.entries@[vpn1(va)].0 & FLAG_VALID != 0);
                    assert(s2.root.entries@[k1 as int].0 & FLAG_VALID != 0);
                    assert(false);
                }
            }
        }
        lemma_leaf_at_unique(s3, i as int);
        assert forall|va: int| (vpn1(va) != vpn1(vaddr as int) || vpn0(va) != vpn0(vaddr as int)) implies #[trigger] s3.mapping(va) == s0.mapping(va) by {
            assert(s3.walk(va) == s2.walk(va));
            assert(s2.mapping(va) == s0.mapping(va));
        }
        assert forall|pg: int| #[trigger] s3.table_frames().contains(pg) implies !pages.owned().contains(pg) by {
            if frames(s3.root.addr as int, 1).contains(pg) {
                assert(s2.table_frames().contains(pg));
            } else {
                let c = choose|c: int| 0 <= c < s3.leaves@.len() && #[trigger] frames(s3.leaves@[c].addr as int, 1).contains(pg);
                assert(frames(s2.leaves@[c].addr as int, 1).contains(pg));
                assert(s2.table_frames().contains(pg));
            }
        }
    }
    Ok(())
}

/// Two different page-aligned addresses below 4 GiB differ in one of their
/// two table indices.
pub proof fn lemma_vpn_injective(a: int, b: int)
    requires
        0 <= a <= MAX_ADDRESS,
        0 <= b <= MAX_ADDRESS,
        a % PAGE_SIZE as int == 0,
        b % PAGE_SIZE as int == 0,
        a != b,
    ensures
        vpn1(a) != vpn1(b) || vpn0(a) != vpn0(b),
{
    lemma_vpn_split(a);
    lemma_vpn_split(b);
}

/// A page-aligned address below 4 GiB is made of its two table indices.
proof fn lemma_vpn_split(a: int)
    requires
        0 <= a <= MAX_ADDRESS,
        a % PAGE_SIZE as int == 0,
    ensures
        a == vpn1(a) * MEGAPAGE_SIZE as int + vpn0(a) * PAGE_SIZE as int,
{
    let p = a / 4096;
    vstd::arithmetic::div_mod::lemma_fundamental_div_mod(a, 4096);
    vstd::arithmetic::div_mod::lemma_fundamental_div_mod(p, 1024);
    vstd::arithmetic::div_mod::lemma_div_denominator(a, 4096, 1024);
    assert(p < 1048576);
    vstd::arithmetic::div_mod::lemma_small_mod((p / 1024) as nat, 1024);
    assert(a / (4096int * 1024int) == p / 1024int);
}

/// Whether every page that `[start, start + len)` touches is mapped with all
/// of `flags`.
pub open spec fn range_has_flags(space: AddressSpace, start: int, len: int, flags: u32) -> bool {
    forall|va: int|
        start as int - start as int % PAGE_SIZE as int <= va < start + len && va % PAGE_SIZE as int == 0
            ==> #[trigger] space.has_flags(va, flags)
}

/// Walk each page of `[start, start + len)` and check that its entry has
/// every bit of `flags`.
pub fn check_range_has_flags(space: &AddressSpace, start: usize, len: usize, flags: PageTableFlags) -> (r: bool)
    requires
        space.wf(),
        start + len + PAGE_SIZE <= usize::MAX,
        flags.bits <= FLAGS_MASK,
    ensures
        r == range_has_flags(*space, start as int, len as int, flags.bits),
{
    let end = start + len;
    let mut page = start - start % PAGE_SIZE;
    while page < end
        invariant
            space.wf(),
            flags.bits <= FLAGS_MASK,
            end == start + len,
            end + PAGE_SIZE <= usize::MAX,
            page % PAGE_SIZE == 0,
            start as int - start as int % PAGE_SIZE as int <= page,
            page <= end + PAGE_SIZE,
            forall|va: int|
                start as int - start as int % PAGE_SIZE as int <= va < page && va % PAGE_SIZE as int == 0
                    ==> #[trigger] space.has_flags(va, flags.bits),
        decreases end + PAGE_SIZE - page,
    {
        match space.entry_for_vaddr(page) {
            None => {
                assert(!space.has_flags(page as int, flags.bits));
                return false;
            },
            Some(e) => {
                let raw = e.0;
                let f = flags.bits;
                proof {
                    assert((raw & 31u32) & f == f <==> raw & f == f) by (bit_vector)
                        requires
                            f <= 31u32,
                    ;
                }
                if !e.flags().contains(flags) {
                    assert(!space.has_flags(page as int, flags.bits));
                    return false;
                }
            },
        }
        proof {
            assert forall|va: int|
                start as int - start as int % PAGE_SIZE as int <= va < page + PAGE_SIZE && va % PAGE_SIZE as int == 0
                    implies #[trigger] space.has_flags(va, flags.bits) by {
                if va >= page {
                    assert(va == page);
                }
            }
        }
        page = page + PAGE_SIZE;
    }
    true
}

/// The physical address behind `va` in the active table, or `va` itself
/// while paging is off.
pub fn paddr_for_vaddr(space: Option<&AddressSpace>, va: usize) -> (r: PhysicalAddress)
    requires
        space matches Some(s) ==> s.wf() && s.mapping(va as int) is Some,
    ensures
        space is None ==> r.0 == va,
        space matches Some(s) ==> r.0 == s.translate(va as int),
{
    match space {
        None => PhysicalAddress(va),
        Some(s) => {
            let e = s.entry_for_vaddr(va).unwrap();
            let base = e.physical_addr();
            proof {
                assert(base.0 + va % PAGE_SIZE < base.0 + PAGE_SIZE);
            }
            base.byte_add(va % PAGE_SIZE)
        },
    }
}

/// A user region that may be read: every page of it is Valid, UserAccessible
/// and Readable.
#[derive(Clone, Copy, Debug, PartialEq, Eq, Structural)]
pub struct UserMemRef {
    pub start: usize,
    pub len: usize,
}

/// The flags that a readable user page has: Valid, Readable, UserAccessible.
pub const USER_READ_FLAGS: u32 = 19;

/// The flags that a writable user page has: those and Writable.
pub const USER_WRITE_FLAGS: u32 = 23;

impl UserMemRef {
    /// The region `[start, start + len)` if every page of it is Valid,
    /// UserAccessible and Readable.
    pub fn for_region(space: &AddressSpace, start: usize, len: usize, allow: &AllowUserModeMemory) -> (r: Option<UserMemRef>)
        requires
            space.wf(),
            start + len + PAGE_SIZE <= usize::MAX,
        ensures
            r is Some <==> range_has_flags(*space, start as int, len as int, USER_READ_FLAGS),
            r matches Some(m) ==> m.start == start && m.len == len,
    {
        if check_range_has_flags(space, start, len, PageTableFlags { bits: USER_READ_FLAGS }) {
            Some(UserMemRef { start, len })
        } else {
            None
        }
    }
}

/// A user region that may be written: every page of it is Valid,
/// UserAccessible, Readable and Writable.
#[derive(Clone, Copy, Debug, PartialEq, Eq, Structural)]
pub struct UserMemMut {
    pub start: usize,
    pub len: usize,
}

impl UserMemMut {
    /// The region `[start, start + len)` if every page of it is Valid,
    /// UserAccessible, Readable and Writable.
    pub fn for_region(space: &AddressSpace, start: usize, len: usize, allow: &AllowUserModeMemory) -> (r: Option<UserMemMut>)
        requires
            space.wf(),
            start + len + PAGE_SIZE <= usize::MAX,
        ensures
            r is Some <==> range_has_flags(*space, start as int, len as int, USER_WRITE_FLAGS),
            r matches Some(m) ==> m.start == start && m.len == len,
    {
        if check_range_has_flags(space, start, len, PageTableFlags { bits: USER_WRITE_FLAGS }) {
            Some(UserMemMut { start, len })
        } else {
            None
        }
    }
}

/// Whether `va` is one of the `n` pages from `vstart`.
pub open spec fn in_pages(va: int, vstart: int, n: int) -> bool {
    vstart <= va < vstart + n * PAGE_SIZE as int && va % PAGE_SIZE as int == 0
}

/// Whether `va` is a page address that Sv32 reaches.
pub open spec fn page_addr(va: int) -> bool {
    0 <= va <= MAX_ADDRESS && va % PAGE_SIZE as int == 0
}

/// Map `n` pages from `vstart` to the frames from `pstart`, one to one, with
/// `flags`. On failure a second-level table could not be had; the pages
/// mapped so far stay mapped.
pub fn map_range(
    space: &mut AddressSpace,
    pages: &mut PageAllocator,
    vstart: usize,
    pstart: usize,
    n: usize,
    flags: PageTableFlags,
) -> (r: Result<(), OutOfMemory>)
    requires
        old(space).wf(),
        old(pages).wf(),
        old(pages).free_ram_end <= MAX_ADDRESS,
        old(space).table_frames().disjoint(old(pages).owned()),
        vstart % PAGE_SIZE == 0,
        pstart % PAGE_SIZE == 0,
        vstart + n * PAGE_SIZE <= MAX_ADDRESS + 1,
        pstart + n * PAGE_SIZE <= MAX_ADDRESS + 1,
        forall|va: int| in_pages(va, vstart as int, n as int) ==> #[trigger] old(space).mapping(va) is None,
    ensures
        final(pages).next <= old(pages).next + n * PAGE_SIZE,
        old(pages).next + n * PAGE_SIZE <= old(pages).free_ram_end ==> r is Ok,
        final(pages).owned().subset_of(old(pages).owned()),
        final(space).wf(),
        final(pages).wf(),
        final(pages).free_ram == old(pages).free_ram,
        final(pages).free_ram_end == old(pages).free_ram_end,
        final(space).table_frames().disjoint(final(pages).owned()),
        final(space).root.addr == old(space).root.addr,
        r is Ok ==> forall|va: int|
            in_pages(va, vstart as int, n as int) ==> #[trigger] final(space).mapping(va) == Some(
                pte_of((pstart + (va - vstart)) as usize, flags.bits | FLAG_VALID),
            ),
        r is Err ==> !final(pages).has_run_of(1) && final(pages).next + PAGE_SIZE
            > final(pages).free_ram_end,
        forall|va: int|
            page_addr(va) && !in_pages(va, vstart as int, n as int) ==> #[trigger] final(space).mapping(va)
                == old(space).mapping(va),
{
    let mut k: usize = 0;
    while k < n
        invariant
            space.wf(),
            pages.wf(),
            pages.owned().subset_of(old(pages).owned()),
            pages.next <= old(pages).next + k * PAGE_SIZE,
            pages.free_ram == old(pages).free_ram,
            pages.free_ram_end == old(pages).free_ram_end,
            pages.free_ram_end <= MAX_ADDRESS,
            space.table_frames().disjoint(pages.owned()),
            space.root.addr == old(space).root.addr,
            vstart % PAGE_SIZE == 0,
            pstart % PAGE_SIZE == 0,
            vstart + n * PAGE_SIZE <= MAX_ADDRESS + 1,
            pstart + n * PAGE_SIZE <= MAX_ADDRESS + 1,
            k <= n,
            forall|va: int|
                in_pages(va, vstart as int, k as int) ==> #[trigger] space.mapping(va) == Some(
                    pte_of((pstart + (va - vstart)) as usize, flags.bits | FLAG_VALID),
                ),
            forall|va: int|
                page_addr(va) && !in_pages(va, vstart as int, k as int) ==> #[trigger] space.mapping(va)
                    == old(space).mapping(va),
            forall|va: int| in_pages(va, vstart as int, n as int) ==> #[trigger] old(space).mapping(va) is None,
        decreases n - k,
    {
        assert(k * PAGE_SIZE + PAGE_SIZE <= n * PAGE_SIZE) by (nonlinear_arith)
            requires k < n,
        ;
        let va = vstart + k * PAGE_SIZE;
        let pa = pstart + k * PAGE_SIZE;
        assert((va as int) % PAGE_SIZE as int == 0) by (nonlinear_arith)
            requires va == vstart + k * PAGE_SIZE, vstart % PAGE_SIZE == 0,
        ;
        assert((pa as int) % PAGE_SIZE as int == 0) by (nonlinear_arith)
            requires pa == pstart + k * PAGE_SIZE, pstart % PAGE_SIZE == 0,
        ;
        assert(in_pages(va as int, vstart as int, n as int));
        assert(!in_pages(va as int, vstart as int, k as int));
        assert(space.mapping(va as int) is None);
        let ghost before = *space;
        let ghost next0 = pages.next;
        match map_page(space, pages, va, PhysicalAddress(pa), flags) {
            Ok(()) => {},
            Err(e) => {
                assert(k * PAGE_SIZE + PAGE_SIZE <= n * PAGE_SIZE) by (nonlinear_arith)
                    requires k < n,
                ;
                return Err(e);
            },
        }
        assert(k * PAGE_SIZE + PAGE_SIZE == (k + 1) * PAGE_SIZE) by (nonlinear_arith);
        proof {
            assert forall|v: int| page_addr(v) && v != va implies #[trigger] space.mapping(v)
                == before.mapping(v) by {
                lemma_vpn_injective(v, va as int);
            }
            assert forall|v: int| in_pages(v, vstart as int, k + 1) implies #[trigger] space.mapping(v)
                == Some(pte_of((pstart + (v - vstart)) as usize, flags.bits | FLAG_VALID)) by {
                if v != va {
                    if v >= va {
                        assert(v >= va + PAGE_SIZE);
                    }
                    assert(in_pages(v, vstart as int, k as int));
                    assert(page_addr(v));
                }
            }
            assert forall|v: int| page_addr(v) && !in_pages(v, vstart as int, k + 1) implies #[trigger] space.mapping(v)
                == old(space).mapping(v) by {
                assert(v != va);
                assert(!in_pages(v, vstart as int, k as int));
            }
        }
        k += 1;
    }
    Ok(())
}

/// The physical page of the virtio block device's registers.
pub const BLOCK_DEVICE_ADDRESS: usize = 0x1000_1000;

/// The physical page of the virtio entropy device's registers.
pub const RNG_DEVICE_ADDRESS: usize = 0x1000_2000;

/// Readable, Writable and Executable: the kernel's own memory.
pub const KERNEL_MEM_FLAGS: u32 = 14;

/// Readable and Writable: device registers.
pub const MMIO_FLAGS: u32 = 6;

/// The pages of the kernel's memory `[base, end)`.
pub open spec fn kernel_pages(base: int, end: int) -> int {
    (end - base) / PAGE_SIZE as int
}

/// Map the kernel's memory `[kernel_base, free_ram_end)` onto itself,
/// readable, writable and executable, and each device's register page
/// onto itself, readable and writable.
pub fn map_kernel_memory(
    space: &mut AddressSpace,
    pages: &mut PageAllocator,
    kernel_base: usize,
    free_ram_end: usize,
) -> (r: Result<(), OutOfMemory>)
    requires
        old(space).wf(),
        old(pages).wf(),
        old(pages).free_ram_end <= MAX_ADDRESS,
        old(space).table_frames().disjoint(old(pages).owned()),
        kernel_base % PAGE_SIZE == 0,
        free_ram_end % PAGE_SIZE == 0,
        RNG_DEVICE_ADDRESS < kernel_base <= free_ram_end <= MAX_ADDRESS,
        forall|va: int| page_addr(va) ==> #[trigger] old(space).mapping(va) is None,
    ensures
        final(pages).next <= old(pages).next + (kernel_pages(kernel_base as int, free_ram_end as int) + 2) * PAGE_SIZE,
        old(pages).next + (kernel_pages(kernel_base as int, free_ram_end as int) + 2) * PAGE_SIZE
            <= old(pages).free_ram_end ==> r is Ok,
        final(pages).owned().subset_of(old(pages).owned()),
        final(space).wf(),
        final(pages).wf(),
        final(pages).free_ram == old(pages).free_ram,
        final(pages).free_ram_end == old(pages).free_ram_end,
        final(space).table_frames().disjoint(final(pages).owned()),
        final(space).root.addr == old(space).root.addr,
        r is Err ==> !final(pages).has_run_of(1) && final(pages).next + PAGE_SIZE
            > final(pages).free_ram_end,
        r is Ok ==> forall|va: int|
            page_addr(va) && kernel_base <= va < free_ram_end ==> #[trigger] final(space).mapping(va)
                == Some(pte_of(va as usize, KERNEL_MEM_FLAGS | FLAG_VALID)),
        r is Ok ==> final(space).mapping(BLOCK_DEVICE_ADDRESS as int) == Some(
            pte_of(BLOCK_DEVICE_ADDRESS, MMIO_FLAGS | FLAG_VALID),
        ),
        r is Ok ==> final(space).mapping(RNG_DEVICE_ADDRESS as int) == Some(
            pte_of(RNG_DEVICE_ADDRESS, MMIO_FLAGS | FLAG_VALID),
        ),
        forall|va: int|
            page_addr(va) && !(kernel_base <= va < free_ram_end) && va != BLOCK_DEVICE_ADDRESS
                && va != RNG_DEVICE_ADDRESS ==> #[trigger] final(space).mapping(va) is None,
{
    let n = (free_ram_end - kernel_base) / PAGE_SIZE;
    assert(n * PAGE_SIZE == free_ram_end - kernel_base) by {
        let q1 = free_ram_end as int / 4096;
        let q2 = kernel_base as int / 4096;
        vstd::arithmetic::div_mod::lemma_fundamental_div_mod(free_ram_end as int, 4096);
        vstd::arithmetic::div_mod::lemma_fundamental_div_mod(kernel_base as int, 4096);
        assert(free_ram_end - kernel_base == 4096 * (q1 - q2));
        vstd::arithmetic::div_mod::lemma_div_multiples_vanish(q1 - q2, 4096);
    }
    let ghost s0 = *space;
    let r1 = map_range(space, pages, kernel_base, kernel_base, n, PageTableFlags { bits: KERNEL_MEM_FLAGS });
    if r1.is_err() {
        return r1;
    }
    let ghost s1 = *space;
    assert(!in_pages(BLOCK_DEVICE_ADDRESS as int, kernel_base as int, n as int));
    assert(page_addr(BLOCK_DEVICE_ADDRESS as int));
    assert(s1.mapping(BLOCK_DEVICE_ADDRESS as int) == s0.mapping(BLOCK_DEVICE_ADDRESS as int));
    let r2 = map_range(space, pages, BLOCK_DEVICE_ADDRESS, BLOCK_DEVICE_ADDRESS, 1, PageTableFlags { bits: MMIO_FLAGS });
    if r2.is_err() {
        return r2;
    }
    let ghost s2 = *space;
    assert(!in_pages(RNG_DEVICE_ADDRESS as int, BLOCK_DEVICE_ADDRESS as int, 1));
    assert(!in_pages(RNG_DEVICE_ADDRESS as int, kernel_base as int, n as int));
    assert(page_addr(RNG_DEVICE_ADDRESS as int));
    assert(s2.mapping(RNG_DEVICE_ADDRESS as int) == s0.mapping(RNG_DEVICE_ADDRESS as int));
    let r3 = map_range(space, pages, RNG_DEVICE_ADDRESS, RNG_DEVICE_ADDRESS, 1, PageTableFlags { bits: MMIO_FLAGS });
    proof {
        assert(in_pages(BLOCK_DEVICE_ADDRESS as int, BLOCK_DEVICE_ADDRESS as int, 1));
        assert(in_pages(RNG_DEVICE_ADDRESS as int, RNG_DEVICE_ADDRESS as int, 1));
        assert(!in_pages(BLOCK_DEVICE_ADDRESS as int, RNG_DEVICE_ADDRESS as int, 1));
        assert forall|va: int| page_addr(va) && kernel_base <= va < free_ram_end implies #[trigger] space.mapping(va)
            == s1.mapping(va) by {
            assert(in_pages(va, kernel_base as int, n as int));
            assert(!in_pages(va, BLOCK_DEVICE_ADDRESS as int, 1));
            assert(!in_pages(va, RNG_DEVICE_ADDRESS as int, 1));
            assert(s2.mapping(va) == s1.mapping(va));
        }
        assert forall|va: int|
            page_addr(va) && !(kernel_base <= va < free_ram_end) && va != BLOCK_DEVICE_ADDRESS
                && va != RNG_DEVICE_ADDRESS implies #[trigger] space.mapping(va) is None by {
            assert(!in_pages(va, kernel_base as int, n as int));
            assert(!in_pages(va, BLOCK_DEVICE_ADDRESS as int, 1));
            assert(!in_pages(va, RNG_DEVICE_ADDRESS as int, 1));
            assert(s1.mapping(va) == s0.mapping(va));
            assert(s2.mapping(va) == s1.mapping(va));
        }
        assert(space.mapping(BLOCK_DEVICE_ADDRESS as int) == s2.mapping(BLOCK_DEVICE_ADDRESS as int));
    }
    r3
}

/// Take frames for `data`, map them at `vstart` with `flags` and copy
/// `data` in, the rest of the last frame zeroed. Returns the first frame.
pub fn alloc_and_map_slice(
    space: &mut AddressSpace,
    pages: &mut PageAllocator,
    mem: &mut PhysicalMemory,
    vstart: usize,
    data: &[u8],
    flags: PageTableFlags,
) -> (r: Result<usize, OutOfMemory>)
    requires
        old(space).wf(),
        old(pages).wf(),
        old(pages).free_ram_end <= MAX_ADDRESS,
        old(space).table_frames().disjoint(old(pages).owned()),
        old(mem).holds(old(pages).free_ram as int, old(pages).free_ram_end - old(pages).free_ram),
        vstart % PAGE_SIZE == 0,
        vstart + data@.len() + PAGE_SIZE <= MAX_ADDRESS + 1,
        forall|va: int|
            in_pages(va, vstart as int, pages_for_len(data@.len() as int)) ==> #[trigger] old(space).mapping(va) is None,
    ensures
        final(pages).next <= old(pages).next + 2 * pages_for_len(data@.len() as int) * PAGE_SIZE,
        old(pages).next + 2 * pages_for_len(data@.len() as int) * PAGE_SIZE <= old(pages).free_ram_end ==> r is Ok,
        r is Err ==> (!old(pages).has_run_of(pages_for_len(data@.len() as int) as usize) && old(pages).next
            + pages_for_len(data@.len() as int) * PAGE_SIZE > old(pages).free_ram_end) || (!final(pages).has_run_of(1)
            && final(pages).next + PAGE_SIZE > final(pages).free_ram_end),
        final(pages).owned().subset_of(old(pages).owned()),
        final(space).wf(),
        final(pages).wf(),
        final(pages).free_ram == old(pages).free_ram,
        final(pages).free_ram_end == old(pages).free_ram_end,
        final(space).table_frames().disjoint(final(pages).owned()),
        final(space).root.addr == old(space).root.addr,
        final(mem).base == old(mem).base,
        final(mem).bytes@.len() == old(mem).bytes@.len(),
        r matches Ok(p) ==> {
            &&& p % PAGE_SIZE == 0
            &&& forall|va: int|
                in_pages(va, vstart as int, pages_for_len(data@.len() as int)) ==> #[trigger] final(space).mapping(va)
                    == Some(pte_of((p + (va - vstart)) as usize, flags.bits | FLAG_VALID))
            &&& forall|i: int| 0 <= i < data@.len() ==> #[trigger] final(mem).byte(p + i) == data@[i]
        },
        forall|va: int|
            page_addr(va) && !in_pages(va, vstart as int, pages_for_len(data@.len() as int)) ==> #[trigger] final(space).mapping(va)
                == old(space).mapping(va),
{
    let len = data.len();
    let n = len / PAGE_SIZE + if len % PAGE_SIZE == 0 { 0 } else { 1 };
    assert(n == pages_for_len(len as int));
    assert(n * PAGE_SIZE <= len + PAGE_SIZE) by (nonlinear_arith)
        requires n == len / PAGE_SIZE + if len % PAGE_SIZE == 0 { 0usize } else { 1usize },
    ;
    assert(n * PAGE_SIZE >= len) by (nonlinear_arith)
        requires n == len / PAGE_SIZE + if len % PAGE_SIZE == 0 { 0usize } else { 1usize },
    ;
    assert(2 * n * PAGE_SIZE == n * PAGE_SIZE + n * PAGE_SIZE) by (nonlinear_arith);
    let p = match alloc_pages(pages, n) {
        Ok(p) => p,
        Err(e) => {
            return Err(e);
        },
    };
    let ghost mem0 = *mem;
    mem.zero(p, n * PAGE_SIZE);
    mem.write_bytes(p, data);
    match map_range(space, pages, vstart, p, n, flags) {
        Ok(()) => {},
        Err(e) => {
            return Err(e);
        },
    }
    Ok(p)
}

/// The pages that `len` bytes take.
pub open spec fn pages_for_len(len: int) -> int {
    len / PAGE_SIZE as int + if len % PAGE_SIZE as int == 0 { 0int } else { 1int }
}

} // verus!
