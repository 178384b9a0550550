use vstd::prelude::*;

use crate::error::OutOfMemory;

verus! {

/// The size of a page frame in bytes.
pub const PAGE_SIZE: usize = 4096;

/// The page numbers of the `num_pages` frames that start at byte `addr`.
pub open spec fn frames(addr: int, num_pages: int) -> Set<int> {
    Set::new(|pg: int| pn(addr) <= pg < pn(addr) + num_pages)
}

/// The number of the page that holds byte `addr`.
pub open spec fn pn(addr: int) -> int {
    addr / PAGE_SIZE as int
}

/// A run of freed frames: `num_pages` frames starting at `addr`.
#[derive(Clone, Copy, Debug, PartialEq, Eq, Structural)]
pub struct FreePageListNode {
    pub addr: usize,
    pub num_pages: usize,
}

/// The freed runs, most recently freed last.
pub struct FreePageList {
    pub nodes: Vec<FreePageListNode>,
}

impl FreePageList {
    /// An empty list.
    pub fn new() -> (r: FreePageList)
        ensures
            r.nodes@.len() == 0,
    {
        FreePageList { nodes: Vec::new() }
    }
}

/// The page allocator: a bump cursor over `[free_ram, free_ram_end)` and a
/// list of freed runs that are handed out again to requests of the same size.
pub struct PageAllocator {
    pub free_ram: usize,
    pub free_ram_end: usize,
    pub next: usize,
    pub freed: FreePageList,
}

impl PageAllocator {
    pub open spec fn run(&self, i: int) -> FreePageListNode {
        self.freed.nodes@[i]
    }

    pub open spec fn runs_len(&self) -> int {
        self.freed.nodes@.len() as int
    }

    /// The invariant: the cursor stays page-aligned inside free RAM, and the
    /// freed runs are aligned, non-empty, below the cursor and pairwise
    /// disjoint.
    pub open spec fn wf(&self) -> bool {
        &&& self.free_ram % PAGE_SIZE == 0
        &&& self.free_ram_end % PAGE_SIZE == 0
        &&& self.free_ram <= self.next <= self.free_ram_end
        &&& self.next % PAGE_SIZE == 0
        &&& forall|i: int|
            0 <= i < self.runs_len() ==> {
                &&& #[trigger] self.run(i).addr % PAGE_SIZE == 0
                &&& self.run(i).num_pages >= 1
                &&& self.free_ram <= self.run(i).addr
                &&& self.run(i).addr + self.run(i).num_pages * PAGE_SIZE <= self.next
            }
        &&& forall|i: int, j: int|
            0 <= i < self.runs_len() && 0 <= j < self.runs_len() && i != j ==> frames(
                #[trigger] self.run(i).addr as int,
                self.run(i).num_pages as int,
            ).disjoint(frames(#[trigger] self.run(j).addr as int, self.run(j).num_pages as int))
    }

    /// The frames that the allocator can still hand out.
    pub open spec fn owned(&self) -> Set<int> {
        Set::new(
            |pg: int|
                (pn(self.next as int) <= pg < pn(self.free_ram_end as int)) || exists|
                    i: int,
                |
                    0 <= i < self.runs_len() && #[trigger] frames(
                        self.run(i).addr as int,
                        self.run(i).num_pages as int,
                    ).contains(pg),
        )
    }

    /// Whether some freed run has exactly `n` pages.
    pub open spec fn has_run_of(&self, n: usize) -> bool {
        exists|i: int| 0 <= i < self.runs_len() && #[trigger] self.run(i).num_pages == n
    }

    /// A new allocator over `[free_ram, free_ram_end)`, nothing handed out.
    pub fn new(free_ram: usize, free_ram_end: usize) -> (r: PageAllocator)
        requires
            free_ram % PAGE_SIZE == 0,
            free_ram_end % PAGE_SIZE == 0,
            free_ram <= free_ram_end,
        ensures
            r.wf(),
            r.free_ram == free_ram,
            r.free_ram_end == free_ram_end,
            r.next == free_ram,
            r.runs_len() == 0,
    {
        PageAllocator { free_ram, free_ram_end, next: free_ram, freed: FreePageList::new() }
    }
}

/// Remove and return the first freed run of exactly `num_pages` pages.
fn try_pop(alloc: &mut PageAllocator, num_pages: usize) -> (r: Option<usize>)
    requires
        old(alloc).wf(),
    ensures
        final(alloc).wf(),
        final(alloc).free_ram == old(alloc).free_ram,
        final(alloc).free_ram_end == old(alloc).free_ram_end,
        final(alloc).next == old(alloc).next,
        r is None <==> !old(alloc).has_run_of(num_pages),
        r is None ==> *final(alloc) == *old(alloc),
        r matches Some(p) ==> exists|i: int|
            0 <= i < old(alloc).runs_len() && old(alloc).run(i).num_pages == num_pages
                && old(alloc).run(i).addr == p && (forall|j: int|
                0 <= j < i ==> old(alloc).run(j).num_pages != num_pages)
                && final(alloc).freed.nodes@ == old(alloc).freed.nodes@.remove(i),
{
    let mut i: usize = 0;
    while i < alloc.freed.nodes.len()
        invariant
            *alloc == *old(alloc),
            alloc.wf(),
            0 <= i <= alloc.freed.nodes@.len(),
            forall|j: int| 0 <= j < i ==> alloc.run(j).num_pages != num_pages,
        decreases alloc.freed.nodes@.len() - i,
    {
        if alloc.freed.nodes[i].num_pages == num_pages {
            proof {
                assert(old(alloc).run(i as int).num_pages == num_pages);
            }
            let node = alloc.freed.nodes.remove(i);
            proof {
                let o = old(alloc);
                let s = alloc.freed.nodes@;
                assert forall|a: int|
                    0 <= a < alloc.runs_len() implies #[trigger] alloc.run(a).addr % PAGE_SIZE
                        == 0 && alloc.run(a).num_pages >= 1 && alloc.free_ram <= alloc.run(a).addr
                        && alloc.run(a).addr + alloc.run(a).num_pages * PAGE_SIZE <= alloc.next by {
                    let a0 = if a < i { a } else { a + 1 };
                    assert(alloc.run(a) == o.run(a0));
                    assert(o.run(a0).addr % PAGE_SIZE == 0);
                }
                assert forall|a: int, b: int|
                    0 <= a < alloc.runs_len() && 0 <= b < alloc.runs_len() && a != b implies frames(
                        #[trigger] alloc.run(a).addr as int,
                        alloc.run(a).num_pages as int,
                    ).disjoint(
                        frames(#[trigger] alloc.run(b).addr as int, alloc.run(b).num_pages as int),
                    ) by {
                    let a0 = if a < i { a } else { a + 1 };
                    let b0 = if b < i { b } else { b + 1 };
                    assert(alloc.run(a) == o.run(a0));
                    assert(alloc.run(b) == o.run(b0));
                }
            }
            assert(alloc.freed.nodes@ == old(alloc).freed.nodes@.remove(i as int));
            return Some(node.addr);
        }
        i += 1;
    }
    None
}

/// Allocate `num_pages` contiguous frames: a freed run of exactly that size
/// if there is one, else fresh frames from the bump cursor.
pub fn alloc_pages(alloc: &mut PageAllocator, num_pages: usize) -> (r: Result<usize, OutOfMemory>)
    requires
        old(alloc).wf(),
        num_pages <= usize::MAX / PAGE_SIZE,
    ensures
        final(alloc).wf(),
        final(alloc).free_ram == old(alloc).free_ram,
        final(alloc).free_ram_end == old(alloc).free_ram_end,
        r is Err <==> (!old(alloc).has_run_of(num_pages) && old(alloc).next + num_pages * PAGE_SIZE
            > old(alloc).free_ram_end),
        r is Err ==> *final(alloc) == *old(alloc),
        old(alloc).has_run_of(num_pages) ==> (r matches Ok(p) && final(alloc).next == old(alloc).next
            && exists|i: int|
            0 <= i < old(alloc).runs_len() && old(alloc).run(i).num_pages == num_pages && old(alloc).run(i).addr
                == p && (forall|j: int| 0 <= j < i ==> old(alloc).run(j).num_pages != num_pages)
                && final(alloc).freed.nodes@ == old(alloc).freed.nodes@.remove(i)),
        !old(alloc).has_run_of(num_pages) && old(alloc).next + num_pages * PAGE_SIZE <= old(alloc).free_ram_end
            ==> r == Ok::<usize, OutOfMemory>(old(alloc).next) && final(alloc).next == old(alloc).next
            + num_pages * PAGE_SIZE && final(alloc).freed.nodes@ == old(alloc).freed.nodes@,
        final(alloc).next <= old(alloc).next + num_pages * PAGE_SIZE,
        r matches Ok(p) ==> {
            &&& p % PAGE_SIZE == 0
            &&& old(alloc).free_ram <= p
            &&& p + num_pages * PAGE_SIZE <= old(alloc).free_ram_end
            &&& frames(p as int, num_pages as int).subset_of(old(alloc).owned())
            &&& final(alloc).owned() == old(alloc).owned().difference(
                frames(p as int, num_pages as int),
            )
        },
{
    let ghost o = *alloc;
    match try_pop(alloc, num_pages) {
        Some(p) => {
            proof {
                let i = choose|i: int|
                    0 <= i < o.runs_len() && o.run(i).num_pages == num_pages && o.run(i).addr == p
                        && (forall|j: int| 0 <= j < i ==> o.run(j).num_pages != num_pages)
                        && alloc.freed.nodes@ == o.freed.nodes@.remove(i);
                lemma_pop_owned(o, *alloc, i);
            }
            return Ok(p);
        },
        None => {},
    }
    let span = num_pages * PAGE_SIZE;
    if span > alloc.free_ram_end || alloc.next > alloc.free_ram_end - span {
        return Err(OutOfMemory);
    }
    let p = alloc.next;
    assert((p + span) as int % 4096 == 0) by (nonlinear_arith)
        requires
            p as int % 4096 == 0,
            span as int == num_pages as int * 4096,
    ;
    alloc.next = p + span;
    proof {
        assert forall|i: int| 0 <= i < alloc.runs_len() implies #[trigger] alloc.run(i) == o.run(i)
            && alloc.run(i).addr + alloc.run(i).num_pages * PAGE_SIZE <= alloc.next by {
            assert(o.run(i).addr % PAGE_SIZE == 0);
        }
        assert forall|i: int, j: int|
            0 <= i < alloc.runs_len() && 0 <= j < alloc.runs_len() && i != j implies frames(
                #[trigger] alloc.run(i).addr as int,
                alloc.run(i).num_pages as int,
            ).disjoint(frames(#[trigger] alloc.run(j).addr as int, alloc.run(j).num_pages as int)) by {
            assert(o.run(i).addr % PAGE_SIZE == 0);
            assert(o.run(j).addr % PAGE_SIZE == 0);
        }
        lemma_bump_owned(o, *alloc, num_pages as int);
    }
    Ok(p)
}

proof fn lemma_pop_owned(o: PageAllocator, a: PageAllocator, i: int)
    requires
        o.wf(),
        a.wf(),
        0 <= i < o.runs_len(),
        a.next == o.next,
        a.free_ram_end == o.free_ram_end,
        a.freed.nodes@ == o.freed.nodes@.remove(i),
    ensures
        frames(o.run(i).addr as int, o.run(i).num_pages as int).subset_of(o.owned()),
        a.owned() == o.owned().difference(frames(o.run(i).addr as int, o.run(i).num_pages as int)),
{
    let f = frames(o.run(i).addr as int, o.run(i).num_pages as int);
    assert forall|pg: int| f.contains(pg) implies o.owned().contains(pg) by {
        assert(frames(o.run(i).addr as int, o.run(i).num_pages as int).contains(pg));
    }
    assert forall|pg: int| a.owned().contains(pg) implies o.owned().difference(f).contains(pg) by {
        if pn(o.next as int) <= pg < pn(o.free_ram_end as int) {
            assert(!f.contains(pg));
        } else {
            let k = choose|k: int|
                0 <= k < a.runs_len() && #[trigger] frames(
                    a.run(k).addr as int,
                    a.run(k).num_pages as int,
                ).contains(pg);
            let k0 = if k < i { k } else { k + 1 };
            assert(a.run(k) == o.run(k0));
            assert(frames(o.run(k0).addr as int, o.run(k0).num_pages as int).contains(pg));
            assert(frames(o.run(k0).addr as int, o.run(k0).num_pages as int).disjoint(f));
        }
    }
    assert forall|pg: int| o.owned().difference(f).contains(pg) implies a.owned().contains(pg) by {
        if pn(o.next as int) <= pg < pn(o.free_ram_end as int) {
        } else {
            let k = choose|k: int|
                0 <= k < o.runs_len() && #[trigger] frames(
                    o.run(k).addr as int,
                    o.run(k).num_pages as int,
                ).contains(pg);
            assert(k != i);
            let k1 = if k < i { k } else { k - 1 };
            assert(a.run(k1) == o.run(k));
            assert(frames(a.run(k1).addr as int, a.run(k1).num_pages as int).contains(pg));
        }
    }
    assert(a.owned() =~= o.owned().difference(f));
}

proof fn lemma_bump_owned(o: PageAllocator, a: PageAllocator, n: int)
    requires
        o.wf(),
        a.freed == o.freed,
        a.free_ram_end == o.free_ram_end,
        a.next == o.next + n * PAGE_SIZE,
        n >= 0,
        a.next <= a.free_ram_end,
    ensures
        frames(o.next as int, n).subset_of(o.owned()),
        a.owned() == o.owned().difference(frames(o.next as int, n)),
{
    let f = frames(o.next as int, n);
    assert(pn(a.next as int) == pn(o.next as int) + n) by {
        vstd::arithmetic::div_mod::lemma_hoist_over_denominator(o.next as int, n, PAGE_SIZE as nat);
    }
    assert(pn(o.free_ram_end as int) >= pn(a.next as int)) by {
        vstd::arithmetic::div_mod::lemma_div_is_ordered(a.next as int, o.free_ram_end as int, PAGE_SIZE as int);
    }
    assert forall|pg: int| a.owned().contains(pg) implies o.owned().difference(f).contains(pg) by {
        if pn(a.next as int) <= pg < pn(a.free_ram_end as int) {
        } else {
            let k = choose|k: int|
                0 <= k < a.runs_len() && #[trigger] frames(
                    a.run(k).addr as int,
                    a.run(k).num_pages as int,
                ).contains(pg);
            assert(a.run(k) == o.run(k));
            lemma_run_below_cursor(o, k, pg);
        }
    }
    assert forall|pg: int| o.owned().difference(f).contains(pg) implies a.owned().contains(pg) by {
        if pn(o.next as int) <= pg < pn(o.free_ram_end as int) {
        } else {
            let k = choose|k: int|
                0 <= k < o.runs_len() && #[trigger] frames(
                    o.run(k).addr as int,
                    o.run(k).num_pages as int,
                ).contains(pg);
            assert(a.run(k) == o.run(k));
        }
    }
    assert(a.owned() =~= o.owned().difference(f));
}

/// A page of a freed run lies below the cursor.
proof fn lemma_run_below_cursor(o: PageAllocator, k: int, pg: int)
    requires
        o.wf(),
        0 <= k < o.runs_len(),
        frames(o.run(k).addr as int, o.run(k).num_pages as int).contains(pg),
    ensures
        pg < pn(o.next as int),
{
    let r = o.run(k);
    assert(pn(r.addr + r.num_pages * PAGE_SIZE) == pn(r.addr as int)
        + r.num_pages) by {
        vstd::arithmetic::div_mod::lemma_hoist_over_denominator(r.addr as int, r.num_pages as int, PAGE_SIZE as nat);
    }
    vstd::arithmetic::div_mod::lemma_div_is_ordered(
        r.addr + r.num_pages * PAGE_SIZE,
        o.next as int,
        PAGE_SIZE as int,
    );
}

/// Give `num_pages` frames at `addr` back to the allocator. Only frames
/// that the allocator handed out, and that it does not hold again, can come
/// back.
pub fn free_pages(alloc: &mut PageAllocator, addr: usize, num_pages: usize)
    requires
        old(alloc).wf(),
        addr % PAGE_SIZE == 0,
        num_pages >= 1,
        old(alloc).free_ram <= addr,
        addr + num_pages * PAGE_SIZE <= old(alloc).next,
        frames(addr as int, num_pages as int).disjoint(old(alloc).owned()),
    ensures
        final(alloc).wf(),
        final(alloc).free_ram == old(alloc).free_ram,
        final(alloc).free_ram_end == old(alloc).free_ram_end,
        final(alloc).next == old(alloc).next,
        final(alloc).freed.nodes@ == old(alloc).freed.nodes@.push(
            FreePageListNode { addr, num_pages },
        ),
        final(alloc).owned() == old(alloc).owned().union(frames(addr as int, num_pages as int)),
{
    let ghost o = *alloc;
    alloc.freed.nodes.push(FreePageListNode { addr, num_pages });
    proof {
        let f = frames(addr as int, num_pages as int);
        let n = o.runs_len();
        assert(alloc.run(n) == FreePageListNode { addr, num_pages });
        assert forall|i: int| 0 <= i < n implies #[trigger] alloc.run(i) == o.run(i) by {}
        assert forall|i: int| 0 <= i < n implies #[trigger] frames(
            o.run(i).addr as int,
            o.run(i).num_pages as int,
        ).disjoint(f) by {
            assert forall|pg: int|
                #[trigger] frames(o.run(i).addr as int, o.run(i).num_pages as int).contains(
                    pg,
                ) implies !f.contains(pg) by {
                assert(o.owned().contains(pg));
            }
        }
        assert forall|i: int, j: int|
            0 <= i < alloc.runs_len() && 0 <= j < alloc.runs_len() && i != j implies frames(
                #[trigger] alloc.run(i).addr as int,
                alloc.run(i).num_pages as int,
            ).disjoint(frames(#[trigger] alloc.run(j).addr as int, alloc.run(j).num_pages as int)) by {
            if i < n && j < n {
                assert(o.run(i).addr % PAGE_SIZE == 0);
            } else if i < n {
                assert(frames(o.run(i).addr as int, o.run(i).num_pages as int).disjoint(f));
            } else {
                assert(frames(o.run(j).addr as int, o.run(j).num_pages as int).disjoint(f));
            }
        }
        assert forall|i: int| 0 <= i < alloc.runs_len() implies #[trigger] alloc.run(i).addr
            % PAGE_SIZE == 0 && alloc.run(i).num_pages >= 1 && alloc.free_ram <= alloc.run(i).addr
            && alloc.run(i).addr + alloc.run(i).num_pages * PAGE_SIZE <= alloc.next by {
            if i < n {
                assert(o.run(i).addr % PAGE_SIZE == 0);
            }
        }
        assert forall|pg: int| alloc.owned().contains(pg) implies o.owned().union(f).contains(
            pg,
        ) by {
            if pn(alloc.next as int) <= pg < pn(alloc.free_ram_end as int) {
            } else {
                let k = choose|k: int|
                    0 <= k < alloc.runs_len() && #[trigger] frames(
                        alloc.run(k).addr as int,
                        alloc.run(k).num_pages as int,
                    ).contains(pg);
                if k < n {
                    assert(frames(o.run(k).addr as int, o.run(k).num_pages as int).contains(pg));
                }
            }
        }
        assert forall|pg: int| o.owned().union(f).contains(pg) implies alloc.owned().contains(
            pg,
        ) by {
            if pn(o.next as int) <= pg < pn(o.free_ram_end as int) {
            } else if f.contains(pg) {
                assert(frames(alloc.run(n).addr as int, alloc.run(n).num_pages as int).contains(pg));
            } else {
                let k = choose|k: int|
                    0 <= k < o.runs_len() && #[trigger] frames(
                        o.run(k).addr as int,
                        o.run(k).num_pages as int,
                    ).contains(pg);
                assert(frames(alloc.run(k).addr as int, alloc.run(k).num_pages as int).contains(pg));
            }
        }
        assert(alloc.owned() =~= o.owned().union(f));
    }
}

/// Two allocations in a row never overlap, and each lies page-aligned inside
/// free RAM.
pub proof fn lemma_allocations_disjoint(
    a0: PageAllocator,
    a1: PageAllocator,
    a2: PageAllocator,
    n1: usize,
    first: usize,
    n2: usize,
    second: usize,
)
    requires
        a0.wf(),
        a1.wf(),
        frames(first as int, n1 as int).subset_of(a0.owned()),
        a1.owned() == a0.owned().difference(frames(first as int, n1 as int)),
        frames(second as int, n2 as int).subset_of(a1.owned()),
        a2.owned() == a1.owned().difference(frames(second as int, n2 as int)),
    ensures
        frames(first as int, n1 as int).disjoint(frames(second as int, n2 as int)),
        frames(first as int, n1 as int).disjoint(a2.owned()),
        frames(second as int, n2 as int).disjoint(a2.owned()),
{
    assert(frames(first as int, n1 as int).disjoint(a1.owned()));
}

/// A live allocation never overlaps a new one: frames that the allocator
/// does not hold (handed out and not given back) are disjoint from any run
/// it hands out, since it hands out only frames it holds.
pub proof fn lemma_live_allocation_disjoint(a0: PageAllocator, live: usize, m: usize, p: usize, n: usize)
    requires
        frames(live as int, m as int).disjoint(a0.owned()),
        frames(p as int, n as int).subset_of(a0.owned()),
    ensures
        frames(live as int, m as int).disjoint(frames(p as int, n as int)),
{
}

} // verus!
