use vstd::prelude::*;

use crate::csr::satp_for;
use crate::page_table::AddressSpace;
use crate::error::OutOfMemory;
use crate::page_alloc::{PageAllocator, PAGE_SIZE};
use crate::raw_alloc::{class_alloc_ok, KAllocator};
use crate::rc::KrcBox;
use crate::resource_desc::ResourceDescription;
use crate::sync::{KSpinLock, KSpinLockGuard};

verus! {

/// The number of process slots.
pub const MAX_PROCS: usize = 8;

/// Where a user image is loaded.
pub const USER_BASE: usize = 0x0100_0000;

/// Where the first `mmap` allocation goes.
pub const MMAP_BASE: usize = 0x0200_0000;

/// The size of a process's descriptor table.
pub const MAX_NUM_RESOURCE_DESCRIPTORS: usize = 1024;

/// The registers that a context switch keeps: `ra` and `s0` to `s11`.
pub const NUM_CALLEE_SAVED: usize = 13;

/// The size of a kernel stack.
pub const KERNEL_STACK_SIZE: usize = 4096;

/// The states of a process slot.
#[derive(Clone, Copy, Debug, PartialEq, Eq, Structural)]
pub enum ProcessState {
    Unused,
    Runnable,
    Idle,
    Exited,
}

/// An owning handle on a shared, locked resource description.
pub struct ResourceDescriptor {
    pub description: KrcBox<KSpinLock<ResourceDescription>>,
}

/// The bytes that a shared description's header takes: its count, its
/// lock and the description.
pub const DESCRIPTION_HEADER_SIZE: usize = 64;

impl ResourceDescriptor {
    /// A descriptor that is the only handle on `description`, whose header
    /// comes from the size-class allocator.
    pub fn new(description: ResourceDescription, heap: &mut KAllocator, pages: &mut PageAllocator) -> (r: Result<
        ResourceDescriptor,
        OutOfMemory,
    >)
        requires
            old(pages).wf(),
            old(pages).free_ram_end + PAGE_SIZE <= usize::MAX,
            old(pages).free_ram_end % PAGE_SIZE == 0,
            old(heap).wf(old(pages).free_ram_end),
        ensures
            final(pages).wf(),
            final(pages).free_ram == old(pages).free_ram,
            final(pages).free_ram_end == old(pages).free_ram_end,
            final(heap).wf(final(pages).free_ram_end),
            final(pages).owned().subset_of(old(pages).owned()),
            final(pages).next <= old(pages).next + PAGE_SIZE,
            r is Ok <==> class_alloc_ok(*old(heap), *old(pages), DESCRIPTION_HEADER_SIZE as nat),
            r is Err ==> *final(pages) == *old(pages),
            r matches Ok(d) ==> d.description.count() == 1 && d.description.is_live() && (
            d.description.payload() matches Some(l) && l@ == description),
    {
        match KrcBox::new(KSpinLock::new(description), DESCRIPTION_HEADER_SIZE, heap, pages) {
            Ok(b) => Ok(ResourceDescriptor { description: b }),
            Err(e) => Err(e),
        }
    }

    /// The description, locked for the holder of the guard.
    pub fn description(&mut self) -> (r: KSpinLockGuard<'_, ResourceDescription>)
        requires
            old(self).description.is_live(),
        ensures
            *r.data == old(self).description.payload()->0@,
            final(self).description.count() == old(self).description.count(),
            final(self).description.payload() matches Some(l) && l@ == *final(r.data),
            final(self).description.header_size() == old(self).description.header_size(),
    {
        self.description.get_mut().lock()
    }
}

/// A process slot.
pub struct ProcessInner {
    pub pid: u32,
    pub state: ProcessState,
    /// The callee-saved registers as they were when the process was last
    /// switched away from.
    pub context: Vec<u32>,
    pub page_table: AddressSpace,
    pub kernel_stack: usize,
    pub resource_descriptors: Vec<Option<ResourceDescriptor>>,
    pub mmap_head: usize,
}

/// A handle on a process slot.
#[derive(Clone, Copy, Debug, PartialEq, Eq, Structural)]
pub struct Process {
    pub buf_idx: usize,
}

/// The table's invariant holds again after one slot changed, when that slot
/// keeps the per-slot shape.
pub proof fn lemma_table_wf_kept(t0: ProcessTable, t1: ProcessTable, changed: int)
    requires
        t0.wf(),
        t1.slots@.len() == MAX_PROCS,
        t1.current < MAX_PROCS,
        forall|i: int| 0 <= i < MAX_PROCS && i != changed ==> #[trigger] t1.slots@[i] == t0.slots@[i],
        0 <= changed < MAX_PROCS ==> {
            &&& t1.slots@[changed].context@.len() == NUM_CALLEE_SAVED
            &&& t1.slots@[changed].page_table.wf()
            &&& t1.slots@[changed].kernel_stack + KERNEL_STACK_SIZE <= usize::MAX
            &&& t1.slots@[changed].resource_descriptors@.len() == MAX_NUM_RESOURCE_DESCRIPTORS
        },
    ensures
        t1.wf(),
{
    assert forall|i: int| 0 <= i < MAX_PROCS implies {
        &&& (#[trigger] t1.slots@[i]).context@.len() == NUM_CALLEE_SAVED
        &&& t1.slots@[i].page_table.wf()
        &&& t1.slots@[i].kernel_stack + KERNEL_STACK_SIZE <= usize::MAX
        &&& t1.slots@[i].resource_descriptors@.len() == MAX_NUM_RESOURCE_DESCRIPTORS
    } by {
        assert(t0.slots@[i].context@.len() == NUM_CALLEE_SAVED);
    }
}

impl Process {
    /// Mark the process Idle: the scheduler runs it only when nothing is
    /// Runnable.
    pub fn set_idle(&self, table: &mut ProcessTable)
        requires
            old(table).wf(),
            self.buf_idx < MAX_PROCS,
        ensures
            final(table).wf(),
            final(table).current == old(table).current,
            final(table).next_pid == old(table).next_pid,
            final(table).state(self.buf_idx as int) == ProcessState::Idle,
            forall|i: int|
                0 <= i < MAX_PROCS ==> {
                    &&& i != self.buf_idx ==> #[trigger] final(table).slots@[i] == old(table).slots@[i]
                    &&& final(table).slots@[i].pid == old(table).slots@[i].pid
                    &&& final(table).slots@[i].context == old(table).slots@[i].context
                    &&& final(table).slots@[i].page_table == old(table).slots@[i].page_table
                    &&& final(table).slots@[i].kernel_stack == old(table).slots@[i].kernel_stack
                    &&& final(table).slots@[i].mmap_head == old(table).slots@[i].mmap_head
                    &&& final(table).slots@[i].resource_descriptors == old(table).slots@[i].resource_descriptors
                },
    {
        let ghost t0 = *table;
        table.slots[self.buf_idx].state = ProcessState::Idle;
        proof {
            lemma_table_wf_kept(t0, *table, self.buf_idx as int);
        }
    }
}

/// The hart's registers that scheduling touches.
pub struct Cpu {
    pub regs: Vec<u32>,
    pub satp: u32,
    pub sscratch: usize,
}

/// The fixed array of process slots, the slot that runs and the next pid.
pub struct ProcessTable {
    pub slots: Vec<ProcessInner>,
    pub current: usize,
    pub next_pid: u32,
}

/// The slot after `i`, wrapping.
pub open spec fn next_slot(i: int) -> int {
    (i + 1) % MAX_PROCS as int
}

/// How many steps forward from `from` slot `to` lies, in `1..=8`.
pub open spec fn distance(from: int, to: int) -> int {
    let d = (to - from) % MAX_PROCS as int;
    if d == 0 {
        MAX_PROCS as int
    } else {
        d
    }
}

impl ProcessTable {
    pub open spec fn state(&self, i: int) -> ProcessState {
        self.slots@[i].state
    }

    pub open spec fn wf(&self) -> bool {
        &&& self.slots@.len() == MAX_PROCS
        &&& self.current < MAX_PROCS
        &&& forall|i: int|
            0 <= i < MAX_PROCS ==> {
                &&& (#[trigger] self.slots@[i]).context@.len() == NUM_CALLEE_SAVED
                &&& self.slots@[i].page_table.wf()
                &&& self.slots@[i].kernel_stack + KERNEL_STACK_SIZE <= usize::MAX
                &&& self.slots@[i].resource_descriptors@.len() == MAX_NUM_RESOURCE_DESCRIPTORS
            }
    }

    /// Whether some slot is Runnable.
    pub open spec fn any_runnable(&self) -> bool {
        exists|i: int| 0 <= i < MAX_PROCS && #[trigger] self.state(i) == ProcessState::Runnable
    }

    /// The slot that the scheduler picks: the first Runnable one after the
    /// current slot in round-robin order (the current one last); failing
    /// that, the first Idle slot; `None` when neither exists.
    pub open spec fn pick(&self) -> Option<int> {
        if self.any_runnable() {
            Some(
                choose|i: int|
                    0 <= i < MAX_PROCS && self.state(i) == ProcessState::Runnable && forall|j: int|
                        0 <= j < MAX_PROCS && self.state(j) == ProcessState::Runnable ==> distance(
                            self.current as int,
                            i,
                        ) <= distance(self.current as int, j),
            )
        } else if exists|i: int| 0 <= i < MAX_PROCS && #[trigger] self.state(i) == ProcessState::Idle {
            Some(
                choose|i: int|
                    0 <= i < MAX_PROCS && self.state(i) == ProcessState::Idle && forall|j: int|
                        0 <= j < i ==> self.state(j) != ProcessState::Idle,
            )
        } else {
            None
        }
    }
}

/// The slot to run next: the first Runnable slot after the current one in
/// round-robin order, the current one last; else the first Idle slot.
pub fn next_proc_to_run(table: &ProcessTable) -> (r: Option<usize>)
    requires
        table.wf(),
    ensures
        table.any_runnable() ==> (r matches Some(i) && i < MAX_PROCS && table.state(i as int)
            == ProcessState::Runnable && forall|j: int|
            0 <= j < MAX_PROCS && table.state(j) == ProcessState::Runnable ==> distance(
                table.current as int,
                i as int,
            ) <= distance(table.current as int, j)),
        !table.any_runnable() ==> (r is None <==> forall|j: int|
            0 <= j < MAX_PROCS ==> table.state(j) != ProcessState::Idle),
        !table.any_runnable() ==> (r matches Some(i) ==> i < MAX_PROCS && table.state(i as int)
            == ProcessState::Idle && forall|j: int| 0 <= j < i ==> table.state(j) != ProcessState::Idle),
{
    let cur = table.current;
    let mut k: usize = 1;
    while k <= MAX_PROCS
        invariant
            table.wf(),
            cur == table.current,
            1 <= k <= MAX_PROCS + 1,
            forall|j: int|
                0 <= j < MAX_PROCS && distance(cur as int, j) < k ==> table.state(j) != ProcessState::Runnable,
        decreases MAX_PROCS + 1 - k,
    {
        let i = (cur + k) % MAX_PROCS;
        proof {
            assert(distance(cur as int, i as int) == k);
        }
        if table.slots[i].state == ProcessState::Runnable {
            return Some(i);
        }
        k += 1;
    }
    proof {
        assert forall|j: int| 0 <= j < MAX_PROCS implies table.state(j) != ProcessState::Runnable by {
            assert(1 <= distance(cur as int, j) <= MAX_PROCS);
        }
    }
    let mut i: usize = 0;
    while i < MAX_PROCS
        invariant
            table.wf(),
            !table.any_runnable(),
            i <= MAX_PROCS,
            forall|j: int| 0 <= j < i ==> table.state(j) != ProcessState::Idle,
        decreases MAX_PROCS - i,
    {
        if table.slots[i].state == ProcessState::Idle {
            return Some(i);
        }
        i += 1;
    }
    None
}

/// What `switch_context` does: the old slot keeps the hart's callee-saved
/// registers, the hart takes the new slot's, its table and its stack.
pub open spec fn switched(t0: ProcessTable, c0: Seq<u32>, t1: ProcessTable, c1: Seq<u32>, new: int) -> bool {
    let old_slot = t0.current as int;
    &&& t1.slots@.len() == t0.slots@.len()
    &&& t1.current == new
    &&& t1.slots@[old_slot].context@ == c0
    &&& c1 == if new == old_slot { c0 } else { t0.slots@[new].context@ }
    &&& forall|i: int| 0 <= i < t0.slots@.len() && i != old_slot ==> #[trigger] t1.slots@[i].context@ == t0.slots@[i].context@
}

/// Switch the hart from the current slot to slot `new`: save the callee-saved
/// registers into the current slot, point SSCRATCH at the top of the new
/// slot's kernel stack, make its table active, and load its registers.
pub fn switch_context(table: &mut ProcessTable, cpu: &mut Cpu, new: usize)
    requires
        old(table).wf(),
        new < MAX_PROCS,
        old(cpu).regs@.len() == NUM_CALLEE_SAVED,
    ensures
        final(table).wf(),
        switched(*old(table), old(cpu).regs@, *final(table), final(cpu).regs@, new as int),
        final(cpu).regs@.len() == NUM_CALLEE_SAVED,
        final(cpu).sscratch == old(table).slots@[new as int].kernel_stack + KERNEL_STACK_SIZE,
        final(cpu).satp == satp_for_spec(old(table).slots@[new as int].page_table.root.addr),
        final(table).next_pid == old(table).next_pid,
        forall|i: int|
            0 <= i < MAX_PROCS ==> {
                &&& #[trigger] final(table).slots@[i].state == old(table).slots@[i].state
                &&& final(table).slots@[i].pid == old(table).slots@[i].pid
                &&& final(table).slots@[i].page_table == old(table).slots@[i].page_table
                &&& final(table).slots@[i].kernel_stack == old(table).slots@[i].kernel_stack
                &&& final(table).slots@[i].mmap_head == old(table).slots@[i].mmap_head
                &&& final(table).slots@[i].resource_descriptors == old(table).slots@[i].resource_descriptors
            },
{
    let old_slot = table.current;
    let saved = cpu.regs.clone();
    let ghost t0 = *table;
    assert(saved@ == cpu.regs@);
    table.slots[old_slot].context = saved;
    let ghost t_mid = *table;
    assert forall|i: int| 0 <= i < MAX_PROCS && i != old_slot implies #[trigger] t_mid.slots@[i] == t0.slots@[i] by {}
    let loaded = table.slots[new].context.clone();
    assert(loaded@ == table.slots@[new as int].context@);
    let stack_top = table.slots[new].kernel_stack + KERNEL_STACK_SIZE;
    let root = table.slots[new].page_table.root.addr;
    cpu.sscratch = stack_top;
    cpu.satp = satp_for(root);
    cpu.regs = loaded;
    table.current = new;
}

/// The SATP value that makes the table at `addr` active.
pub open spec fn satp_for_spec(addr: usize) -> u32 {
    ((addr / 4096) as u32 | 0x8000_0000u32)
}

/// What a yield did.
#[derive(Clone, Copy, Debug, PartialEq, Eq, Structural)]
pub enum SchedOutcome {
    /// The current slot keeps running.
    Stayed,
    /// The hart now runs another slot.
    Switched,
    /// No slot can run.
    Halt,
}

/// Give up the hart: run the slot that `next_proc_to_run` picks, switching
/// only when it differs from the current one.
pub fn sched_yield(table: &mut ProcessTable, cpu: &mut Cpu) -> (r: SchedOutcome)
    requires
        old(table).wf(),
        old(cpu).regs@.len() == NUM_CALLEE_SAVED,
    ensures
        final(table).wf(),
        final(cpu).regs@.len() == NUM_CALLEE_SAVED,
        final(table).next_pid == old(table).next_pid,
        old(table).pick() is None <==> r == SchedOutcome::Halt,
        r != SchedOutcome::Halt ==> final(table).state(final(table).current as int) == ProcessState::Runnable
            || final(table).state(final(table).current as int) == ProcessState::Idle,
        r == SchedOutcome::Halt || r == SchedOutcome::Stayed ==> final(table).current == old(table).current
            && final(cpu).regs@ == old(cpu).regs@ && final(table).slots@ == old(table).slots@,
        r == SchedOutcome::Switched ==> switched(
            *old(table),
            old(cpu).regs@,
            *final(table),
            final(cpu).regs@,
            final(table).current as int,
        ) && final(table).current != old(table).current,
        old(table).any_runnable() ==> final(table).state(final(table).current as int) == ProcessState::Runnable
            && forall|j: int|
            0 <= j < MAX_PROCS && old(table).state(j) == ProcessState::Runnable ==> distance(
                old(table).current as int,
                final(table).current as int,
            ) <= distance(old(table).current as int, j),
        forall|i: int|
            0 <= i < MAX_PROCS ==> {
                &&& #[trigger] final(table).slots@[i].state == old(table).slots@[i].state
                &&& final(table).slots@[i].pid == old(table).slots@[i].pid
                &&& final(table).slots@[i].page_table == old(table).slots@[i].page_table
                &&& final(table).slots@[i].kernel_stack == old(table).slots@[i].kernel_stack
                &&& final(table).slots@[i].mmap_head == old(table).slots@[i].mmap_head
                &&& final(table).slots@[i].resource_descriptors == old(table).slots@[i].resource_descriptors
            },
{
    let ghost t0 = *table;
    let next = next_proc_to_run(table);
    match next {
        None => {
            proof {
                if t0.any_runnable() {
                } else if exists|i: int| 0 <= i < MAX_PROCS && #[trigger] t0.state(i) == ProcessState::Idle {
                    let i = choose|i: int| 0 <= i < MAX_PROCS && #[trigger] t0.state(i) == ProcessState::Idle;
                    assert(t0.state(i) != ProcessState::Idle);
                }
            }
            SchedOutcome::Halt
        },
        Some(n) => {
            proof {
                if !t0.any_runnable() {
                    assert(exists|i: int| 0 <= i < MAX_PROCS && #[trigger] t0.state(i) == ProcessState::Idle) by {
                        assert(t0.state(n as int) == ProcessState::Idle);
                    }
                }
            }
            if n == table.current {
                SchedOutcome::Stayed
            } else {
                switch_context(table, cpu, n);
                SchedOutcome::Switched
            }
        },
    }
}

/// Registers survive a round trip: a slot switched away from with
/// registers `r` gets exactly `r` back when it is next switched to, provided
/// its saved registers were left alone in between.
pub proof fn lemma_switch_round_trip(
    t0: ProcessTable,
    c0: Seq<u32>,
    t1: ProcessTable,
    c1: Seq<u32>,
    b: int,
    t2: ProcessTable,
    c2: Seq<u32>,
    t3: ProcessTable,
    c3: Seq<u32>,
)
    requires
        t0.wf(),
        switched(t0, c0, t1, c1, b),
        b != t0.current,
        t2.slots@[t0.current as int].context@ == t1.slots@[t0.current as int].context@,
        t2.current != t0.current,
        switched(t2, c2, t3, c3, t0.current as int),
    ensures
        c3 == c0,
{
}

/// Each yield brings the hart closer to every Runnable slot in round-robin
/// order: the slot picked is the Runnable slot `s` itself, or lies strictly
/// between the current slot and `s`. So while the states stay, `s` runs
/// within eight yields.
pub proof fn lemma_yield_progress(t0: ProcessTable, t1: ProcessTable, s: int)
    requires
        t0.wf(),
        0 <= s < MAX_PROCS,
        t0.state(s) == ProcessState::Runnable,
        t1.state(t1.current as int) == ProcessState::Runnable,
        forall|j: int|
            0 <= j < MAX_PROCS && t0.state(j) == ProcessState::Runnable ==> distance(
                t0.current as int,
                t1.current as int,
            ) <= distance(t0.current as int, j),
        t1.current < MAX_PROCS,
    ensures
        t1.current == s || distance(t1.current as int, s) < distance(t0.current as int, s),
{
    let c = t0.current as int;
    let p = t1.current as int;
    assert(distance(c, p) <= distance(c, s));
    if p != s {
        if s == c {
            assert(distance(c, s) == MAX_PROCS);
        }
    }
}

} // verus!
