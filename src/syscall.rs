use vstd::prelude::*;

use crate::error::Error;
use crate::ext2::Ext2;
use crate::memory::PhysicalMemory;
use crate::page_alloc::{alloc_pages, frames, PageAllocator, PAGE_SIZE};
use crate::page_table::{
    map_range, page_addr, in_pages, pte_addr, AddressSpace, PageTableFlags, FLAG_VALID, MAX_ADDRESS,
};
use crate::raw_alloc::{class_alloc_ok, KAllocator};
use crate::proc::{
    DESCRIPTION_HEADER_SIZE,
    Process, USER_BASE, NUM_CALLEE_SAVED,
    sched_yield, Cpu, ProcessInner, ProcessState, ProcessTable, ResourceDescriptor, SchedOutcome,
    MAX_NUM_RESOURCE_DESCRIPTORS, MAX_PROCS, MMAP_BASE,
};
use crate::resource_desc::{
    desc_read_outcome, desc_write_outcome,
    is_utf8, utf8_valid, Console, FileFlags, FileResourceDescriptionData, ResourceDescription,
    FILE_PRESENT, FILE_READABLE, FILE_WRITABLE,
};
use crate::ext2::{parts_view, walk_path, ROOT_INODE};
use crate::page_table::{
    alloc_and_map_slice, map_kernel_memory, pages_for_len, pte_of, kernel_pages, BLOCK_DEVICE_ADDRESS, RNG_DEVICE_ADDRESS, UserMemMut,
    UserMemRef,
};
use crate::csr::AllowUserModeMemory;
use crate::shared::FileOpenFlags;
use crate::shared::ErrorKind;
use crate::virtio::VirtioRandom;

verus! {

/// Readable, Writable, Executable and UserAccessible: user memory.
pub const USER_PAGE_FLAGS: u32 = 30;

/// The registers of a trapped syscall: number in `a0`, arguments in `a1` to
/// `a3`; the result goes back in `a1`, an error kind in `a2`.
#[derive(Clone, Copy, Debug, PartialEq, Eq, Structural)]
pub struct TrapFrame {
    pub a0: u32,
    pub a1: u32,
    pub a2: u32,
    pub a3: u32,
}

/// The frame after a syscall's result is written into it: the value in
/// `a1`, or -1 in `a1` and the error code in `a2`.
pub open spec fn encoded(f0: TrapFrame, f1: TrapFrame, res: Result<u32, ErrorKind>) -> bool {
    &&& f1.a0 == f0.a0
    &&& f1.a3 == f0.a3
    &&& match res {
        Ok(v) => f1.a1 == v && f1.a2 == f0.a2,
        Err(k) => f1.a1 == u32::MAX && f1.a2 == k.spec_code(),
    }
}

/// Write a syscall's result into the frame.
pub fn encode_result(frame: &mut TrapFrame, res: Result<u32, Error>)
    ensures
        encoded(*old(frame), *final(frame), match res {
            Ok(v) => Ok::<u32, ErrorKind>(v),
            Err(e) => Err::<u32, ErrorKind>(e.kind),
        }),
{
    match res {
        Ok(v) => {
            frame.a1 = v;
        },
        Err(e) => {
            frame.a1 = u32::MAX;
            frame.a2 = e.kind.code();
        },
    }
}

/// The bytes of user memory `[va, va + len)` as the table maps them.
pub fn copy_from_user(space: &AddressSpace, mem: &PhysicalMemory, va: usize, len: usize) -> (r: Option<Vec<u8>>)
    requires
        space.wf(),
        mem.base + mem.bytes@.len() <= usize::MAX,
        va + len <= usize::MAX,
    ensures
        r matches Some(v) ==> (v@.len() == len && forall|i: int|
            #![trigger space.mapping(va + i)]
            #![trigger v@[i]]
            0 <= i < len ==> space.mapping(va + i) is Some && mem.holds(space.translate(va + i), 1)
                && v@[i] == mem.byte(space.translate(va + i))),
        r is None ==> exists|i: int|
            0 <= i < len && !(#[trigger] space.mapping(va + i) is Some && mem.holds(space.translate(va + i), 1)),
{
    let mut out: Vec<u8> = Vec::new();
    let mut i: usize = 0;
    while i < len
        invariant
            space.wf(),
            mem.base + mem.bytes@.len() <= usize::MAX,
            va + len <= usize::MAX,
            i <= len,
            out@.len() == i,
            forall|j: int|
                #![trigger space.mapping(va + j)]
                #![trigger out@[j]]
                0 <= j < i ==> space.mapping(va + j) is Some && mem.holds(space.translate(va + j), 1)
                    && out@[j] == mem.byte(space.translate(va + j)),
        decreases len - i,
    {
        let a = va + i;
        let e = match space.entry_for_vaddr(a) {
            Some(e) => e,
            None => {
                assert(!(space.mapping(va + i) is Some));
                return None;
            },
        };
        let raw = e.0;
        proof {
            assert((raw & 31u32) & 1u32 == raw & 1u32) by (bit_vector);
        }
        if !e.flags().valid() {
            assert(!(space.mapping(va + i) is Some));
            return None;
        }
        let base = e.physical_addr().0;
        let pa = base + a % PAGE_SIZE;
        if !mem.contains(pa, 1) {
            assert(space.translate(va + i) == pa);
            return None;
        }
        out.push(mem.bytes[pa - mem.base]);
        i += 1;
    }
    Some(out)
}

/// The user memory after writing `data` at `va`, byte by byte.
pub open spec fn written(m: Seq<u8>, base: int, space: AddressSpace, va: int, data: Seq<u8>) -> Seq<u8>
    decreases data.len(),
{
    if data.len() == 0 {
        m
    } else {
        let prev = written(m, base, space, va, data.drop_last());
        prev.update(space.translate(va + data.len() - 1) - base, data.last())
    }
}

/// Write `data` into user memory at `va` as the table maps it; nothing is
/// written unless every byte lands in memory.
pub fn copy_to_user(space: &AddressSpace, mem: &mut PhysicalMemory, va: usize, data: &[u8]) -> (r: bool)
    requires
        space.wf(),
        old(mem).base + old(mem).bytes@.len() <= usize::MAX,
        va + data@.len() <= usize::MAX,
    ensures
        final(mem).base == old(mem).base,
        final(mem).bytes@.len() == old(mem).bytes@.len(),
        r <==> forall|i: int|
            0 <= i < data@.len() ==> #[trigger] space.mapping(va + i) is Some && old(mem).holds(space.translate(va + i), 1),
        r ==> final(mem).bytes@ == written(old(mem).bytes@, old(mem).base as int, *space, va as int, data@),
        !r ==> final(mem).bytes@ == old(mem).bytes@,
{
    let check = copy_from_user(space, &*mem, va, data.len());
    match check {
        None => {
            return false;
        },
        Some(v) => {
            assert(v@.len() == data@.len());
            assert forall|j: int| 0 <= j < data@.len() implies #[trigger] space.mapping(va + j) is Some
                && old(mem).holds(space.translate(va + j), 1) by {
                let x = v@[j];
            }
        },
    }
    let mut i: usize = 0;
    while i < data.len()
        invariant
            space.wf(),
            mem.base == old(mem).base,
            mem.bytes@.len() == old(mem).bytes@.len(),
            mem.base + mem.bytes@.len() <= usize::MAX,
            va + data@.len() <= usize::MAX,
            i <= data@.len(),
            forall|j: int|
                0 <= j < data@.len() ==> #[trigger] space.mapping(va + j) is Some && old(mem).holds(space.translate(va + j), 1),
            mem.bytes@ == written(old(mem).bytes@, old(mem).base as int, *space, va as int, data@.subrange(0, i as int)),
        decreases data@.len() - i,
    {
        let a = va + i;
        assert(space.mapping(va + i) is Some);
        let e = space.entry_for_vaddr(a).unwrap();
        let base = e.physical_addr().0;
        let pa = base + a % PAGE_SIZE;
        assert(space.translate(va + i) == pa);
        assert(old(mem).holds(space.translate(va + i), 1));
        mem.bytes.set(pa - mem.base, data[i]);
        proof {
            assert(data@.subrange(0, i + 1).drop_last() =~= data@.subrange(0, i as int));
        }
        i += 1;
    }
    assert(data@.subrange(0, data@.len() as int) =~= data@);
    true
}

/// The components of a path without its leading slash, split at each `/`
/// as `str::split` does: `a/b` gives `a` and `b`, an empty path one empty
/// component.
pub open spec fn split_from(s: Seq<u8>, i: int, cur: Seq<u8>, acc: Seq<Seq<u8>>) -> Seq<Seq<u8>>
    decreases s.len() - i,
{
    if i >= s.len() {
        acc.push(cur)
    } else if s[i] == 0x2f {
        split_from(s, i + 1, Seq::empty(), acc.push(cur))
    } else {
        split_from(s, i + 1, cur.push(s[i]), acc)
    }
}

/// The components of `s`, split at each `/`.
pub open spec fn split_path_spec(s: Seq<u8>) -> Seq<Seq<u8>> {
    split_from(s, 0, Seq::empty(), Seq::empty())
}

/// Split `s[start..]` at each `/`.
pub fn split_path(s: &[u8], start: usize) -> (r: Vec<Vec<u8>>)
    requires
        start <= s@.len(),
    ensures
        parts_view(r@) == split_from(s@, start as int, Seq::empty(), Seq::empty()),
{
    let mut acc: Vec<Vec<u8>> = Vec::new();
    let mut cur: Vec<u8> = Vec::new();
    let mut i = start;
    assert(cur@ =~= Seq::<u8>::empty());
    assert(parts_view(acc@) =~= Seq::<Seq<u8>>::empty());
    while i < s.len()
        invariant
            start <= i <= s@.len(),
            split_from(s@, start as int, Seq::empty(), Seq::empty()) == split_from(s@, i as int, cur@, parts_view(acc@)),
        decreases s@.len() - i,
    {
        if s[i] == 0x2f {
            let done = cur;
            proof {
                assert(parts_view(acc@.push(done)) =~= parts_view(acc@).push(done@));
            }
            acc.push(done);
            cur = Vec::new();
            assert(cur@ =~= Seq::<u8>::empty());
        } else {
            cur.push(s[i]);
        }
        i += 1;
    }
    proof {
        assert(parts_view(acc@.push(cur)) =~= parts_view(acc@).push(cur@));
    }
    acc.push(cur);
    acc
}

/// What a syscall asked for and did not get done in the kernel alone.
#[derive(Clone, Copy, Debug, PartialEq, Eq, Structural)]
pub enum SyscallOutcome {
    /// Return to the process that the hart now runs.
    Resume,
    /// No process can run any more.
    Halt,
    /// The syscall number is unknown.
    Unknown,
    /// A console read waits for input: the frame is untouched, and the trap
    /// is to be served again once input has arrived.
    WaitForInput,
}

/// The kernel's whole state: memory, processes and devices.
pub struct Kernel {
    pub kernel_base: usize,
    pub pages: PageAllocator,
    pub heap: KAllocator,
    pub mem: PhysicalMemory,
    pub procs: ProcessTable,
    pub storage: Option<Ext2>,
    pub random: Option<VirtioRandom>,
    pub console: Console,
    pub cpu: Cpu,
    pub sstatus: u32,
}

/// The `n` pages from `v` of the current process map, in order, to the
/// zeroed frames from `p`, user-readable, writable and executable.
pub open spec fn mapped_zeroed(k: Kernel, v: int, n: int, p: int) -> bool {
    &&& p % PAGE_SIZE as int == 0
    &&& forall|va: int| in_pages(va, v, n) ==> #[trigger] k.cur().page_table.mapping(va)
        == Some(pte_of((p + (va - v)) as usize, USER_PAGE_FLAGS | FLAG_VALID))
    &&& forall|q: int| p <= q < p + n * PAGE_SIZE ==> #[trigger] k.mem.byte(q) == 0
}

/// Slot `i`'s image `data` lies in the frames from `f`, which its table maps
/// in order from `USER_BASE`, user-readable, writable and executable.
pub open spec fn image_at(k: Kernel, i: int, data: Seq<u8>, f: int) -> bool {
    &&& f % PAGE_SIZE as int == 0
    &&& forall|va: int| in_pages(va, USER_BASE as int, pages_for_len(data.len() as int)) ==> #[trigger] k.slot(i).page_table.mapping(va)
        == Some(pte_of((f + (va - USER_BASE)) as usize, USER_PAGE_FLAGS | FLAG_VALID))
    &&& forall|q: int| 0 <= q < data.len() ==> #[trigger] k.mem.byte(f + q) == data[q]
}

/// The flags of a file opened with open flags `bits`: Present, with
/// Readable for read and Writable for write.
pub open spec fn open_file_bits(bits: u32) -> u32 {
    FILE_PRESENT | (if bits & crate::shared::OPEN_READ_ONLY != 0 { FILE_READABLE } else { 0 }) | (if bits
        & crate::shared::OPEN_WRITE_ONLY != 0 {
        FILE_WRITABLE
    } else {
        0
    })
}

/// The inode that an absolute `path` names on the mounted file system.
pub open spec fn open_inode(k: Kernel, path: Seq<u8>) -> u32 {
    walk_path(k.storage->0.disk(), k.storage->0.sb, ROOT_INODE, split_from(path, 1, Seq::empty(), Seq::empty()))->Ok_0
}

/// Where a new file description starts: the file's end for append, else 0.
pub open spec fn open_offset(k: Kernel, path: Seq<u8>, bits: u32) -> u64 {
    if bits & crate::shared::OPEN_APPEND != 0 {
        let fs = k.storage->0;
        crate::ext2::file_size_at(fs.disk(), crate::ext2::inode_addr(fs.disk(), fs.sb, open_inode(k, path))) as u64
    } else {
        0
    }
}

/// What `Open` of `path` with open flags `bits` gives: an invalid path, a
/// full table, a missing file system or a failed lookup is an error;
/// otherwise the lowest free descriptor.
pub open spec fn spec_open(k: Kernel, path: Seq<u8>, bits: u32) -> Result<int, ErrorKind> {
    if !is_utf8(path) || path.len() == 0 || path[0] != 0x2f {
        Err(ErrorKind::InvalidFormat)
    } else if k.table_full() {
        Err(ErrorKind::LimitReached)
    } else if k.storage is None {
        Err(ErrorKind::Io)
    } else {
        let fs = k.storage->0;
        match walk_path(fs.disk(), fs.sb, ROOT_INODE, split_from(path, 1, Seq::empty(), Seq::empty())) {
            Err(e) => Err(e),
            Ok(n) => if bits & crate::shared::OPEN_APPEND != 0 && crate::ext2::inode_error(fs.disk(), fs.sb, n) is Some {
                Err(crate::ext2::inode_error(fs.disk(), fs.sb, n)->0)
            } else {
                Ok(choose|d: int| k.lowest_free(d))
            },
        }
    }
}

/// Whether a new description's header can be had from its size class.
pub open spec fn desc_alloc_ok(k: Kernel) -> bool {
    class_alloc_ok(k.heap, k.pages, DESCRIPTION_HEADER_SIZE as nat)
}

/// After `Open`, descriptor `d` is the only handle on a new file
/// description and every other descriptor is as it was.
pub open spec fn opened_file(k0: Kernel, k1: Kernel, path: Seq<u8>, bits: u32, d: int) -> bool {
    &&& k1.cur().resource_descriptors@[d] matches Some(rd) && rd.description.count() == 1
        && rd.description.payload()->0@ == ResourceDescription {
        vtable: crate::resource_desc::ResourceKind::File,
        data: crate::resource_desc::ResourceDescriptionData::File(
            FileResourceDescriptionData {
                flags: FileFlags { bits: open_file_bits(bits) },
                inode_num: open_inode(k0, path),
                offset: open_offset(k0, path, bits),
            },
        ),
    }
    &&& forall|e: int|
        0 <= e < MAX_NUM_RESOURCE_DESCRIPTORS && e != d ==> #[trigger] k1.cur().resource_descriptors@[e]
            == k0.cur().resource_descriptors@[e]
}

/// The lowest free descriptor is one.
pub proof fn lemma_lowest_free_unique(k: Kernel, d1: int, d2: int)
    requires
        k.lowest_free(d1),
        k.lowest_free(d2),
    ensures
        d1 == d2,
{
    if d1 < d2 {
        assert(k.rd_open(k.procs.current as int, d1));
    } else if d2 < d1 {
        assert(k.rd_open(k.procs.current as int, d2));
    }
}

/// The description behind the current process's descriptor `d`.
pub open spec fn payload(k: Kernel, d: int) -> ResourceDescription {
    k.cur().resource_descriptors@[d]->0.description.payload()->0@
}

/// `n` zero bytes.
pub open spec fn zeros(n: int) -> Seq<u8> {
    Seq::new(n as nat, |i: int| 0u8)
}

/// Whether every byte of the current process's `[va, va + len)` is mapped
/// onto memory that the kernel holds.
pub open spec fn user_in_mem(k: Kernel, va: int, len: int) -> bool {
    forall|i: int|
        0 <= i < len ==> #[trigger] k.cur().page_table.mapping(va + i) is Some && k.mem.holds(
            k.cur().page_table.translate(va + i),
            1,
        )
}

/// The current process's bytes `[va, va + len)`.
pub open spec fn user_bytes(k: Kernel, va: int, len: int) -> Seq<u8> {
    Seq::new(len as nat, |i: int| k.mem.byte(k.cur().page_table.translate(va + i)))
}

/// A read of descriptor `d` would wait for console input.
pub open spec fn read_blocks(k: Kernel, d: int, len: int) -> bool {
    &&& k.descriptor_lookup(d) is Ok
    &&& payload(k, d).vtable == crate::resource_desc::ResourceKind::ConsoleIn
    &&& k.console.input@.len() == 0
    &&& len > 0
}

/// What `Read` of `len` bytes from open descriptor `d` into `va` does: the
/// description reads into a zeroed buffer, giving `r0` and bytes `b`; an
/// error is passed on; a count `n` has the first `n` bytes written to user
/// memory, or `NotPermitted` when that memory is not there.
pub open spec fn read_step(
    k0: Kernel,
    k1: Kernel,
    d: int,
    va: int,
    len: int,
    r0: Result<usize, Error>,
    b: Seq<u8>,
    r: Result<usize, Error>,
) -> bool {
    &&& desc_read_outcome(payload(k0, d), k0.storage, k0.console.input@, zeros(len), r0, payload(k1, d), k1.storage, k1.console.input@, b)
    &&& k1.console.output@ == k0.console.output@
    &&& r0 matches Err(e) ==> r == Err::<usize, Error>(e) && k1.mem.bytes@ == k0.mem.bytes@
    &&& r0 matches Ok(n) ==> {
        &&& user_in_mem(k0, va, n as int) ==> r == Ok::<usize, Error>(n) && k1.mem.bytes@ == written(
            k0.mem.bytes@,
            k0.mem.base as int,
            k0.cur().page_table,
            va,
            b.subrange(0, n as int),
        )
        &&& !user_in_mem(k0, va, n as int) ==> r == Err::<usize, Error>(Error { kind: ErrorKind::NotPermitted })
            && k1.mem.bytes@ == k0.mem.bytes@
    }
}

/// What `Write` of `len` bytes at `va` to open descriptor `d` does: the
/// user bytes go to the description, whose result is passed on; missing
/// user memory gives `NotPermitted` and changes nothing.
pub open spec fn write_step(k0: Kernel, k1: Kernel, d: int, va: int, len: int, r: Result<usize, Error>) -> bool {
    &&& !user_in_mem(k0, va, len) ==> r == Err::<usize, Error>(Error { kind: ErrorKind::NotPermitted })
        && k1.console.output@ == k0.console.output@ && payload(k1, d) == payload(k0, d)
    &&& user_in_mem(k0, va, len) ==> desc_write_outcome(payload(k0, d), k0.storage, k0.console.output@, user_bytes(k0, va, len), r, payload(k1, d), k1.storage, k1.console.output@)
    &&& k1.mem.bytes@ == k0.mem.bytes@
    &&& k1.console.input@ == k0.console.input@
}

/// Whether the current process's `[va, va + len)` fits the address space
/// and every page of it is mapped with `flags`.
pub open spec fn user_range_ok(k: Kernel, va: int, len: int, flags: u32) -> bool {
    va + len + PAGE_SIZE <= usize::MAX && crate::page_table::range_has_flags(k.cur().page_table, va, len, flags)
}

/// The reply that a syscall's result becomes.
pub open spec fn reply(r: Result<usize, Error>) -> Result<u32, ErrorKind> {
    match r {
        Ok(n) => Ok(n as u32),
        Err(e) => Err(e.kind),
    }
}

/// A yield either kept the hart on the same slot with its registers, or
/// switched it to another slot, saving and loading callee-saved registers.
pub open spec fn kept_or_switched(k0: Kernel, k1: Kernel) -> bool {
    ||| k1.procs.current == k0.procs.current && k1.cpu.regs@ == k0.cpu.regs@
    ||| crate::proc::switched(k0.procs, k0.cpu.regs@, k1.procs, k1.cpu.regs@, k1.procs.current as int)
}

/// What `GetRandom` of `len` bytes at `va` does: without an entropy device,
/// or when the device has fewer bytes than asked, `Io`; otherwise the
/// device's next bytes land in user memory, or `NotPermitted` when that
/// memory is not there.
pub open spec fn random_step(k0: Kernel, k1: Kernel, va: int, len: int, r: Result<u32, Error>) -> bool {
    &&& k0.random is None ==> r == Err::<u32, Error>(Error { kind: ErrorKind::Io }) && k1.mem.bytes@ == k0.mem.bytes@
    &&& (k0.random is Some && len <= u32::MAX) ==> {
        let dev = k0.random->0;
        &&& len > dev.source.bytes@.len() ==> r == Err::<u32, Error>(Error { kind: ErrorKind::Io })
            && k1.mem.bytes@ == k0.mem.bytes@
        &&& len <= dev.source.bytes@.len() && user_in_mem(k0, va, len) ==> r == Ok::<u32, Error>(0)
            && k1.mem.bytes@ == written(
            k0.mem.bytes@,
            k0.mem.base as int,
            k0.cur().page_table,
            va,
            dev.source.bytes@.subrange(0, len),
        )
        &&& len <= dev.source.bytes@.len() && !user_in_mem(k0, va, len) ==> r == Err::<u32, Error>(
            Error { kind: ErrorKind::NotPermitted },
        ) && k1.mem.bytes@ == k0.mem.bytes@
    }
}

/// No device was used: the console, the file system and the entropy device
/// are as they were.
pub open spec fn devices_untouched(k0: Kernel, k1: Kernel) -> bool {
    &&& k1.console.input@ == k0.console.input@
    &&& k1.console.output@ == k0.console.output@
    &&& k1.storage == k0.storage
    &&& k1.random == k0.random
}

/// What the dispatcher does with the trap `f0`, by syscall number: the
/// result goes into the frame as `encoded` says, and each syscall's effect
/// is the one its own function states.
pub open spec fn dispatched(k0: Kernel, k1: Kernel, f0: TrapFrame, f1: TrapFrame, r: SyscallOutcome) -> bool {
    let cur = k0.procs.current as int;
    &&& (f0.a0 != 4 && f0.a0 != 5) ==> k1.procs.current == k0.procs.current
    &&& f0.a0 == 3 ==> r == SyscallOutcome::Resume && encoded(f0, f1, Ok::<u32, ErrorKind>(k0.cur().pid))
    &&& f0.a0 == 4 ==> {
        &&& f1.a1 == 0
        &&& r == SyscallOutcome::Halt <==> k0.procs.pick() is None
        &&& r == SyscallOutcome::Halt || r == SyscallOutcome::Resume
        &&& kept_or_switched(k0, k1)
    }
    &&& f0.a0 == 5 ==> {
        &&& k1.slot(cur).state == ProcessState::Exited
        &&& forall|e: int| 0 <= e < MAX_NUM_RESOURCE_DESCRIPTORS ==> !#[trigger] k1.rd_open(cur, e)
        &&& r == SyscallOutcome::Halt || r == SyscallOutcome::Resume
        &&& r == SyscallOutcome::Resume ==> k1.procs.current != cur
    }
    &&& f0.a0 == 6 ==> r == SyscallOutcome::Resume && {
        &&& !user_range_ok(k0, f0.a1 as int, f0.a2 as int, crate::page_table::USER_WRITE_FLAGS) ==> encoded(
            f0,
            f1,
            Err::<u32, ErrorKind>(ErrorKind::NotPermitted),
        ) && k1.mem.bytes@ == k0.mem.bytes@ && devices_untouched(k0, k1)
        &&& user_range_ok(k0, f0.a1 as int, f0.a2 as int, crate::page_table::USER_WRITE_FLAGS) ==> exists|rr: Result<u32, Error>|
            #[trigger] random_step(k0, k1, f0.a1 as int, f0.a2 as int, rr) && encoded(f0, f1, match rr {
                Ok(v) => Ok::<u32, ErrorKind>(v),
                Err(e) => Err::<u32, ErrorKind>(e.kind),
            })
    }
    &&& f0.a0 == 7 ==> r == SyscallOutcome::Resume && {
        &&& !(user_range_ok(k0, f0.a1 as int, f0.a2 as int, crate::page_table::USER_READ_FLAGS) && user_in_mem(
            k0,
            f0.a1 as int,
            f0.a2 as int,
        )) ==> encoded(f0, f1, Err::<u32, ErrorKind>(ErrorKind::NotPermitted))
            && k1.cur().resource_descriptors@ == k0.cur().resource_descriptors@ && devices_untouched(k0, k1)
        &&& (user_range_ok(k0, f0.a1 as int, f0.a2 as int, crate::page_table::USER_READ_FLAGS) && user_in_mem(
            k0,
            f0.a1 as int,
            f0.a2 as int,
        )) ==> {
            let path = user_bytes(k0, f0.a1 as int, f0.a2 as int);
            let bits = f0.a3 & crate::shared::OPEN_MASK;
            &&& spec_open(k0, path, bits) matches Ok(d) ==> {
                &&& desc_alloc_ok(k0) ==> encoded(f0, f1, Ok::<u32, ErrorKind>(d as u32)) && opened_file(k0, k1, path, bits, d)
                &&& !desc_alloc_ok(k0) ==> encoded(f0, f1, Err::<u32, ErrorKind>(ErrorKind::OutOfMemory))
                    && k1.cur().resource_descriptors@ == k0.cur().resource_descriptors@
            }
            &&& spec_open(k0, path, bits) matches Err(e) ==> encoded(f0, f1, Err::<u32, ErrorKind>(e))
                && k1.cur().resource_descriptors@ == k0.cur().resource_descriptors@
        }
    }
    &&& f0.a0 == 8 ==> r == SyscallOutcome::Resume && encoded(f0, f1, match k0.descriptor_lookup(f0.a1 as int) {
        Ok(()) => Ok::<u32, ErrorKind>(0),
        Err(e) => Err::<u32, ErrorKind>(e),
    }) && (f0.a1 < MAX_NUM_RESOURCE_DESCRIPTORS ==> !k1.rd_open(k1.procs.current as int, f0.a1 as int))
    &&& f0.a0 == 9 ==> {
        &&& !user_range_ok(k0, f0.a2 as int, f0.a3 as int, crate::page_table::USER_WRITE_FLAGS) ==> r
            == SyscallOutcome::Resume && encoded(f0, f1, Err::<u32, ErrorKind>(ErrorKind::NotPermitted))
            && k1.mem.bytes@ == k0.mem.bytes@ && k1.cur().resource_descriptors@ == k0.cur().resource_descriptors@
            && devices_untouched(k0, k1)
        &&& user_range_ok(k0, f0.a2 as int, f0.a3 as int, crate::page_table::USER_WRITE_FLAGS) && read_blocks(
            k0,
            f0.a1 as int,
            f0.a3 as int,
        ) ==> r == SyscallOutcome::WaitForInput && f1 == f0
        &&& user_range_ok(k0, f0.a2 as int, f0.a3 as int, crate::page_table::USER_WRITE_FLAGS) && !read_blocks(
            k0,
            f0.a1 as int,
            f0.a3 as int,
        ) ==> r == SyscallOutcome::Resume && {
            &&& k0.descriptor_lookup(f0.a1 as int) matches Err(e) ==> encoded(f0, f1, Err::<u32, ErrorKind>(e))
                && k1.mem.bytes@ == k0.mem.bytes@ && k1.cur().resource_descriptors@ == k0.cur().resource_descriptors@
            &&& k0.descriptor_lookup(f0.a1 as int) is Ok ==> exists|r0: Result<usize, Error>, b: Seq<u8>, rr: Result<usize, Error>|
                #[trigger] read_step(k0, k1, f0.a1 as int, f0.a2 as int, f0.a3 as int, r0, b, rr) && encoded(f0, f1, reply(rr))
        }
    }
    &&& f0.a0 == 10 ==> r == SyscallOutcome::Resume && {
        &&& !user_range_ok(k0, f0.a2 as int, f0.a3 as int, crate::page_table::USER_READ_FLAGS) ==> encoded(
            f0,
            f1,
            Err::<u32, ErrorKind>(ErrorKind::NotPermitted),
        ) && k1.cur().resource_descriptors@ == k0.cur().resource_descriptors@ && k1.mem.bytes@ == k0.mem.bytes@
            && devices_untouched(k0, k1)
        &&& user_range_ok(k0, f0.a2 as int, f0.a3 as int, crate::page_table::USER_READ_FLAGS) ==> {
            &&& k0.descriptor_lookup(f0.a1 as int) matches Err(e) ==> encoded(f0, f1, Err::<u32, ErrorKind>(e))
            &&& k0.descriptor_lookup(f0.a1 as int) is Ok ==> exists|rr: Result<usize, Error>|
                #[trigger] write_step(k0, k1, f0.a1 as int, f0.a2 as int, f0.a3 as int, rr) && encoded(f0, f1, reply(rr))
        }
    }
    &&& f0.a0 == 11 ==> r == SyscallOutcome::Resume && {
        let n = pages_for_len(f0.a1 as int);
        let v = k0.cur().mmap_head;
        &&& (encoded(f0, f1, Ok::<u32, ErrorKind>(v as u32)) && k1.cur().mmap_head == v + (n + 1) * PAGE_SIZE
            && (exists|p: int| #[trigger] mapped_zeroed(k1, v as int, n, p))
            && k1.cur().page_table.mapping(v + n * PAGE_SIZE) is None)
            || encoded(f0, f1, Err::<u32, ErrorKind>(ErrorKind::OutOfMemory))
        &&& v + (n + 1) * PAGE_SIZE <= BLOCK_DEVICE_ADDRESS && k0.pages.next + 2 * n * PAGE_SIZE
            <= k0.pages.free_ram_end ==> encoded(f0, f1, Ok::<u32, ErrorKind>(v as u32))
    }
    &&& f0.a0 == 12 ==> r == SyscallOutcome::Resume && f1.a1 == 0
    &&& (f0.a0 < 3 || f0.a0 > 12) ==> r == SyscallOutcome::Unknown && f1 == f0
}

/// The current slot's invariant.
pub open spec fn k_slot_ok_cur(k: Kernel) -> bool {
    k.slot_ok(k.procs.current as int)
}

impl Kernel {
    pub open spec fn slot(&self, i: int) -> ProcessInner {
        self.procs.slots@[i]
    }

    pub open spec fn cur(&self) -> ProcessInner {
        self.procs.slots@[self.procs.current as int]
    }

    /// Descriptor `d` of slot `i` is open.
    pub open spec fn rd_open(&self, i: int, d: int) -> bool {
        self.slot(i).resource_descriptors@[d] is Some
    }

    /// A slot's tables stay clear of the frames the allocator holds, its
    /// `mmap` cursor has nothing mapped above it up to the devices, and its
    /// open descriptors are live.
    pub open spec fn slot_ok(&self, i: int) -> bool {
        &&& self.slot(i).page_table.table_frames().disjoint(self.pages.owned())
        &&& self.slot(i).mmap_head % PAGE_SIZE == 0
        &&& MMAP_BASE <= self.slot(i).mmap_head <= BLOCK_DEVICE_ADDRESS
        &&& forall|va: int|
            page_addr(va) && self.slot(i).mmap_head <= va < BLOCK_DEVICE_ADDRESS
                ==> #[trigger] self.slot(i).page_table.mapping(va) is None
        &&& forall|d: int|
            0 <= d < MAX_NUM_RESOURCE_DESCRIPTORS ==> (#[trigger] self.slot(i).resource_descriptors@[d] matches Some(rd)
                ==> rd.description.is_live() 
                && rd.description.payload()->0@.wf())
    }

    pub open spec fn wf(&self) -> bool {
        &&& self.pages.wf()
        &&& self.pages.free_ram_end <= MAX_ADDRESS
        &&& self.pages.free_ram_end + PAGE_SIZE <= usize::MAX
        &&& self.heap.wf(self.pages.free_ram_end)
        &&& self.mem.base == self.pages.free_ram
        &&& self.mem.bytes@.len() == self.pages.free_ram_end - self.pages.free_ram
        &&& self.procs.wf()
        &&& self.cpu.regs@.len() == crate::proc::NUM_CALLEE_SAVED
        &&& crate::page_table::RNG_DEVICE_ADDRESS < self.kernel_base <= self.pages.free_ram
        &&& self.kernel_base % PAGE_SIZE == 0
        &&& self.storage matches Some(e) ==> e.wf()
        &&& self.random matches Some(d) ==> d.wf()
        &&& forall|i: int| 0 <= i < MAX_PROCS ==> #[trigger] self.slot_ok(i)
    }

    /// Give the current process `size` bytes of fresh zeroed memory, mapped
    /// user-readable, writable and executable at its `mmap` cursor, and move
    /// the cursor one page past the end to leave a guard gap.
    pub fn syscall_mmap(&mut self, size: u32) -> (r: Result<usize, Error>)
        requires
            old(self).wf(),
        ensures
            final(self).wf(),
            final(self).procs.current == old(self).procs.current,
            r matches Ok(v) ==> {
                let n = pages_for_len(size as int);
                &&& v == old(self).cur().mmap_head
                &&& final(self).cur().mmap_head == v + (n + 1) * PAGE_SIZE
                &&& exists|p: int| #[trigger] mapped_zeroed(*final(self), v as int, n, p)
                &&& final(self).cur().page_table.mapping(v + n * PAGE_SIZE) is None
            },
            r matches Err(e) ==> e.kind == ErrorKind::OutOfMemory,
            old(self).cur().mmap_head + (pages_for_len(size as int) + 1) * PAGE_SIZE <= BLOCK_DEVICE_ADDRESS
                && old(self).pages.next + 2 * pages_for_len(size as int) * PAGE_SIZE <= old(self).pages.free_ram_end
                ==> r is Ok,
            r is Err ==> old(self).cur().mmap_head + (pages_for_len(size as int) + 1) * PAGE_SIZE > BLOCK_DEVICE_ADDRESS
                || (!old(self).pages.has_run_of(pages_for_len(size as int) as usize) && old(self).pages.next
                + pages_for_len(size as int) * PAGE_SIZE > old(self).pages.free_ram_end) || (!final(self).pages.has_run_of(1)
                && final(self).pages.next + PAGE_SIZE > final(self).pages.free_ram_end),
            forall|i: int| 0 <= i < MAX_PROCS ==> #[trigger] final(self).slot(i).state == old(self).slot(i).state
                && final(self).slot(i).pid == old(self).slot(i).pid,
    {
        let cur = self.procs.current;
        let size = size as usize;
        let n = size / PAGE_SIZE + if size % PAGE_SIZE == 0 { 0 } else { 1 };
        assert(n == pages_for_len(size as int));
        let head = self.procs.slots[cur].mmap_head;
        proof {
            assert(k_slot_ok_cur(*self)) by {
                assert(self.slot_ok(cur as int));
            }
        }
        if n >= BLOCK_DEVICE_ADDRESS / PAGE_SIZE {
            assert((n + 1) * PAGE_SIZE > BLOCK_DEVICE_ADDRESS) by (nonlinear_arith)
                requires n >= 65537usize,
            ;
            return Err(Error { kind: ErrorKind::OutOfMemory });
        }
        assert((n + 1) * PAGE_SIZE <= BLOCK_DEVICE_ADDRESS + PAGE_SIZE) by (nonlinear_arith)
            requires n < 65537usize,
        ;
        if head + (n + 1) * PAGE_SIZE > BLOCK_DEVICE_ADDRESS {
            return Err(Error { kind: ErrorKind::OutOfMemory });
        }
        assert(2 * n * PAGE_SIZE == n * PAGE_SIZE + n * PAGE_SIZE) by (nonlinear_arith);
        assert((n + 1) * PAGE_SIZE == n * PAGE_SIZE + PAGE_SIZE) by (nonlinear_arith);
        let ghost k0 = *self;
        let p = match crate::memory::alloc_pages_zeroed(&mut self.pages, &mut self.mem, n) {
            Ok(p) => p,
            Err(_) => {
                proof {
                    Kernel::lemma_pages_shrunk(k0, *self);
                }
                return Err(Error { kind: ErrorKind::OutOfMemory });
            },
        };
        let ghost k1 = *self;
        proof {
            assert forall|i: int| 0 <= i < MAX_PROCS implies (#[trigger] self.slot(i)).page_table.table_frames().disjoint(self.pages.owned()) by {
                assert(k0.slot_ok(i));
            }
            assert(k0.slot_ok(cur as int));
            assert forall|va: int| in_pages(va, head as int, n as int) implies #[trigger] self.cur().page_table.mapping(va) is None by {
                assert(page_addr(va));
                assert(k0.cur().page_table.mapping(va) is None);
            }
        }
        let ghost mem1 = self.mem;
        let ghost guard_before = self.cur().page_table.mapping(head + n * PAGE_SIZE);
        proof {
            assert(page_addr(head + n * PAGE_SIZE));
            assert(k0.slot(cur as int).page_table.mapping(head + n * PAGE_SIZE) is None);
        }
        let res = map_range(&mut self.procs.slots[cur].page_table, &mut self.pages, head, p, n, PageTableFlags { bits: USER_PAGE_FLAGS });
        proof {
            assert(!in_pages(head + n * PAGE_SIZE, head as int, n as int));
            assert(self.cur().page_table.mapping(head + n * PAGE_SIZE) is None);
            assert(self.mem == mem1);
            assert(forall|q: int| p <= q < p + n * PAGE_SIZE ==> #[trigger] self.mem.byte(q) == 0) by {
                assert forall|q: int| p <= q < p + n * PAGE_SIZE implies #[trigger] self.mem.byte(q) == 0 by {
                    assert(k0.mem.holds(q, 1));
                }
            }
        }
        self.procs.slots[cur].mmap_head = head + (n + 1) * PAGE_SIZE;
        proof {
            assert forall|i: int| 0 <= i < MAX_PROCS && i != cur implies #[trigger] self.slot(i) == k1.slot(i) by {}
            assert forall|i: int| 0 <= i < MAX_PROCS implies #[trigger] self.slot_ok(i) by {
                assert(k0.slot_ok(i));
                if i != cur {
                    assert(k1.slot(i).page_table.table_frames().disjoint(k1.pages.owned()));
                } else {
                    assert forall|va: int| page_addr(va) && self.slot(i).mmap_head <= va < BLOCK_DEVICE_ADDRESS
                        implies #[trigger] self.slot(i).page_table.mapping(va) is None by {
                        assert(!in_pages(va, head as int, n as int));
                        assert(k1.slot(i).page_table.mapping(va) is None);
                    }
                    assert forall|d: int| 0 <= d < MAX_NUM_RESOURCE_DESCRIPTORS implies (#[trigger] self.slot(i).resource_descriptors@[d] matches Some(rd)
                        ==> rd.description.is_live() 
                        && rd.description.payload()->0@.wf()) by {
                        assert(self.slot(i).resource_descriptors@[d] == k0.slot(i).resource_descriptors@[d]);
                    }
                }
            }
            crate::proc::lemma_table_wf_kept(k1.procs, self.procs, cur as int);
        }
        match res {
            Ok(()) => {
                proof {
                    assert(mapped_zeroed(*self, head as int, n as int, p as int));
                }
                Ok(head)
            },
            Err(_) => Err(Error { kind: ErrorKind::OutOfMemory }),
        }
    }

    /// Whether descriptor `d` of the current process is open: `NotFound`
    /// when it is out of range or closed.
    pub open spec fn descriptor_lookup(&self, d: int) -> Result<(), ErrorKind> {
        if 0 <= d < MAX_NUM_RESOURCE_DESCRIPTORS && self.rd_open(self.procs.current as int, d) {
            Ok(())
        } else {
            Err(ErrorKind::NotFound)
        }
    }

    /// The lowest free descriptor of the current process.
    pub open spec fn lowest_free(&self, d: int) -> bool {
        &&& 0 <= d < MAX_NUM_RESOURCE_DESCRIPTORS
        &&& !self.rd_open(self.procs.current as int, d)
        &&& forall|e: int| 0 <= e < d ==> #[trigger] self.rd_open(self.procs.current as int, e)
    }

    /// Whether every descriptor of the current process is open.
    pub open spec fn table_full(&self) -> bool {
        forall|e: int| 0 <= e < MAX_NUM_RESOURCE_DESCRIPTORS ==> #[trigger] self.rd_open(self.procs.current as int, e)
    }

    /// The lowest free descriptor of the current process.
    fn find_free_descriptor(&self) -> (r: Option<usize>)
        requires
            self.wf(),
        ensures
            r is None <==> self.table_full(),
            r matches Some(d) ==> self.lowest_free(d as int),
    {
        let cur = self.procs.current;
        let mut d: usize = 0;
        while d < MAX_NUM_RESOURCE_DESCRIPTORS
            invariant
                self.wf(),
                cur == self.procs.current,
                d <= MAX_NUM_RESOURCE_DESCRIPTORS,
                forall|e: int| 0 <= e < d ==> #[trigger] self.rd_open(cur as int, e),
            decreases MAX_NUM_RESOURCE_DESCRIPTORS - d,
        {
            if self.procs.slots[cur].resource_descriptors[d].is_none() {
                assert(!self.rd_open(cur as int, d as int));
                return Some(d);
            }
            d += 1;
        }
        None
    }

    /// Open the file at `path` for the current process in its lowest free
    /// descriptor. The path must be UTF-8 and start with `/`; its components
    /// are looked up from the root directory.
    pub fn syscall_open(&mut self, path: &[u8], open_flags: FileOpenFlags) -> (r: Result<usize, Error>)
        requires
            old(self).wf(),
        ensures
            final(self).wf(),
            final(self).procs.current == old(self).procs.current,
            r matches Ok(d) ==> spec_open(*old(self), path@, open_flags.bits) == Ok::<int, ErrorKind>(d as int)
                && opened_file(*old(self), *final(self), path@, open_flags.bits, d as int),
            r matches Err(e) ==> (spec_open(*old(self), path@, open_flags.bits) == Err::<int, ErrorKind>(e.kind) || (e.kind
                == ErrorKind::OutOfMemory && spec_open(*old(self), path@, open_flags.bits) is Ok && !desc_alloc_ok(*old(self))))
                && final(self).cur().resource_descriptors@ == old(self).cur().resource_descriptors@,
            r is Ok ==> desc_alloc_ok(*old(self)),
            spec_open(*old(self), path@, open_flags.bits) is Ok && desc_alloc_ok(*old(self)) ==> r is Ok,
            forall|i: int| 0 <= i < MAX_PROCS ==> #[trigger] final(self).slot(i).state == old(self).slot(i).state
                && final(self).slot(i).pid == old(self).slot(i).pid,
    {
        if !utf8_valid(path) {
            return Err(Error { kind: ErrorKind::InvalidFormat });
        }
        if path.len() == 0 || path[0] != 0x2f {
            return Err(Error { kind: ErrorKind::InvalidFormat });
        }
        let d = match self.find_free_descriptor() {
            Some(d) => d,
            None => {
                return Err(Error { kind: ErrorKind::LimitReached });
            },
        };
        let parts = split_path(path, 1);
        let ghost k0 = *self;
        let found: Result<(u32, u64), Error> = match &mut self.storage {
            None => Err(Error { kind: ErrorKind::Io }),
            Some(fs) => match fs.lookup_path(&parts) {
                Ok(n) => {
                    if open_flags.append() {
                        match fs.inode(n) {
                            Ok(i) => Ok((n, i.file_size())),
                            Err(e) => Err(e),
                        }
                    } else {
                        Ok((n, 0))
                    }
                },
                Err(e) => Err(e),
            },
        };
        proof {
            assert forall|i: int| 0 <= i < MAX_PROCS implies #[trigger] self.slot_ok(i) by {
                assert(k0.slot_ok(i));
            }
        }
        let (inode_num, offset) = match found {
            Ok(v) => v,
            Err(e) => {
                return Err(e);
            },
        };
        let bits = FILE_PRESENT | (if open_flags.read_only() { FILE_READABLE } else { 0 }) | (if open_flags.write_only() {
            FILE_WRITABLE
        } else {
            0
        });
        assert(bits == open_file_bits(open_flags.bits));
        let ghost k_before = *self;
        let desc = match ResourceDescriptor::new(
            ResourceDescription::for_file(FileResourceDescriptionData { flags: FileFlags { bits }, inode_num, offset }),
            &mut self.heap,
            &mut self.pages,
        ) {
            Ok(desc) => desc,
            Err(_) => {
                proof {
                    Kernel::lemma_pages_shrunk(k_before, *self);
                }
                return Err(Error { kind: ErrorKind::OutOfMemory });
            },
        };
        proof {
            Kernel::lemma_pages_shrunk(k_before, *self);
        }
        let cur = self.procs.current;
        let ghost k1 = *self;
        self.procs.slots[cur].resource_descriptors.set(d, Some(desc));
        proof {
            assert forall|i: int| 0 <= i < MAX_PROCS && i != cur implies #[trigger] self.slot(i) == k1.slot(i) by {}
            assert forall|i: int| 0 <= i < MAX_PROCS implies #[trigger] self.slot_ok(i) by {
                assert(k0.slot_ok(i));
                if i == cur {
                    assert forall|e: int| 0 <= e < MAX_NUM_RESOURCE_DESCRIPTORS implies (#[trigger] self.slot(i).resource_descriptors@[e] matches Some(rd)
                        ==> rd.description.is_live() 
                        && rd.description.payload()->0@.wf()) by {
                        if e != d {
                            assert(self.slot(i).resource_descriptors@[e] == k0.slot(i).resource_descriptors@[e]);
                        }
                    }
                }
            }
            crate::proc::lemma_table_wf_kept(k1.procs, self.procs, cur as int);
            assert(self.rd_open(cur as int, d as int));
            lemma_lowest_free_unique(k0, d as int, choose|e: int| k0.lowest_free(e));
            assert forall|e: int| 0 <= e < MAX_NUM_RESOURCE_DESCRIPTORS && e != d implies #[trigger] self.cur().resource_descriptors@[e]
                == k0.cur().resource_descriptors@[e] by {}
        }
        Ok(d)
    }

    /// The per-slot invariant holds after the current slot's descriptor `d`
    /// is set to `v`, given that `v` is live if present.
    proof fn lemma_set_descriptor(k0: Kernel, k1: Kernel, d: int)
        requires
            k0.wf(),
            0 <= d < MAX_NUM_RESOURCE_DESCRIPTORS,
            k1.pages == k0.pages,
            k1.procs.current == k0.procs.current,
            k1.procs.slots@.len() == MAX_PROCS,
            forall|i: int| 0 <= i < MAX_PROCS && i != k0.procs.current ==> #[trigger] k1.slot(i) == k0.slot(i),
            k1.cur().page_table == k0.cur().page_table,
            k1.cur().mmap_head == k0.cur().mmap_head,
            k1.cur().context == k0.cur().context,
            k1.cur().kernel_stack == k0.cur().kernel_stack,
            k1.cur().resource_descriptors@.len() == MAX_NUM_RESOURCE_DESCRIPTORS,
            forall|e: int| 0 <= e < MAX_NUM_RESOURCE_DESCRIPTORS && e != d ==> #[trigger] k1.cur().resource_descriptors@[e]
                == k0.cur().resource_descriptors@[e],
            k1.cur().resource_descriptors@[d] matches Some(rd) ==> rd.description.is_live()  && rd.description.payload()->0@.wf(),
        ensures
            forall|i: int| 0 <= i < MAX_PROCS ==> #[trigger] k1.slot_ok(i),
            k1.procs.wf(),
    {
        let cur = k0.procs.current as int;
        assert forall|i: int| 0 <= i < MAX_PROCS implies #[trigger] k1.slot_ok(i) by {
            assert(k0.slot_ok(i));
            if i == cur {
                assert forall|e: int| 0 <= e < MAX_NUM_RESOURCE_DESCRIPTORS implies (#[trigger] k1.slot(i).resource_descriptors@[e] matches Some(rd)
                    ==> rd.description.is_live() 
                    && rd.description.payload()->0@.wf()) by {
                    if e != d {
                        assert(k1.slot(i).resource_descriptors@[e] == k0.slot(i).resource_descriptors@[e]);
                    }
                }
            }
        }
        assert forall|i: int| 0 <= i < MAX_PROCS implies {
            &&& (#[trigger] k1.procs.slots@[i]).context@.len() == crate::proc::NUM_CALLEE_SAVED
            &&& k1.procs.slots@[i].page_table.wf()
            &&& k1.procs.slots@[i].kernel_stack + crate::proc::KERNEL_STACK_SIZE <= usize::MAX
            &&& k1.procs.slots@[i].resource_descriptors@.len() == MAX_NUM_RESOURCE_DESCRIPTORS
        } by {
            assert(k0.procs.slots@[i].context@.len() == crate::proc::NUM_CALLEE_SAVED);
            if i != cur {
                assert(k1.slot(i) == k0.slot(i));
            }
        }
    }

    /// Close descriptor `d` of the current process: the slot becomes free,
    /// and when this was the last handle on its description, the
    /// description's close runs, once.
    pub fn syscall_close(&mut self, d: u32) -> (r: Result<u32, Error>)
        requires
            old(self).wf(),
        ensures
            final(self).wf(),
            final(self).procs.current == old(self).procs.current,
            old(self).descriptor_lookup(d as int) matches Err(k) ==> r == Err::<u32, Error>(Error { kind: k }),
            old(self).descriptor_lookup(d as int) is Ok ==> r == Ok::<u32, Error>(0),
            d < MAX_NUM_RESOURCE_DESCRIPTORS ==> !final(self).rd_open(final(self).procs.current as int, d as int),
            forall|e: int| 0 <= e < MAX_NUM_RESOURCE_DESCRIPTORS && e != d ==> final(self).rd_open(
                final(self).procs.current as int,
                e,
            ) == old(self).rd_open(old(self).procs.current as int, e),
            forall|i: int| 0 <= i < MAX_PROCS ==> #[trigger] final(self).slot(i).state == old(self).slot(i).state
                && final(self).slot(i).pid == old(self).slot(i).pid,
    {
        let cur = self.procs.current;
        if d as usize >= MAX_NUM_RESOURCE_DESCRIPTORS {
            return Err(Error { kind: ErrorKind::NotFound });
        }
        let d = d as usize;
        let ghost k0 = *self;
        if self.procs.slots[cur].resource_descriptors[d].is_none() {
            return Err(Error { kind: ErrorKind::NotFound });
        }
        let taken = self.procs.slots[cur].resource_descriptors.remove(d);
        self.procs.slots[cur].resource_descriptors.insert(d, None);
        proof {
            assert(k0.slot_ok(cur as int));
            assert forall|e: int| 0 <= e < MAX_NUM_RESOURCE_DESCRIPTORS && e != d implies #[trigger] self.cur().resource_descriptors@[e]
                == k0.cur().resource_descriptors@[e] by {}
            Kernel::lemma_set_descriptor(k0, *self, d as int);
        }
        let ghost k1 = *self;
        match taken {
            Some(mut rd) => {
                match rd.description.drop_handle(&mut self.heap) {
                    Some(lock) => {
                        let mut description = lock.into_inner();
                        description.close();
                    },
                    None => {},
                }
            },
            None => {},
        }
        proof {
            assert(self.heap.wf(self.pages.free_ram_end));
            Kernel::lemma_pages_shrunk(k1, *self);
        }
        Ok(0)
    }

    /// Read up to `len` bytes from descriptor `d` of the current process into
    /// its memory at `va`.
    pub fn syscall_read(&mut self, d: u32, va: usize, len: usize) -> (r: Result<usize, Error>)
        requires
            old(self).wf(),
            va + len <= usize::MAX,
            !read_blocks(*old(self), d as int, len as int),
        ensures
            final(self).wf(),
            final(self).procs.current == old(self).procs.current,
            old(self).descriptor_lookup(d as int) matches Err(k) ==> r == Err::<usize, Error>(Error { kind: k })
                && final(self).mem.bytes@ == old(self).mem.bytes@
                && final(self).cur().resource_descriptors@ == old(self).cur().resource_descriptors@,
            old(self).descriptor_lookup(d as int) is Ok ==> exists|r0: Result<usize, Error>, b: Seq<u8>|
                #[trigger] read_step(*old(self), *final(self), d as int, va as int, len as int, r0, b, r),
            r matches Ok(n) ==> n <= len,
            final(self).cur().page_table == old(self).cur().page_table,
            forall|e: int| 0 <= e < MAX_NUM_RESOURCE_DESCRIPTORS ==> final(self).rd_open(
                final(self).procs.current as int,
                e,
            ) == old(self).rd_open(old(self).procs.current as int, e),
            forall|i: int| 0 <= i < MAX_PROCS ==> #[trigger] final(self).slot(i).state == old(self).slot(i).state
                && final(self).slot(i).pid == old(self).slot(i).pid,
    {
        let cur = self.procs.current;
        if d as usize >= MAX_NUM_RESOURCE_DESCRIPTORS {
            return Err(Error { kind: ErrorKind::NotFound });
        }
        let d = d as usize;
        if self.procs.slots[cur].resource_descriptors[d].is_none() {
            return Err(Error { kind: ErrorKind::NotFound });
        }
        let ghost k0 = *self;
        let mut tmp: Vec<u8> = Vec::new();
        let mut i: usize = 0;
        while i < len
            invariant
                i <= len,
                tmp@.len() == i,
                tmp@ == zeros(i as int),
            decreases len - i,
        {
            tmp.push(0);
            i += 1;
            assert(tmp@ =~= zeros(i as int));
        }
        proof {
            assert(k0.slot_ok(cur as int));
        }
        let mut taken = self.procs.slots[cur].resource_descriptors.remove(d);
        let res = match &mut taken {
            Some(rd) => {
                let guard = rd.description();
                guard.data.read(&mut self.storage, &mut self.console, &mut tmp)
            },
            None => Err(Error { kind: ErrorKind::NotFound }),
        };
        self.procs.slots[cur].resource_descriptors.insert(d, taken);
        proof {
            assert forall|e: int| 0 <= e < MAX_NUM_RESOURCE_DESCRIPTORS && e != d implies #[trigger] self.cur().resource_descriptors@[e]
                == k0.cur().resource_descriptors@[e] by {}
            Kernel::lemma_set_descriptor(k0, *self, d as int);
        }
        let ghost b = tmp@;
        let n = match res {
            Ok(n) => n,
            Err(e) => {
                assert(read_step(k0, *self, d as int, va as int, len as int, res, b, Err(e)));
                return Err(e);
            },
        };
        let data = slice_prefix(&tmp, n);
        assert(self.wf());
        let ghost k1 = *self;
        let copied = copy_to_user(&self.procs.slots[cur].page_table, &mut self.mem, va, data.as_slice());
        proof {
            assert forall|i: int| 0 <= i < MAX_PROCS implies #[trigger] self.slot_ok(i) by {
                assert(k1.slot_ok(i));
            }
        }
        if !copied {
            assert(read_step(k0, *self, d as int, va as int, len as int, res, b, Err(Error { kind: ErrorKind::NotPermitted })));
            return Err(Error { kind: ErrorKind::NotPermitted });
        }
        assert(read_step(k0, *self, d as int, va as int, len as int, res, b, Ok(n)));
        Ok(n)
    }

    /// Write `len` bytes of the current process's memory at `va` to
    /// descriptor `d`.
    pub fn syscall_write(&mut self, d: u32, va: usize, len: usize) -> (r: Result<usize, Error>)
        requires
            old(self).wf(),
            va + len <= usize::MAX,
        ensures
            final(self).wf(),
            final(self).procs.current == old(self).procs.current,
            old(self).descriptor_lookup(d as int) matches Err(k) ==> r == Err::<usize, Error>(Error { kind: k })
                && final(self).cur().resource_descriptors@ == old(self).cur().resource_descriptors@,
            old(self).descriptor_lookup(d as int) is Ok ==> write_step(*old(self), *final(self), d as int, va as int, len as int, r),
            r matches Ok(n) ==> n <= len,
            final(self).mem.bytes@ == old(self).mem.bytes@,
            final(self).cur().page_table == old(self).cur().page_table,
            forall|e: int| 0 <= e < MAX_NUM_RESOURCE_DESCRIPTORS ==> final(self).rd_open(
                final(self).procs.current as int,
                e,
            ) == old(self).rd_open(old(self).procs.current as int, e),
            forall|i: int| 0 <= i < MAX_PROCS ==> #[trigger] final(self).slot(i).state == old(self).slot(i).state
                && final(self).slot(i).pid == old(self).slot(i).pid,
    {
        let cur = self.procs.current;
        if d as usize >= MAX_NUM_RESOURCE_DESCRIPTORS {
            return Err(Error { kind: ErrorKind::NotFound });
        }
        let d = d as usize;
        if self.procs.slots[cur].resource_descriptors[d].is_none() {
            return Err(Error { kind: ErrorKind::NotFound });
        }
        let bytes = match copy_from_user(&self.procs.slots[cur].page_table, &self.mem, va, len) {
            Some(b) => b,
            None => {
                proof {
                    let i = choose|i: int|
                        0 <= i < len && !(#[trigger] self.cur().page_table.mapping(va + i) is Some && self.mem.holds(
                            self.cur().page_table.translate(va + i),
                            1,
                        ));
                    assert(!user_in_mem(*self, va as int, len as int));
                }
                return Err(Error { kind: ErrorKind::NotPermitted });
            },
        };
        assert(bytes@ =~= user_bytes(*self, va as int, len as int));
        assert(user_in_mem(*self, va as int, len as int)) by {
            assert forall|i: int| 0 <= i < len implies #[trigger] self.cur().page_table.mapping(va + i) is Some
                && self.mem.holds(self.cur().page_table.translate(va + i), 1) by {
                let x = bytes@[i];
            }
        }
        let ghost k0 = *self;
        proof {
            assert(k0.slot_ok(cur as int));
        }
        let mut taken = self.procs.slots[cur].resource_descriptors.remove(d);
        let res = match &mut taken {
            Some(rd) => {
                let guard = rd.description();
                guard.data.write(&mut self.storage, &mut self.console, bytes.as_slice())
            },
            None => Err(Error { kind: ErrorKind::NotFound }),
        };
        self.procs.slots[cur].resource_descriptors.insert(d, taken);
        proof {
            assert forall|e: int| 0 <= e < MAX_NUM_RESOURCE_DESCRIPTORS && e != d implies #[trigger] self.cur().resource_descriptors@[e]
                == k0.cur().resource_descriptors@[e] by {}
            Kernel::lemma_set_descriptor(k0, *self, d as int);
        }
        assert(write_step(k0, *self, d as int, va as int, len as int, res));
        res
    }

    /// Mark the current process Exited, closing each of its descriptors.
    fn exit_current(&mut self)
        requires
            old(self).wf(),
        ensures
            final(self).wf(),
            final(self).procs.current == old(self).procs.current,
            final(self).cur().state == ProcessState::Exited,
            forall|e: int| 0 <= e < MAX_NUM_RESOURCE_DESCRIPTORS ==> !final(self).rd_open(final(self).procs.current as int, e),
            forall|i: int| 0 <= i < MAX_PROCS && i != old(self).procs.current ==> #[trigger] final(self).slot(i).state == old(self).slot(i).state,
    {
        let mut d: usize = 0;
        while d < MAX_NUM_RESOURCE_DESCRIPTORS
            invariant
                self.wf(),
                self.procs.current == old(self).procs.current,
                d <= MAX_NUM_RESOURCE_DESCRIPTORS,
                forall|e: int| 0 <= e < d ==> !self.rd_open(self.procs.current as int, e),
                forall|i: int| 0 <= i < MAX_PROCS ==> #[trigger] self.slot(i).state == old(self).slot(i).state,
            decreases MAX_NUM_RESOURCE_DESCRIPTORS - d,
        {
            let _ = self.syscall_close(d as u32);
            d += 1;
        }
        let cur = self.procs.current;
        let ghost k0 = *self;
        self.procs.slots[cur].state = ProcessState::Exited;
        proof {
            assert forall|i: int| 0 <= i < MAX_PROCS && i != cur implies #[trigger] self.slot(i) == k0.slot(i) by {}
            assert forall|i: int| 0 <= i < MAX_PROCS implies #[trigger] self.slot_ok(i) by {
                assert(k0.slot_ok(i));
                if i == cur {
                    assert forall|e: int| 0 <= e < MAX_NUM_RESOURCE_DESCRIPTORS implies (#[trigger] self.slot(i).resource_descriptors@[e] matches Some(rd)
                        ==> rd.description.is_live() 
                        && rd.description.payload()->0@.wf()) by {
                        assert(self.slot(i).resource_descriptors@[e] == k0.slot(i).resource_descriptors@[e]);
                    }
                    assert forall|va: int| page_addr(va) && self.slot(i).mmap_head <= va < BLOCK_DEVICE_ADDRESS
                        implies #[trigger] self.slot(i).page_table.mapping(va) is None by {
                        assert(k0.slot(i).page_table.mapping(va) is None);
                    }
                }
            }
            crate::proc::lemma_table_wf_kept(k0.procs, self.procs, cur as int);
            assert forall|e: int| 0 <= e < MAX_NUM_RESOURCE_DESCRIPTORS implies !self.rd_open(self.procs.current as int, e) by {
                assert(!k0.rd_open(cur as int, e));
            }
        }
    }

    /// Yield the hart to the scheduler's pick.
    fn yield_now(&mut self) -> (r: SyscallOutcome)
        requires
            old(self).wf(),
        ensures
            final(self).wf(),
            r == SyscallOutcome::Halt <==> old(self).procs.pick() is None,
            r == SyscallOutcome::Halt || r == SyscallOutcome::Resume,
            kept_or_switched(*old(self), *final(self)),
            r == SyscallOutcome::Resume ==> final(self).cur().state == ProcessState::Runnable
                || final(self).cur().state == ProcessState::Idle,
            final(self).mem == old(self).mem,
            forall|i: int| 0 <= i < MAX_PROCS ==> #[trigger] final(self).slot(i).state == old(self).slot(i).state
                && final(self).slot(i).resource_descriptors == old(self).slot(i).resource_descriptors,
    {
        let ghost k0 = *self;
        let out = sched_yield(&mut self.procs, &mut self.cpu);
        proof {
            assert forall|i: int| 0 <= i < MAX_PROCS implies #[trigger] self.slot_ok(i) by {
                assert(k0.slot_ok(i));
                assert(self.procs.slots@[i].state == k0.procs.slots@[i].state);
                assert(self.slot(i).page_table == k0.slot(i).page_table);
                assert(self.slot(i).mmap_head == k0.slot(i).mmap_head);
                assert(self.slot(i).resource_descriptors == k0.slot(i).resource_descriptors);
            }
        }
        match out {
            SchedOutcome::Halt => SyscallOutcome::Halt,
            _ => SyscallOutcome::Resume,
        }
    }

    /// The region check for a user buffer that the kernel reads.
    fn user_readable(&self, va: usize, len: usize) -> (r: bool)
        requires
            self.wf(),
        ensures
            r == user_range_ok(*self, va as int, len as int, crate::page_table::USER_READ_FLAGS),
    {
        if va > usize::MAX - PAGE_SIZE || len > usize::MAX - PAGE_SIZE - va {
            return false;
        }
        let mut sstatus: u32 = 0;
        let allow = AllowUserModeMemory::allow(&mut sstatus);
        let ok = UserMemRef::for_region(&self.procs.slots[self.procs.current].page_table, va, len, &allow).is_some();
        allow.release(&mut sstatus);
        ok
    }

    /// The region check for a user buffer that the kernel writes.
    fn user_writable(&self, va: usize, len: usize) -> (r: bool)
        requires
            self.wf(),
        ensures
            r == user_range_ok(*self, va as int, len as int, crate::page_table::USER_WRITE_FLAGS),
    {
        if va > usize::MAX - PAGE_SIZE || len > usize::MAX - PAGE_SIZE - va {
            return false;
        }
        let mut sstatus: u32 = 0;
        let allow = AllowUserModeMemory::allow(&mut sstatus);
        let ok = UserMemMut::for_region(&self.procs.slots[self.procs.current].page_table, va, len, &allow).is_some();
        allow.release(&mut sstatus);
        ok
    }

    /// Fill `len` bytes of the current process's memory at `va` from the
    /// entropy device.
    fn syscall_get_random(&mut self, va: usize, len: usize) -> (r: Result<u32, Error>)
        requires
            old(self).wf(),
            va + len <= usize::MAX,
        ensures
            final(self).wf(),
            final(self).procs.current == old(self).procs.current,
            old(self).random is None ==> r == Err::<u32, Error>(Error { kind: ErrorKind::Io }),
            r matches Ok(v) ==> v == 0,
            random_step(*old(self), *final(self), va as int, len as int, r),
            forall|e: int| 0 <= e < MAX_NUM_RESOURCE_DESCRIPTORS ==> final(self).rd_open(
                final(self).procs.current as int,
                e,
            ) == old(self).rd_open(old(self).procs.current as int, e),
            forall|i: int| 0 <= i < MAX_PROCS ==> #[trigger] final(self).slot(i).state == old(self).slot(i).state
                && final(self).slot(i).pid == old(self).slot(i).pid,
    {
        if self.random.is_none() {
            return Err(Error { kind: ErrorKind::Io });
        }
        if len > u32::MAX as usize {
            return Err(Error { kind: ErrorKind::Unsupported });
        }
        let ghost k0 = *self;
        let mut tmp: Vec<u8> = Vec::new();
        let mut i: usize = 0;
        while i < len
            invariant
                i <= len,
                tmp@.len() == i,
            decreases len - i,
        {
            tmp.push(0);
            i += 1;
        }
        let res = match &mut self.random {
            None => Err(Error { kind: ErrorKind::Io }),
            Some(dev) => dev.read_random(&mut tmp),
        };
        proof {
            assert forall|i: int| 0 <= i < MAX_PROCS implies #[trigger] self.slot_ok(i) by {
                assert(k0.slot_ok(i));
            }
        }
        if res.is_err() {
            return Err(Error { kind: ErrorKind::Io });
        }
        let cur = self.procs.current;
        let ghost k1 = *self;
        let copied = copy_to_user(&self.procs.slots[cur].page_table, &mut self.mem, va, tmp.as_slice());
        proof {
            assert forall|i: int| 0 <= i < MAX_PROCS implies #[trigger] self.slot_ok(i) by {
                assert(k1.slot_ok(i));
            }
        }
        if !copied {
            return Err(Error { kind: ErrorKind::NotPermitted });
        }
        Ok(0)
    }

    /// Whether reading `len` bytes from descriptor `d` would wait for
    /// console input.
    pub fn would_block(&self, d: u32, len: usize) -> (r: bool)
        requires
            self.wf(),
        ensures
            r == read_blocks(*self, d as int, len as int),
    {
        let cur = self.procs.current;
        if d as usize >= MAX_NUM_RESOURCE_DESCRIPTORS || len == 0 || self.console.input.len() > 0 {
            return false;
        }
        proof {
            assert(self.slot_ok(cur as int));
        }
        match &self.procs.slots[cur].resource_descriptors[d as usize] {
            None => false,
            Some(rd) => {
                let kind = rd.description.get().get().vtable;
                kind == crate::resource_desc::ResourceKind::ConsoleIn
            },
        }
    }

    /// Serve the syscall in `frame` for the current process and write its
    /// result back into the frame.
    pub fn handle_syscall(&mut self, frame: &mut TrapFrame) -> (r: SyscallOutcome)
        requires
            old(self).wf(),
        ensures
            final(self).wf(),
            dispatched(*old(self), *final(self), *old(frame), *final(frame), r),
    {
        let ghost k0 = *self;
        let ghost f0 = *frame;
        let a1 = frame.a1 as usize;
        let a2 = frame.a2 as usize;
        let a3 = frame.a3 as usize;
        let out = match frame.a0 {
            3 => {
                let pid = self.procs.slots[self.procs.current].pid;
                encode_result(frame, Ok(pid));
                SyscallOutcome::Resume
            },
            4 => {
                frame.a1 = 0;
                self.yield_now()
            },
            5 => {
                self.exit_current();
                let ghost k_mid = *self;
                let o = self.yield_now();
                proof {
                    let c = k0.procs.current as int;
                    assert(self.slot(c).state == k_mid.slot(c).state);
                    assert forall|e: int| 0 <= e < MAX_NUM_RESOURCE_DESCRIPTORS implies !#[trigger] self.rd_open(c, e) by {
                        assert(!k_mid.rd_open(c, e));
                    }
                    if o == SyscallOutcome::Resume {
                        assert(self.slot(self.procs.current as int).state == k_mid.slot(self.procs.current as int).state);
                    }
                }
                o
            },
            6 => {
                if !self.user_writable(a1, a2) {
                    encode_result(frame, Err(Error { kind: ErrorKind::NotPermitted }));
                } else {
                    let res = self.syscall_get_random(a1, a2);
                    encode_result(frame, res);
                }
                SyscallOutcome::Resume
            },
            7 => {
                let flags = FileOpenFlags::from_bits(frame.a3);
                let path = if self.user_readable(a1, a2) {
                    copy_from_user(&self.procs.slots[self.procs.current].page_table, &self.mem, a1, a2)
                } else {
                    None
                };
                match path {
                    None => {
                        proof {
                            if user_range_ok(k0, a1 as int, a2 as int, crate::page_table::USER_READ_FLAGS) {
                                let i = choose|i: int|
                                    0 <= i < a2 && !(#[trigger] k0.cur().page_table.mapping(a1 + i) is Some && k0.mem.holds(
                                        k0.cur().page_table.translate(a1 + i),
                                        1,
                                    ));
                                assert(!user_in_mem(k0, a1 as int, a2 as int));
                            }
                        }
                        encode_result(frame, Err(Error { kind: ErrorKind::NotPermitted }))
                    },
                    Some(p) => {
                        proof {
                            assert(p@ =~= user_bytes(k0, a1 as int, a2 as int));
                            assert forall|i: int| 0 <= i < a2 implies #[trigger] k0.cur().page_table.mapping(a1 + i) is Some
                                && k0.mem.holds(k0.cur().page_table.translate(a1 + i), 1) by {
                                let x = p@[i];
                            }
                            assert(user_in_mem(k0, a1 as int, a2 as int));
                        }
                        let res = self.syscall_open(p.as_slice(), flags);
                        match res {
                            Ok(d) => encode_result(frame, Ok(d as u32)),
                            Err(e) => encode_result(frame, Err(e)),
                        }
                    },
                }
                SyscallOutcome::Resume
            },
            8 => {
                let res = self.syscall_close(frame.a1);
                encode_result(frame, res);
                SyscallOutcome::Resume
            },
            9 => {
                if !self.user_writable(a2, a3) {
                    encode_result(frame, Err(Error { kind: ErrorKind::NotPermitted }));
                    SyscallOutcome::Resume
                } else if self.would_block(frame.a1, a3) {
                    SyscallOutcome::WaitForInput
                } else {
                    let res = self.syscall_read(frame.a1, a2, a3);
                    match res {
                        Ok(n) => encode_result(frame, Ok(n as u32)),
                        Err(e) => encode_result(frame, Err(e)),
                    }
                    SyscallOutcome::Resume
                }
            },
            10 => {
                if !self.user_readable(a2, a3) {
                    encode_result(frame, Err(Error { kind: ErrorKind::NotPermitted }));
                } else {
                    let res = self.syscall_write(frame.a1, a2, a3);
                    match res {
                        Ok(n) => encode_result(frame, Ok(n as u32)),
                        Err(e) => encode_result(frame, Err(e)),
                    }
                }
                SyscallOutcome::Resume
            },
            11 => {
                match self.syscall_mmap(frame.a1) {
                    Ok(v) => encode_result(frame, Ok(v as u32)),
                    Err(e) => encode_result(frame, Err(e)),
                }
                SyscallOutcome::Resume
            },
            12 => {
                frame.a1 = 0;
                SyscallOutcome::Resume
            },
            _ => SyscallOutcome::Unknown,
        };
        proof {
            if f0.a0 == 3 {
                assert(dispatched(k0, *self, f0, *frame, out));
            } else if f0.a0 == 4 {
                assert(dispatched(k0, *self, f0, *frame, out));
            } else if f0.a0 == 5 {
                assert(dispatched(k0, *self, f0, *frame, out));
            } else if f0.a0 == 6 {
                assert(dispatched(k0, *self, f0, *frame, out));
            } else if f0.a0 == 7 {
                assert(dispatched(k0, *self, f0, *frame, out));
            } else if f0.a0 == 8 {
                assert(dispatched(k0, *self, f0, *frame, out));
            } else if f0.a0 == 9 {
                assert(dispatched(k0, *self, f0, *frame, out));
            } else if f0.a0 == 10 {
                assert(dispatched(k0, *self, f0, *frame, out));
            } else if f0.a0 == 11 {
                assert(dispatched(k0, *self, f0, *frame, out));
            } else {
                assert(dispatched(k0, *self, f0, *frame, out));
            }
        }
        out
    }

/// An Unused slot: no tables but an empty root, no descriptors.
    fn unused_slot() -> (r: ProcessInner)
        ensures
            r.state == ProcessState::Unused,
            r.pid == 0,
            r.context@.len() == NUM_CALLEE_SAVED,
            r.page_table.wf(),
            r.page_table.root.addr == 0,
            r.page_table.leaves@.len() == 0,
            forall|va: int| #[trigger] r.page_table.mapping(va) is None,
            r.kernel_stack == 0,
            r.mmap_head == MMAP_BASE,
            r.resource_descriptors@.len() == MAX_NUM_RESOURCE_DESCRIPTORS,
            forall|e: int| 0 <= e < MAX_NUM_RESOURCE_DESCRIPTORS ==> #[trigger] r.resource_descriptors@[e] is None,
    {
        let mut rds: Vec<Option<ResourceDescriptor>> = Vec::new();
        let mut d: usize = 0;
        while d < MAX_NUM_RESOURCE_DESCRIPTORS
            invariant
                d <= MAX_NUM_RESOURCE_DESCRIPTORS,
                rds@.len() == d,
                forall|e: int| 0 <= e < d ==> #[trigger] rds@[e] is None,
            decreases MAX_NUM_RESOURCE_DESCRIPTORS - d,
        {
            rds.push(None);
            d += 1;
        }
        let mut context: Vec<u32> = Vec::new();
        let mut c: usize = 0;
        while c < NUM_CALLEE_SAVED
            invariant
                c <= NUM_CALLEE_SAVED,
                context@.len() == c,
            decreases NUM_CALLEE_SAVED - c,
        {
            context.push(0);
            c += 1;
        }
        let page_table = AddressSpace::new(0);
        proof {
            assert forall|va: int| #[trigger] page_table.mapping(va) is None by {
                assert(page_table.walk(va) is None);
            }
        }
        ProcessInner {
            pid: 0,
            state: ProcessState::Unused,
            context,
            page_table,
            kernel_stack: 0,
            resource_descriptors: rds,
            mmap_head: MMAP_BASE,
        }
    }

    /// The kernel at boot: free RAM `[free_ram, free_ram_end)` zeroed and
    /// unallocated, the kernel's image from `kernel_base`, every slot Unused,
    /// pids from 1.
    pub fn new(
        kernel_base: usize,
        free_ram: usize,
        free_ram_end: usize,
        storage: Option<Ext2>,
        random: Option<VirtioRandom>,
    ) -> (r: Kernel)
        requires
            kernel_base % PAGE_SIZE == 0,
            free_ram % PAGE_SIZE == 0,
            free_ram_end % PAGE_SIZE == 0,
            RNG_DEVICE_ADDRESS < kernel_base <= free_ram <= free_ram_end <= MAX_ADDRESS,
            free_ram_end + PAGE_SIZE <= usize::MAX,
            storage matches Some(e) ==> e.wf(),
            random matches Some(d) ==> d.wf(),
        ensures
            r.wf(),
            r.procs.next_pid == 1,
            forall|i: int| 0 <= i < MAX_PROCS ==> #[trigger] r.slot(i).state == ProcessState::Unused,
            r.pages.next == free_ram,
            r.console.input@.len() == 0,
            r.console.output@.len() == 0,
    {
        let pages = PageAllocator::new(free_ram, free_ram_end);
        let mem = PhysicalMemory::new(free_ram, free_ram_end - free_ram);
        let mut slots: Vec<ProcessInner> = Vec::new();
        let mut i: usize = 0;
        while i < MAX_PROCS
            invariant
                i <= MAX_PROCS,
                slots@.len() == i,
                forall|j: int| 0 <= j < i ==> {
                    &&& (#[trigger] slots@[j]).state == ProcessState::Unused
                    &&& slots@[j].context@.len() == NUM_CALLEE_SAVED
                    &&& slots@[j].page_table.wf()
                    &&& slots@[j].page_table.root.addr == 0
                    &&& slots@[j].page_table.leaves@.len() == 0
                    &&& forall|va: int| #[trigger] slots@[j].page_table.mapping(va) is None
                    &&& slots@[j].kernel_stack == 0
                    &&& slots@[j].mmap_head == MMAP_BASE
                    &&& slots@[j].resource_descriptors@.len() == MAX_NUM_RESOURCE_DESCRIPTORS
                    &&& forall|e: int| 0 <= e < MAX_NUM_RESOURCE_DESCRIPTORS ==> #[trigger] slots@[j].resource_descriptors@[e] is None
                },
            decreases MAX_PROCS - i,
        {
            slots.push(Kernel::unused_slot());
            i += 1;
        }
        let mut regs: Vec<u32> = Vec::new();
        let mut c: usize = 0;
        while c < NUM_CALLEE_SAVED
            invariant
                c <= NUM_CALLEE_SAVED,
                regs@.len() == c,
            decreases NUM_CALLEE_SAVED - c,
        {
            regs.push(0);
            c += 1;
        }
        let k = Kernel {
            kernel_base,
            pages,
            heap: KAllocator::new(),
            mem,
            procs: ProcessTable { slots, current: 0, next_pid: 1 },
            storage,
            random,
            console: Console { input: Vec::new(), output: Vec::new() },
            cpu: Cpu { regs, satp: 0, sscratch: 0 },
            sstatus: 0,
        };
        proof {
            assert forall|i: int| 0 <= i < MAX_PROCS implies #[trigger] k.slot_ok(i) by {
                assert forall|pg: int| #[trigger] k.slot(i).page_table.table_frames().contains(pg) implies !k.pages.owned().contains(pg) by {
                    assert(frames(0, 1).contains(pg));
                    assert(pg == 0);
                    assert(crate::page_alloc::pn(free_ram as int) >= 1);
                }
                assert(k.slot(i).page_table.table_frames().disjoint(k.pages.owned()));
            }
        }
        k
    }

    /// The first Unused slot, if any.
    pub fn free_slot(&self) -> (r: Option<usize>)
        requires
            self.wf(),
        ensures
            r is None <==> forall|i: int| 0 <= i < MAX_PROCS ==> #[trigger] self.slot(i).state != ProcessState::Unused,
            r matches Some(i) ==> i < MAX_PROCS && self.slot(i as int).state == ProcessState::Unused && forall|j: int|
                0 <= j < i ==> #[trigger] self.slot(j).state != ProcessState::Unused,
    {
        let mut i: usize = 0;
        while i < MAX_PROCS
            invariant
                self.wf(),
                i <= MAX_PROCS,
                forall|j: int| 0 <= j < i ==> #[trigger] self.slot(j).state != ProcessState::Unused,
            decreases MAX_PROCS - i,
        {
            if self.procs.slots[i].state == ProcessState::Unused {
                return Some(i);
            }
            i += 1;
        }
        None
    }

    /// Start a process from a flat `image` in the first Unused slot: a kernel
    /// stack, a page table with the kernel's memory and the devices, the image
    /// at `USER_BASE`, the console on descriptors 0 and 1, a fresh pid, and
    /// the `mmap` cursor at `MMAP_BASE`.
    pub fn create_process(&mut self, image: &[u8]) -> (r: Result<Process, Error>)
        requires
            old(self).wf(),
            exists|i: int| 0 <= i < MAX_PROCS && #[trigger] old(self).slot(i).state == ProcessState::Unused,
            image@.len() <= MMAP_BASE - USER_BASE - PAGE_SIZE,
            old(self).procs.next_pid < u32::MAX,
        ensures
            final(self).wf(),
            final(self).procs.current == old(self).procs.current,
            r matches Err(e) ==> e.kind == ErrorKind::OutOfMemory && final(self).procs.slots@ == old(self).procs.slots@,
            r matches Ok(p) ==> {
                &&& p.buf_idx < MAX_PROCS
                &&& old(self).slot(p.buf_idx as int).state == ProcessState::Unused
                &&& final(self).slot(p.buf_idx as int).state == ProcessState::Runnable
                &&& final(self).slot(p.buf_idx as int).pid == old(self).procs.next_pid
                &&& final(self).procs.next_pid == old(self).procs.next_pid + 1
                &&& final(self).slot(p.buf_idx as int).mmap_head == MMAP_BASE
                &&& final(self).rd_open(p.buf_idx as int, 0)
                &&& final(self).rd_open(p.buf_idx as int, 1)
                &&& forall|e: int| 2 <= e < MAX_NUM_RESOURCE_DESCRIPTORS ==> !#[trigger] final(self).rd_open(p.buf_idx as int, e)
                &&& forall|i: int| 0 <= i < MAX_PROCS && i != p.buf_idx ==> #[trigger] final(self).slot(i) == old(self).slot(i)
                &&& forall|j: int| 0 <= j < p.buf_idx ==> #[trigger] old(self).slot(j).state != ProcessState::Unused
                &&& exists|f: int| #[trigger] image_at(*final(self), p.buf_idx as int, image@, f)
                &&& forall|va: int|
                    page_addr(va) && final(self).kernel_base <= va < final(self).pages.free_ram_end ==> #[trigger] final(self).slot(p.buf_idx as int).page_table.mapping(va) == Some(
                        pte_of(va as usize, crate::page_table::KERNEL_MEM_FLAGS | FLAG_VALID),
                    )
                &&& final(self).slot(p.buf_idx as int).page_table.mapping(BLOCK_DEVICE_ADDRESS as int) == Some(
                    pte_of(BLOCK_DEVICE_ADDRESS, crate::page_table::MMIO_FLAGS | FLAG_VALID),
                )
                &&& final(self).slot(p.buf_idx as int).page_table.mapping(RNG_DEVICE_ADDRESS as int) == Some(
                    pte_of(RNG_DEVICE_ADDRESS, crate::page_table::MMIO_FLAGS | FLAG_VALID),
                )
            },
            old(self).pages.next + (2 + (kernel_pages(old(self).kernel_base as int, old(self).pages.free_ram_end as int) + 2)
                + 2 * pages_for_len(image@.len() as int) + 2) * PAGE_SIZE <= old(self).pages.free_ram_end ==> r is Ok,
            forall|i: int| 0 <= i < MAX_PROCS && (r matches Ok(p) ==> i != p.buf_idx) ==> #[trigger] final(self).slot(i).state
                == old(self).slot(i).state,
    {
        let idx = match self.free_slot() {
            Some(i) => i,
            None => {
                return Err(Error { kind: ErrorKind::OutOfMemory });
            },
        };
        let ghost k0 = *self;
        let stack = match alloc_pages(&mut self.pages, 1) {
            Ok(p) => p,
            Err(_) => {
                proof { Kernel::lemma_pages_shrunk(k0, *self); }
                return Err(Error { kind: ErrorKind::OutOfMemory });
            },
        };
        let root = match alloc_pages(&mut self.pages, 1) {
            Ok(p) => p,
            Err(_) => {
                proof { Kernel::lemma_pages_shrunk(k0, *self); }
                return Err(Error { kind: ErrorKind::OutOfMemory });
            },
        };
        let mut space = AddressSpace::new(root);
        proof {
            assert forall|pg: int| #[trigger] space.table_frames().contains(pg) implies !self.pages.owned().contains(pg) by {
                assert(frames(root as int, 1).contains(pg));
            }
            assert(space.table_frames().disjoint(self.pages.owned()));
        }
        let kernel_base = self.kernel_base;
        let end = self.pages.free_ram_end;
        let r1 = map_kernel_memory(&mut space, &mut self.pages, kernel_base, end);
        if r1.is_err() {
            proof { Kernel::lemma_pages_shrunk(k0, *self); }
            return Err(Error { kind: ErrorKind::OutOfMemory });
        }
        let ghost s1 = space;
        proof {
            assert forall|va: int| in_pages(va, USER_BASE as int, pages_for_len(image@.len() as int)) implies #[trigger] space.mapping(va) is None by {
                assert(page_addr(va));
                assert(va != BLOCK_DEVICE_ADDRESS && va != RNG_DEVICE_ADDRESS);
            }
        }
        let r2 = alloc_and_map_slice(&mut space, &mut self.pages, &mut self.mem, USER_BASE, image, PageTableFlags { bits: USER_PAGE_FLAGS });
        let frame = match r2 {
            Ok(f) => f,
            Err(_) => {
                proof { Kernel::lemma_pages_shrunk(k0, *self); }
                return Err(Error { kind: ErrorKind::OutOfMemory });
            },
        };
        let ghost s2 = space;
        let ghost mem2 = self.mem;
        let mut rds: Vec<Option<ResourceDescriptor>> = Vec::new();
        let mut d: usize = 0;
        while d < MAX_NUM_RESOURCE_DESCRIPTORS
            invariant
                d <= MAX_NUM_RESOURCE_DESCRIPTORS,
                rds@.len() == d,
                forall|e: int| 0 <= e < d ==> #[trigger] rds@[e] is None,
            decreases MAX_NUM_RESOURCE_DESCRIPTORS - d,
        {
            rds.push(None);
            d += 1;
        }
        let ghost k_rd = *self;
        let console_in = match ResourceDescriptor::new(ResourceDescription::for_console_in(), &mut self.heap, &mut self.pages) {
            Ok(rd) => rd,
            Err(_) => {
                proof { Kernel::lemma_pages_shrunk(k0, *self); }
                return Err(Error { kind: ErrorKind::OutOfMemory });
            },
        };
        let console_out = match ResourceDescriptor::new(ResourceDescription::for_console_out(), &mut self.heap, &mut self.pages) {
            Ok(rd) => rd,
            Err(_) => {
                let mut first = console_in;
                let _ = first.description.drop_handle(&mut self.heap);
                proof {
                    assert(self.heap.wf(self.pages.free_ram_end));
                    Kernel::lemma_pages_shrunk(k0, *self);
                }
                return Err(Error { kind: ErrorKind::OutOfMemory });
            },
        };
        rds.set(0, Some(console_in));
        rds.set(1, Some(console_out));
        let mut context: Vec<u32> = Vec::new();
        let mut c: usize = 0;
        while c < NUM_CALLEE_SAVED
            invariant
                c <= NUM_CALLEE_SAVED,
                context@.len() == c,
            decreases NUM_CALLEE_SAVED - c,
        {
            context.push(0);
            c += 1;
        }
        let pid = self.procs.next_pid;
        let inner = ProcessInner {
            pid,
            state: ProcessState::Runnable,
            context,
            page_table: space,
            kernel_stack: stack,
            resource_descriptors: rds,
            mmap_head: MMAP_BASE,
        };
        let ghost k1 = *self;
        self.procs.slots.set(idx, inner);
        self.procs.next_pid = pid + 1;
        proof {
            Kernel::lemma_pages_shrunk(k0, k1);
            assert forall|i: int| 0 <= i < MAX_PROCS && i != idx implies #[trigger] self.slot(i) == k1.slot(i) by {}
            assert forall|i: int| 0 <= i < MAX_PROCS implies #[trigger] self.slot_ok(i) by {
                if i != idx {
                    assert(k1.slot_ok(i));
                } else {
                    assert forall|va: int| page_addr(va) && self.slot(i).mmap_head <= va < BLOCK_DEVICE_ADDRESS
                        implies #[trigger] self.slot(i).page_table.mapping(va) is None by {
                        assert(!in_pages(va, USER_BASE as int, pages_for_len(image@.len() as int)));
                        assert(s1.mapping(va) is None);
                    }
                    assert forall|e: int| 0 <= e < MAX_NUM_RESOURCE_DESCRIPTORS implies (#[trigger] self.slot(i).resource_descriptors@[e] matches Some(rd)
                        ==> rd.description.is_live() 
                        && rd.description.payload()->0@.wf()) by {}
                }
            }
            crate::proc::lemma_table_wf_kept(k1.procs, self.procs, idx as int);
            assert(self.rd_open(idx as int, 0));
            assert(self.rd_open(idx as int, 1));
            assert forall|e: int| 2 <= e < MAX_NUM_RESOURCE_DESCRIPTORS implies !#[trigger] self.rd_open(idx as int, e) by {
                assert(self.slot(idx as int).resource_descriptors@[e] is None);
            }
            assert(self.slot(idx as int).page_table == s2);
            assert(self.mem == mem2);
            assert(image_at(*self, idx as int, image@, frame as int));
            assert forall|va: int|
                page_addr(va) && self.kernel_base <= va < self.pages.free_ram_end implies #[trigger] self.slot(
                    idx as int,
                ).page_table.mapping(va) == Some(pte_of(va as usize, crate::page_table::KERNEL_MEM_FLAGS | FLAG_VALID)) by {
                assert(!in_pages(va, USER_BASE as int, pages_for_len(image@.len() as int)));
                assert(s1.mapping(va) == Some(pte_of(va as usize, crate::page_table::KERNEL_MEM_FLAGS | FLAG_VALID)));
            }
            assert(!in_pages(BLOCK_DEVICE_ADDRESS as int, USER_BASE as int, pages_for_len(image@.len() as int)));
            assert(!in_pages(RNG_DEVICE_ADDRESS as int, USER_BASE as int, pages_for_len(image@.len() as int)));
            assert(page_addr(BLOCK_DEVICE_ADDRESS as int));
            assert(page_addr(RNG_DEVICE_ADDRESS as int));
        }
        Ok(Process { buf_idx: idx })
    }

    /// The kernel's invariant survives the allocator giving frames out.
    proof fn lemma_pages_shrunk(k0: Kernel, k1: Kernel)
        requires
            k0.wf(),
            k1.pages.wf(),
            k1.pages.free_ram == k0.pages.free_ram,
            k1.pages.free_ram_end == k0.pages.free_ram_end,
            k1.pages.owned().subset_of(k0.pages.owned()),
            k1.procs == k0.procs,
            k1.mem.base == k0.mem.base,
            k1.mem.bytes@.len() == k0.mem.bytes@.len(),
            k1.kernel_base == k0.kernel_base,
            k1.cpu == k0.cpu,
            k1.storage == k0.storage,
            k1.random == k0.random,
            k1.heap.wf(k1.pages.free_ram_end),
        ensures
            k1.wf(),
    {
        assert forall|i: int| 0 <= i < MAX_PROCS implies #[trigger] k1.slot_ok(i) by {
            assert(k0.slot_ok(i));
        }
    }
}

/// The first `n` bytes of `v`.
fn slice_prefix(v: &Vec<u8>, n: usize) -> (r: Vec<u8>)
    requires
        n <= v@.len(),
    ensures
        r@ == v@.subrange(0, n as int),
{
    let mut out: Vec<u8> = Vec::new();
    let mut i: usize = 0;
    while i < n
        invariant
            n <= v@.len(),
            i <= n,
            out@ == v@.subrange(0, i as int),
        decreases n - i,
    {
        out.push(v[i]);
        assert(out@ =~= v@.subrange(0, i + 1));
        i += 1;
    }
    out
}

/// A descriptor that was closed is not found afterwards: every later read,
/// write or close of it fails with `NotFound`.
pub proof fn lemma_closed_descriptor_not_found(k: Kernel, d: int)
    requires
        0 <= d < MAX_NUM_RESOURCE_DESCRIPTORS,
        !k.rd_open(k.procs.current as int, d),
    ensures
        k.descriptor_lookup(d) == Err::<(), ErrorKind>(ErrorKind::NotFound),
{
}

} // verus!
