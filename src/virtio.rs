use vstd::prelude::*;

use crate::bitset::BitSet;
use crate::error::Error;
use crate::shared::ErrorKind;

verus! {

/// The entries in a split virtqueue.
pub const QUEUE_SIZE: usize = 16;

/// The bytes in one disk sector.
pub const BLOCK_SECTOR_LEN: usize = 512;

/// The magic value of a virtio MMIO device: "virt".
pub const VIRTIO_MAGIC: u32 = 0x7472_6976;

pub const DEVICE_ID_BLOCK: u32 = 2;
pub const DEVICE_ID_ENTROPY: u32 = 4;

pub const STATUS_ACKNOWLEDGE: u32 = 1;
pub const STATUS_DRIVER: u32 = 2;
pub const STATUS_DRIVER_OK: u32 = 4;
pub const STATUS_FEATURES_OK: u32 = 8;
pub const STATUS_DEVICE_NEEDS_RESET: u32 = 64;
pub const STATUS_FAILED: u32 = 128;

/// The read-only feature bit of a block device.
pub const FEATURE_READ_ONLY: u32 = 32;

pub const DESC_NEXT: u16 = 1;
pub const DESC_WRITE: u16 = 2;

pub const REQUEST_READ: u32 = 0;
pub const REQUEST_WRITE: u32 = 1;

/// The offsets of the parts of a block request record.
pub const REQUEST_DATA_OFFSET: u64 = 16;
pub const REQUEST_STATUS_OFFSET: u64 = 528;

/// The most requests that one entropy read may issue.
pub const MAX_ENTROPY_ITERS: u8 = 128;

/// One descriptor of a virtqueue.
#[derive(Clone, Copy, Debug, PartialEq, Eq, Structural)]
pub struct VirtQueueDescriptor {
    pub address: u64,
    pub length: u32,
    pub flags: u16,
    pub next: u16,
}

/// One element of the used ring: the chain's head and the bytes written.
#[derive(Clone, Copy, Debug, PartialEq, Eq, Structural)]
pub struct VirtQueueUsedElement {
    pub index: u32,
    pub length: u32,
}

/// A split virtqueue: descriptors, the available ring and the used ring.
pub struct VirtQueue {
    pub descriptor: Vec<VirtQueueDescriptor>,
    pub available_index: u16,
    pub available_ring: Vec<u16>,
    pub used_index: u16,
    pub used_ring: Vec<VirtQueueUsedElement>,
}

impl VirtQueue {
    pub open spec fn wf(&self) -> bool {
        &&& self.descriptor@.len() == QUEUE_SIZE
        &&& self.available_ring@.len() == QUEUE_SIZE
        &&& self.used_ring@.len() == QUEUE_SIZE
    }

    /// A zeroed queue.
    pub fn new() -> (r: VirtQueue)
        ensures
            r.wf(),
            r.available_index == 0,
            r.used_index == 0,
    {
        let mut descriptor: Vec<VirtQueueDescriptor> = Vec::new();
        let mut available_ring: Vec<u16> = Vec::new();
        let mut used_ring: Vec<VirtQueueUsedElement> = Vec::new();
        let mut i: usize = 0;
        while i < QUEUE_SIZE
            invariant
                i <= QUEUE_SIZE,
                descriptor@.len() == i,
                available_ring@.len() == i,
                used_ring@.len() == i,
            decreases QUEUE_SIZE - i,
        {
            descriptor.push(VirtQueueDescriptor { address: 0, length: 0, flags: 0, next: 0 });
            available_ring.push(0);
            used_ring.push(VirtQueueUsedElement { index: 0, length: 0 });
            i += 1;
        }
        VirtQueue { descriptor, available_index: 0, available_ring, used_index: 0, used_ring }
    }

    /// Whether the device has requests left to complete.
    pub fn queue_busy(&self) -> (r: bool)
        ensures
            r == (self.available_index != self.used_index),
    {
        self.available_index != self.used_index
    }

    /// Offer the chain that starts at descriptor `head` to the device: put it
    /// in the next slot of the available ring and advance the index.
    pub fn publish(&mut self, head: u16)
        requires
            old(self).wf(),
        ensures
            final(self).wf(),
            final(self).available_ring@ == old(self).available_ring@.update(
                old(self).available_index as int % QUEUE_SIZE as int,
                head,
            ),
            final(self).available_index == (old(self).available_index + 1) % 0x1_0000,
            final(self).descriptor@ == old(self).descriptor@,
            final(self).used_index == old(self).used_index,
            final(self).used_ring@ == old(self).used_ring@,
    {
        let slot = (self.available_index as usize) % QUEUE_SIZE;
        self.available_ring.set(slot, head);
        self.available_index = self.available_index.wrapping_add(1);
    }
}

/// The registers of a legacy virtio MMIO device.
#[derive(Clone, Copy, Debug, PartialEq, Eq, Structural)]
pub struct MmioRegisters {
    pub magic: u32,
    pub version: u32,
    pub device_id: u32,
    pub device_features: u32,
    pub queue_select: u32,
    pub queue_size: u32,
    pub queue_pfn: u32,
    pub queue_ready: u32,
    pub queue_notify: u32,
    pub status: u32,
    pub capacity: u64,
}

/// What the status bits of a block request say.
#[derive(Clone, Copy, Debug, PartialEq, Eq, Structural)]
pub struct BlockRequestStatus {
    pub bits: u8,
}

pub const STATUS_IO_ERROR: u8 = 1;
pub const STATUS_UNSUPPORTED: u8 = 2;

impl BlockRequestStatus {
    /// The kernel error that the status stands for: I/O error first, then
    /// unsupported, else success.
    pub fn success(self) -> (r: Result<(), Error>)
        ensures
            self.bits & STATUS_IO_ERROR != 0 ==> r == Err::<(), Error>(Error { kind: ErrorKind::Io }),
            self.bits & STATUS_IO_ERROR == 0 && self.bits & STATUS_UNSUPPORTED != 0 ==> r == Err::<
                (),
                Error,
            >(Error { kind: ErrorKind::Unsupported }),
            self.bits & STATUS_IO_ERROR == 0 && self.bits & STATUS_UNSUPPORTED == 0 ==> r is Ok,
    {
        if self.bits & STATUS_IO_ERROR != 0 {
            Err(Error { kind: ErrorKind::Io })
        } else if self.bits & STATUS_UNSUPPORTED != 0 {
            Err(Error { kind: ErrorKind::Unsupported })
        } else {
            Ok(())
        }
    }
}

impl BitSet for BlockRequestStatus {
    type Repr = u8;

    fn as_inner(&self) -> &u8 {
        &self.bits
    }

    fn as_inner_mut(&mut self) -> &mut u8 {
        &mut self.bits
    }
}

/// A block request record: header, one sector of data, status byte.
pub struct BlockRequest {
    pub ty: u32,
    pub reserved: u32,
    pub sector: u64,
    pub data: Vec<u8>,
    pub status: BlockRequestStatus,
}

/// The driver's side of one virtio device: its registers and its queue.
pub struct Virtio {
    pub regs: MmioRegisters,
    pub queue: VirtQueue,
}

impl Virtio {
    /// The handshake: reset, acknowledge, check magic and version, accept
    /// no optional feature, set up queue 0 at page `queue_pfn`, driver OK.
    pub fn initialize(regs: MmioRegisters, queue_pfn: u32) -> (r: Result<Virtio, Error>)
        ensures
            (regs.magic != VIRTIO_MAGIC || regs.version != 1) ==> r == Err::<Virtio, Error>(
                Error { kind: ErrorKind::Io },
            ),
            (regs.magic == VIRTIO_MAGIC && regs.version == 1 && regs.device_features
                & FEATURE_READ_ONLY != 0) ==> r == Err::<Virtio, Error>(
                Error { kind: ErrorKind::Unsupported },
            ),
            (regs.magic == VIRTIO_MAGIC && regs.version == 1 && regs.device_features
                & FEATURE_READ_ONLY == 0) ==> (r matches Ok(v) && v.queue.wf()
                && v.queue.available_index == 0 && v.queue.used_index == 0 && v.regs.status
                == STATUS_ACKNOWLEDGE | STATUS_DRIVER | STATUS_FEATURES_OK | STATUS_DRIVER_OK
                && v.regs.queue_size == QUEUE_SIZE && v.regs.queue_pfn == queue_pfn
                && v.regs.queue_ready == 1 && v.regs.capacity == regs.capacity
                && v.regs.device_id == regs.device_id),
    {
        let mut regs = regs;
        regs.status = 0;
        regs.status = STATUS_ACKNOWLEDGE;
        regs.status = STATUS_ACKNOWLEDGE | STATUS_DRIVER;
        if regs.magic != VIRTIO_MAGIC || regs.version != 1 {
            return Err(Error { kind: ErrorKind::Io });
        }
        if regs.device_features & FEATURE_READ_ONLY != 0 {
            return Err(Error { kind: ErrorKind::Unsupported });
        }
        regs.status = STATUS_ACKNOWLEDGE | STATUS_DRIVER | STATUS_FEATURES_OK;
        regs.queue_select = 0;
        regs.queue_size = QUEUE_SIZE as u32;
        let queue = VirtQueue::new();
        regs.queue_pfn = queue_pfn;
        regs.queue_ready = 1;
        regs.status = STATUS_ACKNOWLEDGE | STATUS_DRIVER | STATUS_FEATURES_OK | STATUS_DRIVER_OK;
        Ok(Virtio { regs, queue })
    }
}

/// The bytes of sector `s` of a disk image.
pub open spec fn sector_of(disk: Seq<u8>, s: int) -> Seq<u8> {
    disk.subrange(s * BLOCK_SECTOR_LEN as int, s * BLOCK_SECTOR_LEN as int + BLOCK_SECTOR_LEN as int)
}

/// A disk image with sector `s` replaced by `data`.
pub open spec fn with_sector(disk: Seq<u8>, s: int, data: Seq<u8>) -> Seq<u8> {
    Seq::new(
        disk.len(),
        |i: int|
            if s * BLOCK_SECTOR_LEN as int <= i < s * BLOCK_SECTOR_LEN as int + BLOCK_SECTOR_LEN as int {
                data[i - s * BLOCK_SECTOR_LEN as int]
            } else {
                disk[i]
            },
    )
}

/// The storage behind a block device: its sectors, one after another.
pub struct BlockStore {
    pub bytes: Vec<u8>,
}

/// The device's side of a block request: carry out the chain at the head
/// of the available ring on the storage, set the status byte and put the
/// chain on the used ring.
fn serve_block_request(store: &mut BlockStore, queue: &mut VirtQueue, request: &mut BlockRequest)
    requires
        old(queue).wf(),
        old(request).data@.len() == BLOCK_SECTOR_LEN,
        old(store).bytes@.len() as int % 512 == 0,
        old(queue).used_index != old(queue).available_index,
    ensures
        final(queue).descriptor@ == old(queue).descriptor@,
        final(queue).available_ring@ == old(queue).available_ring@,
        final(queue).wf(),
        final(queue).used_index == (old(queue).used_index + 1) % 0x1_0000,
        final(queue).available_index == old(queue).available_index,
        final(request).data@.len() == BLOCK_SECTOR_LEN,
        final(request).ty == old(request).ty,
        final(request).sector == old(request).sector,
        final(store).bytes@.len() == old(store).bytes@.len(),
        ({
            let s = old(request).sector as int;
            let fits = (s + 1) * BLOCK_SECTOR_LEN as int <= old(store).bytes@.len();
            &&& (old(request).ty == REQUEST_READ && fits) ==> final(request).status.bits == 0
                && final(request).data@ == sector_of(old(store).bytes@, s) && final(store).bytes@
                == old(store).bytes@
            &&& (old(request).ty == REQUEST_WRITE && fits) ==> final(request).status.bits == 0
                && final(store).bytes@ == with_sector(old(store).bytes@, s, old(request).data@)
                && final(request).data@ == old(request).data@
            &&& !((old(request).ty == REQUEST_READ || old(request).ty == REQUEST_WRITE) && fits)
                ==> final(request).status.bits == STATUS_IO_ERROR && final(store).bytes@ == old(
                store,
            ).bytes@ && final(request).data@ == old(request).data@
        }),
{
    let head = queue.available_ring[((queue.used_index as usize) % QUEUE_SIZE)];
    let n = store.bytes.len();
    let fits = request.sector < (n / BLOCK_SECTOR_LEN) as u64;
    proof {
        if fits {
            assert((request.sector + 1) * BLOCK_SECTOR_LEN <= n) by (nonlinear_arith)
                requires request.sector < n as int / 512, n as int % 512 == 0,
            ;
        } else {
            assert((request.sector + 1) * BLOCK_SECTOR_LEN > n) by (nonlinear_arith)
                requires request.sector >= n as int / 512, n as int % 512 == 0,
            ;
        }
    }
    let mut written: u32 = 1;
    if fits && request.ty == REQUEST_READ {
        let base = (request.sector as usize) * BLOCK_SECTOR_LEN;
        let mut i: usize = 0;
        while i < BLOCK_SECTOR_LEN
            invariant
                base == request.sector * BLOCK_SECTOR_LEN,
                base + BLOCK_SECTOR_LEN <= n,
                n == store.bytes@.len(),
                request.data@.len() == BLOCK_SECTOR_LEN,
                request.ty == old(request).ty,
                request.sector == old(request).sector,
                i <= BLOCK_SECTOR_LEN,
                forall|j: int| 0 <= j < i ==> request.data@[j] == store.bytes@[base + j],
            decreases BLOCK_SECTOR_LEN - i,
        {
            request.data.set(i, store.bytes[base + i]);
            i += 1;
        }
        assert(request.data@ =~= sector_of(store.bytes@, request.sector as int));
        request.status = BlockRequestStatus { bits: 0 };
        written = 513;
    } else if fits && request.ty == REQUEST_WRITE {
        let base = (request.sector as usize) * BLOCK_SECTOR_LEN;
        let ghost before = store.bytes@;
        let mut i: usize = 0;
        while i < BLOCK_SECTOR_LEN
            invariant
                base == request.sector * BLOCK_SECTOR_LEN,
                base + BLOCK_SECTOR_LEN <= n,
                n == store.bytes@.len(),
                before.len() == n,
                request.data@.len() == BLOCK_SECTOR_LEN,
                i <= BLOCK_SECTOR_LEN,
                forall|j: int|
                    0 <= j < n ==> store.bytes@[j] == if base <= j < base + i {
                        request.data@[j - base]
                    } else {
                        before[j]
                    },
            decreases BLOCK_SECTOR_LEN - i,
        {
            store.bytes.set(base + i, request.data[i]);
            i += 1;
        }
        assert(store.bytes@ =~= with_sector(before, request.sector as int, request.data@));
        request.status = BlockRequestStatus { bits: 0 };
    } else {
        request.status = BlockRequestStatus { bits: STATUS_IO_ERROR };
    }
    let slot = (queue.used_index as usize) % QUEUE_SIZE;
    queue.used_ring.set(slot, VirtQueueUsedElement { index: head as u32, length: written });
    queue.used_index = queue.used_index.wrapping_add(1);
}

/// A virtio block device: the driver and the storage it reaches.
pub struct VirtioBlock {
    pub virtio: Virtio,
    pub store: BlockStore,
}

impl VirtioBlock {
    /// Ready for a request: queue idle, storage of `capacity` whole sectors.
    pub open spec fn wf(&self) -> bool {
        &&& self.virtio.queue.wf()
        &&& self.virtio.queue.available_index == self.virtio.queue.used_index
        &&& self.store.bytes@.len() == self.virtio.regs.capacity * BLOCK_SECTOR_LEN
    }

    /// The disk's contents.
    pub open spec fn disk(&self) -> Seq<u8> {
        self.store.bytes@
    }

    /// A block device over `store` after the handshake.
    pub fn new(regs: MmioRegisters, queue_pfn: u32, store: BlockStore) -> (r: Result<VirtioBlock, Error>)
        requires
            regs.device_id == DEVICE_ID_BLOCK,
            store.bytes@.len() == regs.capacity * BLOCK_SECTOR_LEN,
        ensures
            r matches Ok(b) ==> b.wf() && b.disk() == store.bytes@,
            (regs.magic == VIRTIO_MAGIC && regs.version == 1 && regs.device_features
                & FEATURE_READ_ONLY == 0) <==> r is Ok,
    {
        match Virtio::initialize(regs, queue_pfn) {
            Ok(virtio) => Ok(VirtioBlock { virtio, store }),
            Err(e) => Err(e),
        }
    }

    /// Submit the three-descriptor chain for `request` and wait for it.
    fn do_request(&mut self, request: &mut BlockRequest)
        requires
            old(self).wf(),
            old(request).data@.len() == BLOCK_SECTOR_LEN,
        ensures
            (old(request).ty == REQUEST_READ || old(request).ty == REQUEST_WRITE) ==> {
                &&& final(self).virtio.queue.descriptor@[0] == VirtQueueDescriptor {
                    address: 0,
                    length: REQUEST_DATA_OFFSET as u32,
                    flags: DESC_NEXT,
                    next: 1,
                }
                &&& final(self).virtio.queue.descriptor@[1] == VirtQueueDescriptor {
                    address: REQUEST_DATA_OFFSET,
                    length: BLOCK_SECTOR_LEN as u32,
                    flags: if old(request).ty == REQUEST_READ { (DESC_NEXT | DESC_WRITE) as u16 } else { DESC_NEXT },
                    next: 2,
                }
                &&& final(self).virtio.queue.descriptor@[2] == VirtQueueDescriptor {
                    address: REQUEST_STATUS_OFFSET,
                    length: 1,
                    flags: DESC_WRITE,
                    next: 0,
                }
                &&& final(self).virtio.queue.available_ring@[old(self).virtio.queue.available_index as int
                    % QUEUE_SIZE as int] == 0
                &&& final(self).virtio.queue.available_index == (old(self).virtio.queue.available_index + 1)
                    % 0x1_0000
            },
            (old(request).ty != REQUEST_READ && old(request).ty != REQUEST_WRITE) ==> final(self).virtio.queue
                == old(self).virtio.queue && final(self).virtio.regs == old(self).virtio.regs,
            final(self).wf(),
            final(self).virtio.regs.capacity == old(self).virtio.regs.capacity,
            final(request).data@.len() == BLOCK_SECTOR_LEN,
            ({
                let s = old(request).sector as int;
                let fits = (s + 1) * BLOCK_SECTOR_LEN as int <= old(self).disk().len();
                &&& (old(request).ty == REQUEST_READ && fits) ==> final(request).status.bits == 0
                    && final(request).data@ == sector_of(old(self).disk(), s) && final(self).disk()
                    == old(self).disk()
                &&& (old(request).ty == REQUEST_WRITE && fits) ==> final(request).status.bits == 0
                    && final(self).disk() == with_sector(old(self).disk(), s, old(request).data@)
                &&& (old(request).ty != REQUEST_READ && old(request).ty != REQUEST_WRITE)
                    ==> final(request).status.bits == STATUS_UNSUPPORTED && final(self).disk()
                    == old(self).disk()
                &&& ((old(request).ty == REQUEST_READ || old(request).ty == REQUEST_WRITE) && !fits)
                    ==> final(request).status.bits == STATUS_IO_ERROR && final(self).disk() == old(
                    self,
                ).disk()
            }),
    {
        let data_flags = if request.ty == REQUEST_READ {
            DESC_NEXT | DESC_WRITE
        } else if request.ty == REQUEST_WRITE {
            DESC_NEXT
        } else {
            request.status = BlockRequestStatus { bits: STATUS_UNSUPPORTED };
            return;
        };
        self.virtio.queue.descriptor.set(
            0,
            VirtQueueDescriptor { address: 0, length: REQUEST_DATA_OFFSET as u32, flags: DESC_NEXT, next: 1 },
        );
        self.virtio.queue.descriptor.set(
            1,
            VirtQueueDescriptor {
                address: REQUEST_DATA_OFFSET,
                length: BLOCK_SECTOR_LEN as u32,
                flags: data_flags,
                next: 2,
            },
        );
        self.virtio.queue.descriptor.set(
            2,
            VirtQueueDescriptor { address: REQUEST_STATUS_OFFSET, length: 1, flags: DESC_WRITE, next: 0 },
        );
        self.virtio.queue.publish(0);
        self.virtio.regs.queue_notify = 0;
        serve_block_request(&mut self.store, &mut self.virtio.queue, request);
    }

    /// Read sector `sector` into `buf`.
    pub fn read_sector(&mut self, buf: &mut Vec<u8>, sector: u64) -> (r: Result<(), Error>)
        requires
            old(self).wf(),
            old(buf)@.len() == BLOCK_SECTOR_LEN,
        ensures
            final(self).wf(),
            final(self).disk() == old(self).disk(),
            final(self).virtio.regs.capacity == old(self).virtio.regs.capacity,
            final(buf)@.len() == BLOCK_SECTOR_LEN,
            sector < old(self).virtio.regs.capacity ==> r is Ok && final(buf)@ == sector_of(
                old(self).disk(),
                sector as int,
            ),
            sector >= old(self).virtio.regs.capacity ==> r == Err::<(), Error>(
                Error { kind: ErrorKind::Io },
            ),
    {
        let mut data: Vec<u8> = Vec::new();
        let mut i: usize = 0;
        while i < BLOCK_SECTOR_LEN
            invariant
                i <= BLOCK_SECTOR_LEN,
                data@.len() == i,
            decreases BLOCK_SECTOR_LEN - i,
        {
            data.push(0);
            i += 1;
        }
        let mut request = BlockRequest {
            ty: REQUEST_READ,
            reserved: 0,
            sector,
            data,
            status: BlockRequestStatus { bits: 0 },
        };
        proof {
            if sector < self.virtio.regs.capacity {
                assert((sector + 1) * BLOCK_SECTOR_LEN <= self.virtio.regs.capacity * BLOCK_SECTOR_LEN) by (nonlinear_arith)
                    requires sector < self.virtio.regs.capacity,
                ;
            } else {
                assert((sector + 1) * BLOCK_SECTOR_LEN > self.virtio.regs.capacity * BLOCK_SECTOR_LEN) by (nonlinear_arith)
                    requires sector >= self.virtio.regs.capacity,
                ;
            }
        }
        self.do_request(&mut request);
        proof {
            assert(1u8 & 1u8 != 0) by (bit_vector);
            assert(0u8 & 1u8 == 0 && 0u8 & 2u8 == 0) by (bit_vector);
        }
        match request.status.success() {
            Ok(()) => {},
            Err(e) => {
                return Err(e);
            },
        }
        *buf = request.data;
        Ok(())
    }

    /// Write `data` to sector `sector`.
    pub fn write_sector(&mut self, data: &Vec<u8>, sector: u64) -> (r: Result<(), Error>)
        requires
            old(self).wf(),
            data@.len() == BLOCK_SECTOR_LEN,
        ensures
            final(self).wf(),
            final(self).virtio.regs.capacity == old(self).virtio.regs.capacity,
            sector < old(self).virtio.regs.capacity ==> r is Ok && final(self).disk() == with_sector(
                old(self).disk(),
                sector as int,
                data@,
            ),
            sector >= old(self).virtio.regs.capacity ==> r == Err::<(), Error>(
                Error { kind: ErrorKind::Io },
            ) && final(self).disk() == old(self).disk(),
    {
        let mut request = BlockRequest {
            ty: REQUEST_WRITE,
            reserved: 0,
            sector,
            data: data.clone(),
            status: BlockRequestStatus { bits: 0 },
        };
        proof {
            if sector < self.virtio.regs.capacity {
                assert((sector + 1) * BLOCK_SECTOR_LEN <= self.virtio.regs.capacity * BLOCK_SECTOR_LEN) by (nonlinear_arith)
                    requires sector < self.virtio.regs.capacity,
                ;
            } else {
                assert((sector + 1) * BLOCK_SECTOR_LEN > self.virtio.regs.capacity * BLOCK_SECTOR_LEN) by (nonlinear_arith)
                    requires sector >= self.virtio.regs.capacity,
                ;
            }
        }
        assert(request.data@ == data@);
        self.do_request(&mut request);
        proof {
            assert(1u8 & 1u8 != 0) by (bit_vector);
            assert(0u8 & 1u8 == 0 && 0u8 & 2u8 == 0) by (bit_vector);
        }
        request.status.success()
    }

    /// The number of sectors of the device.
    pub fn capacity(&self) -> (r: u64)
        ensures
            r == self.virtio.regs.capacity,
    {
        self.virtio.regs.capacity
    }
}

/// Writing a sector and reading it back gives the written bytes.
pub proof fn lemma_block_round_trip(disk: Seq<u8>, s: int, data: Seq<u8>)
    requires
        0 <= s,
        (s + 1) * BLOCK_SECTOR_LEN as int <= disk.len(),
        data.len() == BLOCK_SECTOR_LEN,
    ensures
        sector_of(with_sector(disk, s, data), s) == data,
{
    assert(sector_of(with_sector(disk, s, data), s) =~= data);
}

/// What an entropy device can still hand out, in the order it will.
pub struct EntropySource {
    pub bytes: Vec<u8>,
}

/// The device's side of an entropy request for `buf[start..]`: as many bytes
/// as it has, at most the request's length.
fn serve_entropy_request(source: &mut EntropySource, queue: &mut VirtQueue, buf: &mut Vec<u8>, start: usize)
    requires
        old(queue).wf(),
        start <= old(buf)@.len(),
        old(buf)@.len() <= u32::MAX,
        old(queue).used_index != old(queue).available_index,
    ensures
        final(queue).wf(),
        final(queue).used_index == (old(queue).used_index + 1) % 0x1_0000,
        final(queue).available_index == old(queue).available_index,
        final(buf)@.len() == old(buf)@.len(),
        ({
            let k = if old(source).bytes@.len() < old(buf)@.len() - start {
                old(source).bytes@.len() as int
            } else {
                old(buf)@.len() - start
            };
            &&& final(queue).used_ring@[old(queue).used_index as int % QUEUE_SIZE as int].length == k
            &&& final(buf)@ == old(buf)@.subrange(0, start as int) + old(source).bytes@.subrange(0, k)
                + old(buf)@.subrange(start + k, old(buf)@.len() as int)
            &&& final(source).bytes@ == old(source).bytes@.subrange(k, old(source).bytes@.len() as int)
        }),
{
    let head = queue.available_ring[((queue.used_index as usize) % QUEUE_SIZE)];
    let want = buf.len() - start;
    let k = if source.bytes.len() < want { source.bytes.len() } else { want };
    let ghost b0 = buf@;
    let n = buf.len();
    let mut i: usize = 0;
    while i < k
        invariant
            n == buf@.len(),
            start <= n,
            k <= want,
            want == buf@.len() - start,
            k <= source.bytes@.len(),
            source.bytes@ == old(source).bytes@,
            buf@.len() == b0.len(),
            i <= k,
            forall|j: int| 0 <= j < buf@.len() ==> buf@[j] == if start <= j < start + i {
                source.bytes@[j - start]
            } else {
                b0[j]
            },
        decreases k - i,
    {
        buf.set(start + i, source.bytes[i]);
        i += 1;
    }
    let mut rest: Vec<u8> = Vec::new();
    let mut j: usize = k;
    while j < source.bytes.len()
        invariant
            k <= j <= source.bytes@.len(),
            rest@ == source.bytes@.subrange(k as int, j as int),
        decreases source.bytes@.len() - j,
    {
        rest.push(source.bytes[j]);
        j += 1;
    }
    assert(buf@ =~= b0.subrange(0, start as int) + old(source).bytes@.subrange(0, k as int)
        + b0.subrange(start + k, b0.len() as int));
    source.bytes = rest;
    let slot = (queue.used_index as usize) % QUEUE_SIZE;
    queue.used_ring.set(slot, VirtQueueUsedElement { index: head as u32, length: k as u32 });
    queue.used_index = queue.used_index.wrapping_add(1);
    assert(source.bytes@ == old(source).bytes@.subrange(k as int, old(source).bytes@.len() as int));
    assert(queue.used_ring@[slot as int].length == k);
}

/// A virtio entropy device: the driver and what the device can hand out.
pub struct VirtioRandom {
    pub virtio: Virtio,
    pub source: EntropySource,
}

impl VirtioRandom {
    /// Ready for a request: queue idle.
    pub open spec fn wf(&self) -> bool {
        &&& self.virtio.queue.wf()
        &&& self.virtio.queue.available_index == self.virtio.queue.used_index
    }

    /// An entropy device over `source` after the handshake.
    pub fn new(regs: MmioRegisters, queue_pfn: u32, source: EntropySource) -> (r: Result<VirtioRandom, Error>)
        requires
            regs.device_id == DEVICE_ID_ENTROPY,
        ensures
            r matches Ok(d) ==> d.wf() && d.source.bytes@ == source.bytes@,
            (regs.magic == VIRTIO_MAGIC && regs.version == 1 && regs.device_features
                & FEATURE_READ_ONLY == 0) <==> r is Ok,
    {
        match Virtio::initialize(regs, queue_pfn) {
            Ok(virtio) => Ok(VirtioRandom { virtio, source }),
            Err(e) => Err(e),
        }
    }

    /// Fill `buf` with random bytes, asking again for the rest when the device
    /// hands out fewer than asked, at most 128 times; then an I/O error.
    pub fn read_random(&mut self, buf: &mut Vec<u8>) -> (r: Result<(), Error>)
        requires
            old(self).wf(),
            old(buf)@.len() <= u32::MAX,
        ensures
            final(self).wf(),
            final(buf)@.len() == old(buf)@.len(),
            r is Ok <==> old(buf)@.len() <= old(self).source.bytes@.len(),
            r is Ok ==> final(buf)@ == old(self).source.bytes@.subrange(0, old(buf)@.len() as int)
                && final(self).source.bytes@ == old(self).source.bytes@.subrange(
                old(buf)@.len() as int,
                old(self).source.bytes@.len() as int,
            ),
            r is Err ==> r == Err::<(), Error>(Error { kind: ErrorKind::Io }),
    {
        let ghost s0 = self.source.bytes@;
        let ghost b0 = buf@;
        let len = buf.len();
        let mut start: usize = 0;
        let mut num_iters: u8 = 0;
        let mut done = false;
        while num_iters < MAX_ENTROPY_ITERS && !done
            invariant
                done ==> start == len,
                self.wf(),
                buf@.len() == len,
                len == b0.len(),
                len <= u32::MAX,
                start <= len,
                start <= s0.len(),
                buf@.subrange(0, start as int) == s0.subrange(0, start as int),
                self.source.bytes@ == s0.subrange(start as int, s0.len() as int),
                num_iters > 0 && !done ==> start < len && self.source.bytes@.len() == 0,
                num_iters <= MAX_ENTROPY_ITERS,
            decreases MAX_ENTROPY_ITERS - num_iters,
        {
            num_iters += 1;
            let remaining = len - start;
            self.virtio.queue.descriptor.set(
                0,
                VirtQueueDescriptor { address: start as u64, length: remaining as u32, flags: DESC_WRITE, next: 0 },
            );
            self.virtio.queue.publish(0);
            self.virtio.regs.queue_notify = 0;
            let slot = (self.virtio.queue.used_index as usize) % QUEUE_SIZE;
            let ghost src = self.source.bytes@;
            let ghost bb = buf@;
            serve_entropy_request(&mut self.source, &mut self.virtio.queue, buf, start);
            let used = self.virtio.queue.used_ring[slot];
            proof {
                let k = used.length as int;
                assert(buf@.subrange(0, start + k) =~= s0.subrange(0, start + k)) by {
                    assert forall|j: int| 0 <= j < start + k implies buf@[j] == s0[j] by {
                        if j < start {
                            assert(buf@[j] == bb[j]);
                            assert(bb.subrange(0, start as int)[j] == s0.subrange(0, start as int)[j]);
                        } else {
                            assert(buf@[j] == src[j - start]);
                            assert(src[j - start] == s0[j]);
                        }
                    }
                }
                assert(self.source.bytes@ =~= s0.subrange(start + k, s0.len() as int));
            }
            if used.length as usize == remaining {
                done = true;
            }
            start = start + used.length as usize;
        }
        if done {
            proof {
                assert(buf@ =~= buf@.subrange(0, len as int));
            }
            Ok(())
        } else {
            Err(Error { kind: ErrorKind::Io })
        }
    }
}

} // verus!
