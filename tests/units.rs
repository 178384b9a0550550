//! Unit-level checks of the allocators, tables, devices and file system.

use kernel::csr::{page_table_for_satp, satp_for, AllowUserModeMemory};
use kernel::error::{Error, OutOfMemory};
use kernel::ext2::{Ext2, InodeType, Superblock};
use kernel::memory::PhysicalMemory;
use kernel::page_alloc::{alloc_pages, free_pages, PageAllocator};
use kernel::page_table::{
    alloc_and_map_slice, map_page, AddressSpace, PageTableEntry, PageTableFlags, PhysicalAddress, UserMemMut,
    UserMemRef,
};
use kernel::proc::ResourceDescriptor;
use kernel::raw_alloc::{class_for_size, KAllocator};
use kernel::rc::KrcBox;
use kernel::resource_desc::{utf8_valid, Console, ResourceDescription};
use kernel::sbi;
use kernel::shared::{ErrorKind, FileOpenFlags, Syscall};
use kernel::sync::{KSpinLock, LazyLock};
use kernel::syscall::split_path;
use kernel::virtio::{
    BlockRequestStatus, BlockStore, EntropySource, MmioRegisters, VirtioBlock, VirtioRandom, DEVICE_ID_BLOCK,
    DEVICE_ID_ENTROPY, VIRTIO_MAGIC,
};

fn regs(device_id: u32, capacity: u64) -> MmioRegisters {
    MmioRegisters {
        magic: VIRTIO_MAGIC,
        version: 1,
        device_id,
        device_features: 0,
        queue_select: 0,
        queue_size: 0,
        queue_pfn: 0,
        queue_ready: 0,
        queue_notify: 0,
        status: 0,
        capacity,
    }
}

#[test]
fn page_allocations_are_aligned_disjoint_and_reused() {
    let mut pages = PageAllocator::new(0x8040_0000, 0x8041_0000);
    let a = alloc_pages(&mut pages, 2).unwrap();
    let b = alloc_pages(&mut pages, 3).unwrap();
    assert_eq!(a % 4096, 0);
    assert_eq!(b % 4096, 0);
    assert!(a + 2 * 4096 <= b || b + 3 * 4096 <= a);
    assert!(a >= 0x8040_0000 && b + 3 * 4096 <= 0x8041_0000);
    free_pages(&mut pages, a, 2);
    assert_eq!(alloc_pages(&mut pages, 3).unwrap(), 0x8040_5000);
    assert_eq!(alloc_pages(&mut pages, 2).unwrap(), a);
    assert_eq!(alloc_pages(&mut pages, 16), Err(OutOfMemory));
}

#[test]
fn zeroed_pages_and_buffers() {
    let mut pages = PageAllocator::new(0x8040_0000, 0x8040_4000);
    let mut mem = PhysicalMemory::new(0x8040_0000, 0x4000);
    mem.write_bytes(0x8040_0000, &[7u8; 64]);
    let p = kernel::memory::alloc_pages_zeroed(&mut pages, &mut mem, 1).unwrap();
    assert_eq!(p, 0x8040_0000);
    assert_eq!(mem.read_bytes(p, 64), vec![0u8; 64]);
    let b = kernel::bytebuf::KByteBuf::new_zeroed(5);
    assert_eq!(b.as_slice(), &[0u8; 5]);
    assert_eq!(kernel::bytebuf::KByteBuf::new().len(), 0);
    assert_eq!(kernel::bytebuf::read_u32(&[1, 2, 3, 4], 0), 0x0403_0201);
    assert_eq!(kernel::bytebuf::read_u16(&[1, 2], 0), 0x0201);
}

#[test]
fn size_classes() {
    assert_eq!(class_for_size(1), Some((0, 16)));
    assert_eq!(class_for_size(16), Some((0, 16)));
    assert_eq!(class_for_size(17), Some((1, 32)));
    assert_eq!(class_for_size(1000), Some((6, 1024)));
    assert_eq!(class_for_size(2048), Some((7, 2048)));
    assert_eq!(class_for_size(2049), None);
}

#[test]
fn size_allocator_round_trip() {
    let mut pages = PageAllocator::new(0x8040_0000, 0x8041_0000);
    let mut heap = KAllocator::new();
    assert_eq!(heap.allocate_inner(&mut pages, 0, 8), Ok((8, 0)));
    let (p, len) = heap.allocate_inner(&mut pages, 40, 8).unwrap();
    assert_eq!(len, 64);
    let (q, _) = heap.allocate_inner(&mut pages, 40, 8).unwrap();
    assert_eq!(q, p + 64);
    heap.deallocate_inner(p, 40, 8);
    assert_eq!(heap.allocate_inner(&mut pages, 40, 8), Ok((p, 64)));
    let (big, big_len) = heap.allocate_inner(&mut pages, 5000, 8).unwrap();
    assert_eq!((big % 4096, big_len), (0, 8192));
}

#[test]
fn map_page_then_walk() {
    let mut pages = PageAllocator::new(0x8040_0000, 0x8041_0000);
    let root = alloc_pages(&mut pages, 1).unwrap();
    let mut space = AddressSpace::new(root);
    let flags = PageTableFlags { bits: 2 | 4 | 16 };
    map_page(&mut space, &mut pages, 0x0200_0000, PhysicalAddress(0x8040_8000), flags).unwrap();
    let e = space.entry_for_vaddr(0x0200_0000).unwrap();
    assert_eq!(e.physical_addr(), PhysicalAddress(0x8040_8000));
    assert_eq!(e.flags().bits, 2 | 4 | 16 | 1);
    assert!(space.entry_for_vaddr(0x0200_1000).map_or(true, |e| !e.flags().valid()));
    let allow = AllowUserModeMemory::allow(&mut 0);
    assert!(UserMemRef::for_region(&space, 0x0200_0010, 100, &allow).is_some());
    assert!(UserMemMut::for_region(&space, 0x0200_0010, 100, &allow).is_some());
    assert!(UserMemRef::for_region(&space, 0x0200_0ff0, 0x20, &allow).is_none());
    map_page(&mut space, &mut pages, 0x0200_1000, PhysicalAddress(0x8040_9000), PageTableFlags { bits: 2 | 16 })
        .unwrap();
    assert!(UserMemRef::for_region(&space, 0x0200_0ff0, 0x20, &allow).is_some());
    assert!(UserMemMut::for_region(&space, 0x0200_0ff0, 0x20, &allow).is_none());
    assert_eq!(kernel::page_table::paddr_for_vaddr(Some(&space), 0x0200_0123).0, 0x8040_8123);
    assert_eq!(kernel::page_table::paddr_for_vaddr(None, 0x1234).0, 0x1234);
}

#[test]
fn page_table_entry_fields() {
    let e = PageTableEntry::from_addr_flags(PhysicalAddress(0x8040_3000), PageTableFlags { bits: 0x3f });
    assert_eq!(e.0, (0x80403 << 10) | 0x1f);
    assert_eq!(e.physical_addr().0, 0x8040_3000);
    assert_eq!(e.flags().bits, 0x1f);
    assert!(PhysicalAddress(0x2000).is_aligned(4096));
    assert_eq!(PhysicalAddress::null().byte_add(7).0, 7);
    assert_eq!(satp_for(0x8040_3000), 0x8008_0403);
    assert_eq!(page_table_for_satp(0x8008_0403), Some(0x8040_3000));
    assert_eq!(page_table_for_satp(0x403), None);
}

#[test]
fn slice_is_copied_into_mapped_frames() {
    let mut pages = PageAllocator::new(0x8040_0000, 0x8041_0000);
    let mut mem = PhysicalMemory::new(0x8040_0000, 0x1_0000);
    let root = alloc_pages(&mut pages, 1).unwrap();
    let mut space = AddressSpace::new(root);
    let data: Vec<u8> = (0..5000u32).map(|i| (i % 253) as u8).collect();
    let p = alloc_and_map_slice(&mut space, &mut pages, &mut mem, 0x0100_0000, &data, PageTableFlags { bits: 30 })
        .unwrap();
    assert_eq!(mem.read_bytes(p, 5000), data);
    let second = space.entry_for_vaddr(0x0100_1000).unwrap();
    assert_eq!(second.physical_addr().0, p + 4096);
}

#[test]
fn refcounted_box_destroys_once() {
    let mut pages = PageAllocator::new(0x8040_0000, 0x8041_0000);
    let mut heap = KAllocator::new();
    let mut b = KrcBox::new(41, 24, &mut heap, &mut pages).unwrap();
    assert!(KrcBox::is_unique(&b));
    b.clone_handle();
    assert!(!KrcBox::is_unique(&b));
    assert_eq!(b.drop_handle(&mut heap), None);
    assert_eq!(*b.get(), 41);
    assert_eq!(b.drop_handle(&mut heap), Some(41));
    assert_eq!(heap.allocate_inner(&mut pages, 24, 8), Ok((0x8040_0000, 32)));
}

#[test]
fn saturated_refcount_never_frees() {
    let mut counter = kernel::atomic::Atomic::new(usize::MAX);
    assert_eq!(kernel::rc::increment_atomic_saturating(&mut counter), usize::MAX);
    assert_eq!(kernel::rc::decrement_if_unsaturated(&mut counter), usize::MAX);
    let mut c = kernel::atomic::Atomic::new(3usize);
    assert_eq!(kernel::rc::decrement_if_unsaturated(&mut c), 2);
    assert_eq!(kernel::rc::increment_atomic_saturating(&mut c), 3);
}

#[test]
fn block_device_round_trip() {
    let mut dev = VirtioBlock::new(regs(DEVICE_ID_BLOCK, 8), 1, BlockStore { bytes: vec![0; 8 * 512] }).unwrap();
    assert_eq!(dev.capacity(), 8);
    let data: Vec<u8> = (0..512u32).map(|i| (i * 7 % 256) as u8).collect();
    dev.write_sector(&data, 5).unwrap();
    let mut buf = vec![0u8; 512];
    dev.read_sector(&mut buf, 5).unwrap();
    assert_eq!(buf, data);
    dev.read_sector(&mut buf, 4).unwrap();
    assert_eq!(buf, vec![0u8; 512]);
    assert_eq!(dev.read_sector(&mut buf, 8), Err(Error { kind: ErrorKind::Io }));
    assert_eq!(dev.write_sector(&data, 9), Err(Error { kind: ErrorKind::Io }));
}

#[test]
fn device_handshake_checks() {
    let mut bad = regs(DEVICE_ID_BLOCK, 1);
    bad.magic = 0;
    assert!(VirtioBlock::new(bad, 1, BlockStore { bytes: vec![0; 512] }).is_err());
    let mut ro = regs(DEVICE_ID_BLOCK, 1);
    ro.device_features = 32;
    assert_eq!(
        VirtioBlock::new(ro, 1, BlockStore { bytes: vec![0; 512] }).err(),
        Some(Error { kind: ErrorKind::Unsupported })
    );
    let ok = VirtioBlock::new(regs(DEVICE_ID_BLOCK, 1), 7, BlockStore { bytes: vec![0; 512] }).unwrap();
    assert!(!ok.virtio.queue.queue_busy());
    assert_eq!(ok.virtio.regs.status, 15);
    assert_eq!(ok.virtio.regs.queue_pfn, 7);
    assert_eq!(BlockRequestStatus { bits: 0 }.success(), Ok(()));
    assert_eq!(BlockRequestStatus { bits: 3 }.success(), Err(Error { kind: ErrorKind::Io }));
    assert_eq!(BlockRequestStatus { bits: 2 }.success(), Err(Error { kind: ErrorKind::Unsupported }));
}

#[test]
fn entropy_device_gives_up_when_dry() {
    let mut dev = VirtioRandom::new(regs(DEVICE_ID_ENTROPY, 0), 1, EntropySource { bytes: vec![1, 2, 3] }).unwrap();
    let mut buf = vec![0u8; 2];
    dev.read_random(&mut buf).unwrap();
    assert_eq!(buf, vec![1, 2]);
    let mut buf = vec![0u8; 4];
    assert_eq!(dev.read_random(&mut buf), Err(Error { kind: ErrorKind::Io }));
}

fn small_fs_disk() -> Vec<u8> {
    let mut d = vec![0u8; 16 * 1024];
    let put32 = |d: &mut Vec<u8>, off: usize, v: u32| d[off..off + 4].copy_from_slice(&v.to_le_bytes());
    put32(&mut d, 1024, 8);
    put32(&mut d, 1028, 16);
    put32(&mut d, 1024 + 32, 16);
    put32(&mut d, 1024 + 40, 8);
    put32(&mut d, 1024 + 76, 1);
    d[1024 + 88] = 128;
    put32(&mut d, 2048 + 8, 5);
    d
}

#[test]
fn superblock_validity() {
    let disk = small_fs_disk();
    let sb = Superblock::parse(&disk[1024..2048]);
    assert_eq!(sb.inodes_per_group, 8);
    assert_eq!(sb.check_validity(), Ok(()));
    assert_eq!(sb.num_block_groups(), 1);
    assert_eq!(sb.block_size(), 1024);
    assert_eq!(sb.sectors_per_block(), 2);
    assert_eq!(sb.inodes_per_block(), 8);
    let mut v2 = sb;
    v2.major_version = 2;
    assert_eq!(v2.check_validity(), Err(Error { kind: ErrorKind::Unsupported }));
    let mut groups = sb;
    groups.block_count = 40;
    assert_eq!(groups.check_validity(), Err(Error { kind: ErrorKind::Io }));
    let mut zero = sb;
    zero.inodes_per_group = 0;
    assert_eq!(zero.check_validity(), Err(Error { kind: ErrorKind::Io }));
    let mut short = sb;
    short.inode_size = 64;
    assert_eq!(short.check_validity(), Err(Error { kind: ErrorKind::Unsupported }));
    let mut feat = sb;
    feat.required_features = 1;
    assert_eq!(feat.check_validity(), Err(Error { kind: ErrorKind::Unsupported }));
    let mut ro = sb;
    ro.read_only_features = 4;
    assert_eq!(ro.check_validity(), Err(Error { kind: ErrorKind::Unsupported }));
    let mut huge = sb;
    huge.block_size_raw = 7;
    assert_eq!(huge.check_validity(), Ok(()));
}

#[test]
fn huge_blocks_mount_but_inodes_are_unsupported() {
    let mut disk = small_fs_disk();
    disk[1024 + 24] = 7;
    let dev = VirtioBlock::new(regs(DEVICE_ID_BLOCK, 32), 1, BlockStore { bytes: disk }).unwrap();
    let mut fs = Ext2::new(dev).unwrap();
    assert_eq!(fs.sb.block_size_raw, 7);
    assert_eq!(fs.inode(2).err(), Some(Error { kind: ErrorKind::Unsupported }));
}

#[test]
fn ext2_lookup_and_read() {
    let mut d = small_fs_disk();
    let put = |d: &mut Vec<u8>, off: usize, b: &[u8]| d[off..off + b.len()].copy_from_slice(b);
    // root inode 2: directory of one block at 10
    put(&mut d, 5120 + 128, &0x41edu16.to_le_bytes());
    put(&mut d, 5120 + 128 + 4, &1024u32.to_le_bytes());
    put(&mut d, 5120 + 128 + 40, &10u32.to_le_bytes());
    // entry "f" -> inode 3, "sub" -> inode 4
    put(&mut d, 10240, &3u32.to_le_bytes());
    put(&mut d, 10244, &12u16.to_le_bytes());
    d[10246] = 1;
    d[10248] = b'f';
    put(&mut d, 10252, &4u32.to_le_bytes());
    put(&mut d, 10256, &1012u16.to_le_bytes());
    d[10258] = 3;
    put(&mut d, 10260, b"sub");
    // inode 3: 1,500-byte file in blocks 11 and 12
    put(&mut d, 5120 + 256, &0x81a4u16.to_le_bytes());
    put(&mut d, 5120 + 256 + 4, &1500u32.to_le_bytes());
    put(&mut d, 5120 + 256 + 40, &11u32.to_le_bytes());
    put(&mut d, 5120 + 256 + 44, &12u32.to_le_bytes());
    for i in 0..1500 {
        d[11 * 1024 + i] = (i % 199) as u8;
    }
    // inode 4: directory with "g" -> inode 3, in block 13
    put(&mut d, 5120 + 384, &0x41edu16.to_le_bytes());
    put(&mut d, 5120 + 384 + 4, &1024u32.to_le_bytes());
    put(&mut d, 5120 + 384 + 40, &13u32.to_le_bytes());
    put(&mut d, 13 * 1024, &3u32.to_le_bytes());
    put(&mut d, 13 * 1024 + 4, &1024u16.to_le_bytes());
    d[13 * 1024 + 6] = 1;
    d[13 * 1024 + 8] = b'g';
    let dev = VirtioBlock::new(regs(DEVICE_ID_BLOCK, 32), 1, BlockStore { bytes: d.clone() }).unwrap();
    let mut fs = Ext2::new(dev).unwrap();
    assert_eq!(fs.lookup_path(&split_path(b"/f", 1)), Ok(3));
    assert_eq!(fs.lookup_path(&split_path(b"/sub/g", 1)), Ok(3));
    assert_eq!(fs.lookup_path(&split_path(b"/sub/h", 1)), Err(Error { kind: ErrorKind::NotFound }));
    assert_eq!(fs.lookup_path(&split_path(b"/f/g", 1)), Err(Error { kind: ErrorKind::Unsupported }));
    assert_eq!(fs.lookup_path(&vec![]), Ok(2));
    let ino = fs.inode(4).unwrap();
    assert_eq!(ino.inode_type(), Some(InodeType::Directory));
    assert_eq!(fs.inode(3).unwrap().inode_type(), Some(InodeType::RegularFile));
    assert_eq!(fs.inode(0).err(), Some(Error { kind: ErrorKind::NotFound }));
    let mut buf = vec![0u8; 2000];
    assert_eq!(fs.read_file_from_offset(3, 0, &mut buf), Ok(1500));
    assert_eq!(&buf[..1500], &d[11 * 1024..11 * 1024 + 1500]);
    let mut small = vec![9u8; 10];
    assert_eq!(fs.read_file_from_offset(3, 1020, &mut small), Ok(10));
    assert_eq!(&small[..], &d[11 * 1024 + 1020..11 * 1024 + 1030]);
    assert_eq!(fs.read_file_from_offset(3, 1500, &mut small), Ok(0));
    let patch: Vec<u8> = (0..40u8).collect();
    assert_eq!(fs.write_file_from_offset(3, 1010, &patch), Ok(40));
    let mut back = vec![0u8; 40];
    assert_eq!(fs.read_file_from_offset(3, 1010, &mut back), Ok(40));
    assert_eq!(back, patch);
    assert_eq!(fs.write_file_from_offset(3, 1490, &patch), Ok(10));
    let mut tail = vec![0u8; 20];
    assert_eq!(fs.read_file_from_offset(3, 1490, &mut tail), Ok(10));
    assert_eq!(&tail[..10], &patch[..10]);
}

#[test]
fn path_splitting() {
    assert_eq!(split_path(b"/a/b/c", 1), vec![b"a".to_vec(), b"b".to_vec(), b"c".to_vec()]);
    assert_eq!(split_path(b"/", 1), vec![Vec::<u8>::new()]);
    assert_eq!(split_path(b"/a//b", 1), vec![b"a".to_vec(), vec![], b"b".to_vec()]);
}

#[test]
fn wire_codes() {
    assert_eq!(ErrorKind::from_num(4), Some(ErrorKind::NotFound));
    assert_eq!(ErrorKind::from_num(6), Some(ErrorKind::LimitReached));
    assert_eq!(ErrorKind::from_num(0), None);
    assert_eq!(ErrorKind::from_num(8), None);
    assert_eq!(ErrorKind::InvalidFormat.code(), 5);
    assert_eq!(Syscall::from_num(7), Some(Syscall::Open));
    assert_eq!(Syscall::from_num(13), None);
    assert_eq!(Syscall::Mmap.number(), 11);
    let f = FileOpenFlags::from_bits(0xff);
    assert_eq!(f.bits, 7);
    assert!(f.read_only() && f.write_only() && f.append());
    assert_eq!(sbi::Error::for_reg_value(0), None);
    assert_eq!(sbi::Error::for_reg_value(-3), Some(sbi::Error::InvalidParameter));
    assert_eq!(sbi::Error::for_reg_value(-99), Some(sbi::Error::Other));
    assert_eq!(sbi::Error::check_return(5), Ok(5));
    assert_eq!(sbi::Error::check_return(-13), Err(sbi::Error::Io));
    assert_eq!(Error::from(OutOfMemory).kind, ErrorKind::OutOfMemory);
}

#[test]
fn locks_and_cells() {
    let mut lock = KSpinLock::new(3);
    {
        let g = lock.lock();
        *g.data += 1;
    }
    assert_eq!(*lock.get_mut(), 4);
    assert!(lock.try_lock().is_some());
    assert_eq!(lock.into_inner(), 4);
    let mut lazy = LazyLock::new(|| 6 * 7);
    assert_eq!(*lazy.force(), 42);
    assert_eq!(*lazy.force(), 42);
    let mut cell = kernel::cell::SyncUnsafeCell::new(1);
    *cell.get_mut() = 2;
    assert_eq!(*cell.get(), 2);
    assert_eq!(cell.into_inner(), 2);
}

#[test]
fn descriptions_and_console() {
    let mut console = Console { input: vec![b'q'], output: vec![] };
    let mut storage: Option<Ext2> = None;
    let mut out = ResourceDescription::for_console_out();
    assert_eq!(out.write(&mut storage, &mut console, "héllo".as_bytes()), Ok(6));
    assert_eq!(console.output, "héllo".as_bytes().to_vec());
    assert_eq!(out.write(&mut storage, &mut console, &[0xc3]), Err(Error { kind: ErrorKind::InvalidFormat }));
    let mut buf = vec![0u8; 4];
    assert_eq!(out.read(&mut storage, &mut console, &mut buf), Err(Error { kind: ErrorKind::Unsupported }));
    let mut input = ResourceDescription::for_console_in();
    assert_eq!(input.read(&mut storage, &mut console, &mut buf), Ok(1));
    assert_eq!(buf[0], b'q');
    console.input = "é!".as_bytes().to_vec();
    assert_eq!(input.read(&mut storage, &mut console, &mut buf), Ok(2));
    assert_eq!(&buf[..2], "é".as_bytes());
    assert_eq!(console.input, b"!".to_vec());
    let mut empty: Vec<u8> = vec![];
    assert_eq!(input.read(&mut storage, &mut console, &mut empty), Ok(0));
    let mut pages = PageAllocator::new(0x8040_0000, 0x8041_0000);
    let mut heap = KAllocator::new();
    let mut rd = ResourceDescriptor::new(ResourceDescription::for_console_out(), &mut heap, &mut pages).unwrap();
    assert_eq!(rd.description().data.write(&mut storage, &mut console, b"!"), Ok(1));
}

#[test]
fn utf8_well_formedness() {
    assert!(utf8_valid(b"plain"));
    assert!(utf8_valid("é€😀".as_bytes()));
    assert!(!utf8_valid(&[0xc0, 0x80]));
    assert!(!utf8_valid(&[0xed, 0xa0, 0x80]));
    assert!(!utf8_valid(&[0xf4, 0x90, 0x80, 0x80]));
    assert!(!utf8_valid(&[0xe2, 0x82]));
    assert!(!utf8_valid(&[0xff]));
    for s in ["a", "ß", "한", "𝄞", "\u{10ffff}"] {
        assert_eq!(utf8_valid(s.as_bytes()), core::str::from_utf8(s.as_bytes()).is_ok());
    }
}
