//! End-to-end runs of the syscall surface on a small ext2 disk.

use kernel::ext2::Ext2;
use kernel::proc::{ProcessState, MMAP_BASE, USER_BASE};
use kernel::syscall::{copy_from_user, copy_to_user, Kernel, SyscallOutcome, TrapFrame};
use kernel::virtio::{
    BlockStore, EntropySource, MmioRegisters, VirtioBlock, VirtioRandom, DEVICE_ID_BLOCK,
    DEVICE_ID_ENTROPY, VIRTIO_MAGIC,
};

fn put16(d: &mut [u8], off: usize, v: u16) {
    d[off..off + 2].copy_from_slice(&v.to_le_bytes());
}

fn put32(d: &mut [u8], off: usize, v: u32) {
    d[off..off + 4].copy_from_slice(&v.to_le_bytes());
}

fn inode(d: &mut [u8], n: usize, mode: u16, size: u32, blocks: &[u32]) {
    let at = 5 * 1024 + (n - 1) * 128;
    put16(d, at, mode);
    put32(d, at + 4, size);
    for (i, b) in blocks.iter().enumerate() {
        put32(d, at + 40 + 4 * i, *b);
    }
}

fn dirent(d: &mut [u8], at: usize, ino: u32, rec: u16, name: &[u8]) {
    put32(d, at, ino);
    put16(d, at + 4, rec);
    d[at + 6] = name.len() as u8;
    d[at + 7] = 1;
    d[at + 8..at + 8 + name.len()].copy_from_slice(name);
}

/// A 64 KiB ext2 disk: `/hello.txt` = "hi\n", `/a/b` = 2,000 bytes over two
/// blocks.
fn disk_image() -> Vec<u8> {
    let mut d = vec![0u8; 64 * 1024];
    let sb = 1024;
    put32(&mut d, sb, 16);
    put32(&mut d, sb + 4, 64);
    put32(&mut d, sb + 24, 0);
    put32(&mut d, sb + 32, 64);
    put32(&mut d, sb + 40, 16);
    put32(&mut d, sb + 76, 1);
    put16(&mut d, sb + 88, 128);
    put32(&mut d, sb + 96, 2);
    put32(&mut d, sb + 100, 0);
    put32(&mut d, 2048 + 8, 5);
    inode(&mut d, 2, 0x41ed, 1024, &[10]);
    dirent(&mut d, 10 * 1024, 12, 20, b"hello.txt");
    dirent(&mut d, 10 * 1024 + 20, 13, 1004, b"a");
    inode(&mut d, 12, 0x81a4, 3, &[11]);
    d[11 * 1024..11 * 1024 + 3].copy_from_slice(b"hi\n");
    inode(&mut d, 13, 0x41ed, 1024, &[12]);
    dirent(&mut d, 12 * 1024, 14, 1024, b"b");
    inode(&mut d, 14, 0x81a4, 2000, &[13, 14]);
    for i in 0..2000 {
        d[13 * 1024 + i] = (i % 251) as u8;
    }
    d
}

fn regs(device_id: u32, capacity: u64) -> MmioRegisters {
    MmioRegisters {
        magic: VIRTIO_MAGIC,
        version: 1,
        device_id,
        device_features: 0,
        queue_select: 0,
        queue_size: 0,
        queue_pfn: 0,
        queue_ready: 0,
        queue_notify: 0,
        status: 0,
        capacity,
    }
}

fn block_device() -> VirtioBlock {
    let bytes = disk_image();
    let sectors = (bytes.len() / 512) as u64;
    VirtioBlock::new(regs(DEVICE_ID_BLOCK, sectors), 0x80400, BlockStore { bytes }).expect("handshake")
}

fn boot(entropy: Vec<u8>) -> Kernel {
    let fs = Ext2::new(block_device()).expect("mount");
    let rng = VirtioRandom::new(regs(DEVICE_ID_ENTROPY, 0), 0x80401, EntropySource { bytes: entropy })
        .expect("handshake");
    Kernel::new(0x8020_0000, 0x8040_0000, 0x8080_0000, Some(fs), Some(rng))
}

/// The image: the paths that the scenarios open, at fixed offsets.
fn image() -> Vec<u8> {
    let mut img = vec![0u8; 64];
    img[0..10].copy_from_slice(b"/hello.txt");
    img[16..24].copy_from_slice(b"relative");
    img[32..47].copy_from_slice(b"/does/not/exist");
    img
}

fn call(k: &mut Kernel, a0: u32, a1: u32, a2: u32, a3: u32) -> (TrapFrame, SyscallOutcome) {
    let mut f = TrapFrame { a0, a1, a2, a3 };
    let out = k.handle_syscall(&mut f);
    (f, out)
}

const GET_PID: u32 = 3;
const SCHED_YIELD: u32 = 4;
const EXIT: u32 = 5;
const GET_RANDOM: u32 = 6;
const OPEN: u32 = 7;
const CLOSE: u32 = 8;
const READ: u32 = 9;
const WRITE: u32 = 10;
const MMAP: u32 = 11;
const MUNMAP: u32 = 12;
const FAILED: u32 = u32::MAX;

#[test]
fn boot_and_hello() {
    let mut k = boot(vec![]);
    let p = k.create_process(&image()).expect("process");
    assert_eq!(p.buf_idx, 0);
    let (f, _) = call(&mut k, GET_PID, 0, 0, 0);
    assert_eq!(f.a1, 1);
    let (f, _) = call(&mut k, MMAP, 4096, 0, 0);
    let buf = f.a1;
    assert_eq!(buf as usize, MMAP_BASE);
    let (f, _) = call(&mut k, OPEN, USER_BASE as u32, 10, 1);
    assert_eq!(f.a1, 2);
    let d = f.a1;
    let (f, _) = call(&mut k, READ, d, buf, 3);
    assert_eq!(f.a1, 3);
    let got = copy_from_user(&k.procs.slots[0].page_table, &k.mem, buf as usize, 3).expect("mapped");
    assert_eq!(got, b"hi\n".to_vec());
    let (f, _) = call(&mut k, READ, d, buf, 3);
    assert_eq!(f.a1, 0);
    let (f, _) = call(&mut k, CLOSE, d, 0, 0);
    assert_eq!(f.a1, 0);
    let (_, out) = call(&mut k, EXIT, 0, 0, 0);
    assert_eq!(out, SyscallOutcome::Halt);
    assert_eq!(k.procs.slots[0].state, ProcessState::Exited);
}

#[test]
fn get_random_fills_buffer() {
    let entropy: Vec<u8> = (0..32u8).map(|i| i.wrapping_mul(37).wrapping_add(11)).collect();
    let mut k = boot(entropy.clone());
    k.create_process(&image()).expect("process");
    let (f, _) = call(&mut k, MMAP, 16, 0, 0);
    let buf = f.a1;
    let (f, _) = call(&mut k, GET_RANDOM, buf, 16, 0);
    assert_eq!(f.a1, 0);
    let first = copy_from_user(&k.procs.slots[0].page_table, &k.mem, buf as usize, 16).unwrap();
    assert_eq!(first, entropy[..16].to_vec());
    let (f, _) = call(&mut k, GET_RANDOM, buf, 16, 0);
    assert_eq!(f.a1, 0);
    let second = copy_from_user(&k.procs.slots[0].page_table, &k.mem, buf as usize, 16).unwrap();
    assert_ne!(first, second);
    let (f, _) = call(&mut k, GET_RANDOM, buf, 16, 0);
    assert_eq!((f.a1, f.a2), (FAILED, 2));
}

#[test]
fn mmap_guard_gap() {
    let mut k = boot(vec![]);
    k.create_process(&image()).expect("process");
    let (f, _) = call(&mut k, MMAP, 4096, 0, 0);
    let v1 = f.a1;
    let (f, _) = call(&mut k, MMAP, 4096, 0, 0);
    let v2 = f.a1;
    assert_eq!(v2 - v1, 2 * 4096);
    let gap = k.procs.slots[0].page_table.entry_for_vaddr((v1 + 4096) as usize);
    assert!(gap.map_or(true, |e| e.0 & 1 == 0));
    let (f, _) = call(&mut k, READ, 0, v1 + 4096, 1);
    assert_eq!((f.a1, f.a2), (FAILED, 7));
    let (f, _) = call(&mut k, READ, 0, v1, 1);
    assert_eq!(f.a1, 0);
}

#[test]
fn out_of_descriptors() {
    let mut k = boot(vec![]);
    k.create_process(&image()).expect("process");
    assert_eq!(call(&mut k, CLOSE, 0, 0, 0).0.a1, 0);
    assert_eq!(call(&mut k, CLOSE, 1, 0, 0).0.a1, 0);
    for i in 0..1024u32 {
        let (f, _) = call(&mut k, OPEN, USER_BASE as u32, 10, 1);
        assert_eq!(f.a1, i);
    }
    let (f, _) = call(&mut k, OPEN, USER_BASE as u32, 10, 1);
    assert_eq!((f.a1, f.a2), (FAILED, 6));
}

#[test]
fn bad_path() {
    let mut k = boot(vec![]);
    k.create_process(&image()).expect("process");
    let (f, _) = call(&mut k, OPEN, USER_BASE as u32 + 16, 8, 1);
    assert_eq!((f.a1, f.a2), (FAILED, 5));
    let (f, _) = call(&mut k, OPEN, USER_BASE as u32 + 32, 15, 1);
    assert_eq!((f.a1, f.a2), (FAILED, 4));
    let (f, _) = call(&mut k, OPEN, 0x0030_0000, 4, 1);
    assert_eq!((f.a1, f.a2), (FAILED, 7));
}

#[test]
fn cooperative_yield() {
    let mut k = boot(vec![]);
    let a = k.create_process(&image()).expect("a");
    let b = k.create_process(&image()).expect("b");
    assert_eq!((a.buf_idx, b.buf_idx), (0, 1));
    let regs_a: Vec<u32> = (100..113).collect();
    k.cpu.regs = regs_a.clone();
    let (f, out) = call(&mut k, SCHED_YIELD, 7, 0, 0);
    assert_eq!(out, SyscallOutcome::Resume);
    assert_eq!(f.a1, 0);
    assert_eq!(k.procs.current, 1);
    assert_eq!(call(&mut k, GET_PID, 0, 0, 0).0.a1, 2);
    k.cpu.regs = (200..213).collect();
    call(&mut k, SCHED_YIELD, 0, 0, 0);
    assert_eq!(k.procs.current, 0);
    assert_eq!(k.cpu.regs, regs_a);
    assert_eq!(call(&mut k, GET_PID, 0, 0, 0).0.a1, 1);
}

#[test]
fn descriptor_closed_then_read_is_not_found() {
    let mut k = boot(vec![]);
    k.create_process(&image()).expect("process");
    let (f, _) = call(&mut k, MMAP, 4096, 0, 0);
    let buf = f.a1;
    let d = call(&mut k, OPEN, USER_BASE as u32, 10, 1).0.a1;
    assert_eq!(call(&mut k, CLOSE, d, 0, 0).0.a1, 0);
    let (f, _) = call(&mut k, READ, d, buf, 3);
    assert_eq!((f.a1, f.a2), (FAILED, 4));
    let (f, _) = call(&mut k, CLOSE, d, 0, 0);
    assert_eq!((f.a1, f.a2), (FAILED, 4));
    let (f, _) = call(&mut k, CLOSE, 5000, 0, 0);
    assert_eq!((f.a1, f.a2), (FAILED, 4));
}

#[test]
fn console_write_and_read() {
    let mut k = boot(vec![]);
    k.create_process(&image()).expect("process");
    let (f, _) = call(&mut k, WRITE, 1, USER_BASE as u32, 10);
    assert_eq!(f.a1, 10);
    assert_eq!(k.console.output, b"/hello.txt".to_vec());
    let (f, _) = call(&mut k, MMAP, 4096, 0, 0);
    let buf = f.a1;
    let space = k.procs.slots[0].page_table.entry_for_vaddr(buf as usize);
    assert!(space.is_some());
    assert!(copy_to_user(&k.procs.slots[0].page_table, &mut k.mem, buf as usize, &[0xff, 0xfe]));
    let (f, _) = call(&mut k, WRITE, 1, buf, 2);
    assert_eq!((f.a1, f.a2), (FAILED, 5));
    let (f, out) = call(&mut k, READ, 0, buf, 1);
    assert_eq!(out, SyscallOutcome::WaitForInput);
    assert_eq!(f, TrapFrame { a0: READ, a1: 0, a2: buf, a3: 1 });
    k.console.input.push(b'x');
    let (f, _) = call(&mut k, READ, 0, buf, 1);
    assert_eq!(f.a1, 1);
    let got = copy_from_user(&k.procs.slots[0].page_table, &k.mem, buf as usize, 1).unwrap();
    assert_eq!(got, vec![b'x']);
    let (f, _) = call(&mut k, WRITE, 0, buf, 1);
    assert_eq!((f.a1, f.a2), (FAILED, 3));
}

#[test]
fn unknown_and_munmap() {
    let mut k = boot(vec![]);
    k.create_process(&image()).expect("process");
    let (f, out) = call(&mut k, 99, 1, 2, 3);
    assert_eq!(out, SyscallOutcome::Unknown);
    assert_eq!(f, TrapFrame { a0: 99, a1: 1, a2: 2, a3: 3 });
    let (f, _) = call(&mut k, MUNMAP, 5, 6, 0);
    assert_eq!(f.a1, 0);
}

#[test]
fn file_write_then_read_back() {
    let mut k = boot(vec![]);
    k.create_process(&image()).expect("process");
    let (f, _) = call(&mut k, MMAP, 4096, 0, 0);
    let buf = f.a1;
    let d = call(&mut k, OPEN, USER_BASE as u32, 10, 3).0.a1;
    assert!(copy_to_user(&k.procs.slots[0].page_table, &mut k.mem, buf as usize, b"HEY!"));
    let (f, _) = call(&mut k, WRITE, d, buf, 4);
    assert_eq!(f.a1, 3);
    let ro = call(&mut k, OPEN, USER_BASE as u32, 10, 1).0.a1;
    let (f, _) = call(&mut k, WRITE, ro, buf, 1);
    assert_eq!((f.a1, f.a2), (FAILED, 3));
    let (f, _) = call(&mut k, READ, ro, buf + 100, 8);
    assert_eq!(f.a1, 3);
    let got = copy_from_user(&k.procs.slots[0].page_table, &k.mem, buf as usize + 100, 3).unwrap();
    assert_eq!(got, b"HEY".to_vec());
}

#[test]
fn idle_process_runs_when_nothing_else_can() {
    let mut k = boot(vec![]);
    let a = k.create_process(&image()).expect("a");
    let b = k.create_process(&image()).expect("b");
    b.set_idle(&mut k.procs);
    assert_eq!(k.procs.slots[1].state, ProcessState::Idle);
    let (_, out) = call(&mut k, EXIT, 0, 0, 0);
    assert_eq!(out, SyscallOutcome::Resume);
    assert_eq!(k.procs.current, b.buf_idx);
    assert_eq!(k.procs.slots[a.buf_idx].state, ProcessState::Exited);
    let (_, out) = call(&mut k, EXIT, 0, 0, 0);
    assert_eq!(out, SyscallOutcome::Halt);
}
