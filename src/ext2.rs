use vstd::prelude::*;

use crate::bytebuf::{le16, le32, read_u16, read_u32, KByteBuf};
use crate::error::Error;
use crate::shared::ErrorKind;
use crate::virtio::{sector_of, with_sector, VirtioBlock, BLOCK_SECTOR_LEN};

verus! {

/// Where the superblock starts on the disk, and its length.
pub const SUPERBLOCK_OFFSET: u64 = 1024;
pub const SUPERBLOCK_LEN: usize = 1024;

/// The root directory's inode.
pub const ROOT_INODE: u32 = 2;

/// The bytes of an inode that are read.
pub const INODE_LEN: usize = 128;

/// The direct block pointers of an inode.
pub const NUM_DIRECT_BLOCKS: usize = 12;

/// The only required feature supported: directory entries carry a type.
pub const REQUIRED_SUPPORTED: u32 = 2;

/// The read-only features supported: sparse descriptors, 64-bit sizes.
pub const READ_ONLY_SUPPORTED: u32 = 3;

/// The largest block size exponent that block addresses are computed for:
/// blocks of 64 KiB. A larger one mounts, but its inodes are not read.
pub const MAX_BLOCK_SIZE_RAW: u32 = 6;

/// The fields of the superblock that the kernel uses.
#[derive(Clone, Copy, Debug, PartialEq, Eq, Structural)]
pub struct Superblock {
    pub inode_count: u32,
    pub block_count: u32,
    pub block_size_raw: u32,
    pub blocks_per_group: u32,
    pub inodes_per_group: u32,
    pub major_version: u32,
    pub inode_size: u16,
    pub required_features: u32,
    pub read_only_features: u32,
}

/// The superblock fields of the 1,024 bytes `s`.
pub open spec fn superblock_of(s: Seq<u8>) -> Superblock {
    Superblock {
        inode_count: le32(s, 0),
        block_count: le32(s, 4),
        block_size_raw: le32(s, 24),
        blocks_per_group: le32(s, 32),
        inodes_per_group: le32(s, 40),
        major_version: le32(s, 76),
        inode_size: le16(s, 88),
        required_features: le32(s, 96),
        read_only_features: le32(s, 100),
    }
}

/// `1024 << raw`.
pub open spec fn block_size_of(raw: u32) -> nat
    decreases raw,
{
    if raw == 0 {
        1024
    } else {
        2 * block_size_of((raw - 1) as u32)
    }
}

/// `ceil(a / b)`.
pub open spec fn div_ceil(a: int, b: int) -> int {
    (a + b - 1) / b
}

impl Superblock {
    /// Read the fields from the superblock's bytes.
    pub fn parse(s: &[u8]) -> (r: Superblock)
        requires
            s@.len() == SUPERBLOCK_LEN,
        ensures
            r == superblock_of(s@),
    {
        Superblock {
            inode_count: read_u32(s, 0),
            block_count: read_u32(s, 4),
            block_size_raw: read_u32(s, 24),
            blocks_per_group: read_u32(s, 32),
            inodes_per_group: read_u32(s, 40),
            major_version: read_u32(s, 76),
            inode_size: read_u16(s, 88),
            required_features: read_u32(s, 96),
            read_only_features: read_u32(s, 100),
        }
    }

    /// The outcome of the load-time checks.
    pub open spec fn validity(self) -> Result<(), ErrorKind> {
        if self.inodes_per_group == 0 || self.blocks_per_group == 0 {
            Err(ErrorKind::Io)
        } else if div_ceil(self.inode_count as int, self.inodes_per_group as int) != div_ceil(
            self.block_count as int,
            self.blocks_per_group as int,
        ) {
            Err(ErrorKind::Io)
        } else if self.major_version != 1 {
            Err(ErrorKind::Unsupported)
        } else if self.inode_size < 128 {
            Err(ErrorKind::Unsupported)
        } else if self.required_features & !REQUIRED_SUPPORTED != 0 {
            Err(ErrorKind::Unsupported)
        } else if self.read_only_features & !READ_ONLY_SUPPORTED != 0 {
            Err(ErrorKind::Unsupported)
        } else {
            Ok(())
        }
    }

    pub open spec fn valid(self) -> bool {
        self.validity() is Ok
    }

    /// Check the superblock: non-zero group sizes, group counts by inodes and
    /// by blocks agreeing, major version 1, inodes of at least 128 bytes,
    /// only supported features.
    pub fn check_validity(&self) -> (r: Result<(), Error>)
        ensures
            r is Ok <==> self.validity() is Ok,
            r matches Err(e) ==> self.validity() == Err::<(), ErrorKind>(e.kind),
    {
        if self.inodes_per_group == 0 || self.blocks_per_group == 0 {
            return Err(Error { kind: ErrorKind::Io });
        }
        let groups_by_inodes = (self.inode_count / self.inodes_per_group) as u64
            + if self.inode_count % self.inodes_per_group == 0 { 0 } else { 1 };
        let groups_by_blocks = (self.block_count / self.blocks_per_group) as u64
            + if self.block_count % self.blocks_per_group == 0 { 0 } else { 1 };
        proof {
            lemma_div_ceil(self.inode_count as int, self.inodes_per_group as int);
            lemma_div_ceil(self.block_count as int, self.blocks_per_group as int);
        }
        if groups_by_inodes != groups_by_blocks {
            return Err(Error { kind: ErrorKind::Io });
        }
        if self.major_version != 1 {
            return Err(Error { kind: ErrorKind::Unsupported });
        }
        if self.inode_size < 128 {
            return Err(Error { kind: ErrorKind::Unsupported });
        }
        if self.required_features & !REQUIRED_SUPPORTED != 0 {
            return Err(Error { kind: ErrorKind::Unsupported });
        }
        if self.read_only_features & !READ_ONLY_SUPPORTED != 0 {
            return Err(Error { kind: ErrorKind::Unsupported });
        }
        Ok(())
    }

    /// The number of block groups.
    pub fn num_block_groups(&self) -> (r: u64)
        requires
            self.blocks_per_group > 0,
        ensures
            r == div_ceil(self.block_count as int, self.blocks_per_group as int),
    {
        proof {
            lemma_div_ceil(self.block_count as int, self.blocks_per_group as int);
        }
        (self.block_count / self.blocks_per_group) as u64 + if self.block_count % self.blocks_per_group == 0 {
            0
        } else {
            1
        }
    }

    /// The block size in bytes: `1024 << block_size_raw`.
    pub fn block_size(&self) -> (r: u64)
        requires
            self.block_size_raw <= MAX_BLOCK_SIZE_RAW,
        ensures
            r == block_size_of(self.block_size_raw),
            1024 <= r <= 65536,
            r % 512 == 0,
    {
        proof {
            reveal_with_fuel(block_size_of, 7);
        }
        match self.block_size_raw {
            0 => 1024,
            1 => 2048,
            2 => 4096,
            3 => 8192,
            4 => 16384,
            5 => 32768,
            _ => 65536,
        }
    }

    /// The sectors in a block.
    pub fn sectors_per_block(&self) -> (r: u32)
        requires
            self.block_size_raw <= MAX_BLOCK_SIZE_RAW,
        ensures
            r == block_size_of(self.block_size_raw) / 512,
    {
        (self.block_size() / 512) as u32
    }

    /// The inodes in a block.
    pub fn inodes_per_block(&self) -> (r: u32)
        requires
            self.block_size_raw <= MAX_BLOCK_SIZE_RAW,
            self.inode_size > 0,
        ensures
            r == block_size_of(self.block_size_raw) / self.inode_size as nat,
    {
        (self.block_size() / self.inode_size as u64) as u32
    }
}

/// `a / b` plus one when it leaves a remainder is `ceil(a / b)`.
proof fn lemma_div_ceil(a: int, b: int)
    requires
        a >= 0,
        b > 0,
    ensures
        a / b + (if a % b == 0 { 0int } else { 1int }) == div_ceil(a, b),
{
    vstd::arithmetic::div_mod::lemma_fundamental_div_mod(a, b);
    let q = a / b;
    let r = a % b;
    if r == 0 {
        assert(a + b - 1 == q * b + (b - 1)) by (nonlinear_arith)
            requires a == b * q + r, r == 0,
        ;
        vstd::arithmetic::div_mod::lemma_fundamental_div_mod_converse_div(a + b - 1, b, q, b - 1);
    } else {
        assert(a + b - 1 == (q + 1) * b + (r - 1)) by (nonlinear_arith)
            requires a == b * q + r,
        ;
        vstd::arithmetic::div_mod::lemma_fundamental_div_mod_converse_div(a + b - 1, b, q + 1, r - 1);
    }
}

/// The entry named `name` in a directory block, searching from `idx`: its
/// inode number.
pub open spec fn find_entry(block: Seq<u8>, idx: int, name: Seq<u8>) -> Option<u32>
    decreases block.len() - idx,
{
    if idx < 0 || idx + 8 > block.len() {
        None
    } else if idx + 8 + block[idx + 6] > block.len() {
        None
    } else if block.subrange(idx + 8, idx + 8 + block[idx + 6]) == name {
        Some(le32(block, idx))
    } else if le16(block, idx + 4) == 0 || idx + le16(block, idx + 4) >= block.len() {
        None
    } else {
        find_entry(block, idx + le16(block, idx + 4), name)
    }
}

/// The block of directory inode `n`, or why it cannot be had.
pub open spec fn dir_block(disk: Seq<u8>, sb: Superblock, n: u32) -> Result<Seq<u8>, ErrorKind> {
    if inode_error(disk, sb, n) is Some {
        Err(inode_error(disk, sb, n)->0)
    } else if le32(disk, inode_addr(disk, sb, n) + 4) != 1024 {
        Err(ErrorKind::Unsupported)
    } else if le32(disk, inode_addr(disk, sb, n) + 40) as int * bsize(sb) + bsize(sb) > disk.len() {
        Err(ErrorKind::Io)
    } else {
        let b = le32(disk, inode_addr(disk, sb, n) + 40) as int * bsize(sb);
        Ok(disk.subrange(b, b + bsize(sb)))
    }
}

/// Follow `parts` from directory inode `cur`, one component at a time.
pub open spec fn walk_path(disk: Seq<u8>, sb: Superblock, cur: u32, parts: Seq<Seq<u8>>) -> Result<u32, ErrorKind>
    decreases parts.len(),
{
    if parts.len() == 0 {
        Ok(cur)
    } else {
        match dir_block(disk, sb, cur) {
            Err(e) => Err(e),
            Ok(b) => match find_entry(b, 0, parts[0]) {
                None => Err(ErrorKind::NotFound),
                Some(next) => walk_path(disk, sb, next, parts.drop_first()),
            },
        }
    }
}

/// The byte views of path components.
pub open spec fn parts_view(parts: Seq<Vec<u8>>) -> Seq<Seq<u8>> {
    parts.map_values(|v: Vec<u8>| v@)
}

/// The fixed part of a directory entry.
#[derive(Clone, Copy, Debug, PartialEq, Eq, Structural)]
pub struct DirectoryEntryHeader {
    pub inode_num: u32,
    pub entry_size: u16,
    pub name_len: u8,
    pub entry_type: u8,
}

/// Whether `a[off..off + b.len()]` equals `b`.
fn bytes_equal(a: &[u8], off: usize, b: &[u8]) -> (r: bool)
    requires
        off + b@.len() <= a@.len(),
    ensures
        r == (a@.subrange(off as int, off + b@.len()) == b@),
{
    let n = a.len();
    let mut i: usize = 0;
    while i < b.len()
        invariant
            n == a@.len(),
            off + b@.len() <= a@.len(),
            i <= b@.len(),
            forall|j: int| 0 <= j < i ==> a@[off + j] == b@[j],
        decreases b@.len() - i,
    {
        if a[off + i] != b[i] {
            assert(a@.subrange(off as int, off + b@.len())[i as int] != b@[i as int]);
            return false;
        }
        i += 1;
    }
    assert(a@.subrange(off as int, off + b@.len()) =~= b@);
    true
}

/// Search a directory block from `start` for the entry named `name`; the
/// entry's header and the position after it.
fn search_entries(block: &[u8], start: usize, name: &[u8]) -> (r: Option<(DirectoryEntryHeader, usize)>)
    ensures
        r is None <==> find_entry(block@, start as int, name@) is None,
        r matches Some((h, _)) ==> Some(h.inode_num) == find_entry(block@, start as int, name@),
{
    let mut idx = start;
    while idx <= block.len() && block.len() - idx >= 8
        invariant
            find_entry(block@, start as int, name@) == find_entry(block@, idx as int, name@),
        decreases block@.len() - idx,
    {
        let rec = read_u16(block, idx + 4);
        let nl = block[idx + 6] as usize;
        if block.len() - idx - 8 < nl {
            return None;
        }
        if nl == name.len() && bytes_equal(block, idx + 8, name) {
            let header = DirectoryEntryHeader {
                inode_num: read_u32(block, idx),
                entry_size: rec,
                name_len: nl as u8,
                entry_type: block[idx + 7],
            };
            let next = if rec as usize >= block.len() - idx { block.len() } else { idx + rec as usize };
            return Some((header, next));
        }
        proof {
            if nl == name@.len() {
            } else {
                assert(block@.subrange(idx + 8, idx + 8 + nl).len() != name@.len());
            }
        }
        if rec == 0 || rec as usize >= block.len() - idx {
            return None;
        }
        idx = idx + rec as usize;
    }
    None
}

/// The entries of a directory block, read in order.
pub struct DirectoryEntryIter {
    pub buf: KByteBuf,
    pub idx: usize,
}

impl DirectoryEntryIter {
    /// The next entry named `name`, moving past it.
    pub fn find_for_name(&mut self, name: &[u8]) -> (r: Option<DirectoryEntryHeader>)
        ensures
            r is None <==> find_entry(old(self).buf.buf@, old(self).idx as int, name@) is None,
            r matches Some(h) ==> Some(h.inode_num) == find_entry(
                old(self).buf.buf@,
                old(self).idx as int,
                name@,
            ),
            final(self).buf.buf@ == old(self).buf.buf@,
    {
        match search_entries(self.buf.as_slice(), self.idx, name) {
            Some((h, next)) => {
                self.idx = next;
                Some(h)
            },
            None => {
                self.idx = self.buf.len();
                None
            },
        }
    }
}

/// The size of the file whose inode lies at `a`.
pub open spec fn file_size_at(disk: Seq<u8>, a: int) -> int {
    le32(disk, a + 4) as int + le32(disk, a + 108) as int * 0x1_0000_0000
}

/// Where byte `pos` of the file whose inode lies at `a` is on the disk,
/// through its direct block pointers.
pub open spec fn file_byte_addr(disk: Seq<u8>, sb: Superblock, a: int, pos: int) -> int {
    le32(disk, a + 40 + 4 * (pos / bsize(sb))) as int * bsize(sb) + pos % bsize(sb)
}

/// How many bytes a read of `len` bytes at `off` gets from a file of `size`.
pub open spec fn read_count(size: int, off: int, len: int) -> int {
    if off >= size {
        0
    } else if len < size - off {
        len
    } else {
        size - off
    }
}

/// Consecutive bytes inside one block lie consecutively on the disk.
proof fn lemma_in_block(pos: int, t: int, bs: int)
    requires
        pos >= 0,
        bs > 0,
        0 <= t < bs - pos % bs,
    ensures
        (pos + t) / bs == pos / bs,
        (pos + t) % bs == pos % bs + t,
{
    vstd::arithmetic::div_mod::lemma_fundamental_div_mod(pos, bs);
    assert(pos + t == (pos / bs) * bs + (pos % bs + t)) by (nonlinear_arith)
        requires pos == bs * (pos / bs) + pos % bs,
    ;
    vstd::arithmetic::div_mod::lemma_fundamental_div_mod_converse(pos + t, bs, pos / bs, pos % bs + t);
}

/// A disk image with `data` written at byte `addr`.
pub open spec fn patched(disk: Seq<u8>, addr: int, data: Seq<u8>) -> Seq<u8> {
    Seq::new(disk.len(), |i: int| if addr <= i < addr + data.len() { data[i - addr] } else { disk[i] })
}

/// The `n` bytes of `v` from `start`.
fn copy_range(v: &[u8], start: usize, n: usize) -> (r: Vec<u8>)
    requires
        start + n <= v@.len(),
    ensures
        r@ == v@.subrange(start as int, start + n),
{
    let len = v.len();
    let mut out: Vec<u8> = Vec::new();
    let mut i: usize = 0;
    while i < n
        invariant
            len == v@.len(),
            start + n <= v@.len(),
            i <= n,
            out@ == v@.subrange(start as int, start + i),
        decreases n - i,
    {
        out.push(v[start + i]);
        assert(out@ =~= v@.subrange(start as int, start + i + 1));
        i += 1;
    }
    out
}

/// What reading `buf0.len()` bytes of file inode `n` at `offset` gives:
/// the inode's error; `Unsupported` past the direct blocks; `Io` when a byte
/// lies beyond the disk; else the count that fits and the file's bytes in
/// front of the buffer, the rest of it unchanged.
pub open spec fn file_read_outcome(
    disk: Seq<u8>,
    sb: Superblock,
    n: u32,
    offset: int,
    buf0: Seq<u8>,
    r: Result<usize, Error>,
    buf1: Seq<u8>,
) -> bool {
    &&& buf1.len() == buf0.len()
    &&& inode_error(disk, sb, n) matches Some(k) ==> r == Err::<usize, Error>(Error { kind: k })
    &&& inode_error(disk, sb, n) is None ==> {
        let a = inode_addr(disk, sb, n);
        let cnt = read_count(file_size_at(disk, a), offset, buf0.len() as int);
        &&& (cnt > 0 && (offset + cnt - 1) / bsize(sb) >= NUM_DIRECT_BLOCKS) ==> r == Err::<usize, Error>(
            Error { kind: ErrorKind::Unsupported },
        )
        &&& !(cnt > 0 && (offset + cnt - 1) / bsize(sb) >= NUM_DIRECT_BLOCKS) ==> {
            &&& (forall|j: int| 0 <= j < cnt ==> #[trigger] file_byte_addr(disk, sb, a, offset + j) < disk.len())
                ==> r == Ok::<usize, Error>(cnt as usize)
            &&& r is Ok ==> r == Ok::<usize, Error>(cnt as usize)
            &&& r is Err ==> r == Err::<usize, Error>(Error { kind: ErrorKind::Io })
        }
        &&& r matches Ok(k) ==> offset + k <= file_size_at(disk, a) || k == 0
        &&& r matches Ok(k) ==> forall|j: int|
            0 <= j < buf0.len() ==> #[trigger] buf1[j] == if j < k {
                disk[file_byte_addr(disk, sb, a, offset + j)]
            } else {
                buf0[j]
            }
    }
}

/// What writing `data` into file inode `n` at `offset` gives, the file not
/// growing: errors as for a read; on success the count that fits, each byte
/// at its place unless a later one lands there too, the rest of the disk
/// unchanged.
pub open spec fn file_write_outcome(
    disk: Seq<u8>,
    sb: Superblock,
    n: u32,
    offset: int,
    data: Seq<u8>,
    r: Result<usize, Error>,
    disk1: Seq<u8>,
) -> bool {
    &&& inode_error(disk, sb, n) matches Some(k) ==> r == Err::<usize, Error>(Error { kind: k }) && disk1 == disk
    &&& inode_error(disk, sb, n) is None ==> {
        let a = inode_addr(disk, sb, n);
        let cnt = read_count(file_size_at(disk, a), offset, data.len() as int);
        &&& (cnt > 0 && (offset + cnt - 1) / bsize(sb) >= NUM_DIRECT_BLOCKS) ==> r == Err::<usize, Error>(
            Error { kind: ErrorKind::Unsupported },
        ) && disk1 == disk
        &&& !(cnt > 0 && (offset + cnt - 1) / bsize(sb) >= NUM_DIRECT_BLOCKS) ==> {
            &&& (forall|j: int| 0 <= j < cnt ==> #[trigger] file_byte_addr(disk, sb, a, offset + j) < disk.len())
                ==> r == Ok::<usize, Error>(cnt as usize)
            &&& r is Ok ==> r == Ok::<usize, Error>(cnt as usize)
            &&& r is Err ==> r == Err::<usize, Error>(Error { kind: ErrorKind::Io })
        }
        &&& r matches Ok(k) ==> offset + k <= file_size_at(disk, a) || k == 0
        &&& r is Ok ==> forall|j: int|
            0 <= j < cnt && (forall|j2: int| j < j2 < cnt ==> #[trigger] file_byte_addr(disk, sb, a, offset + j2)
                != file_byte_addr(disk, sb, a, offset + j)) ==> #[trigger] disk1[file_byte_addr(disk, sb, a, offset + j)]
                == data[j]
        &&& r is Ok ==> forall|q: int|
            0 <= q < disk.len() && (forall|j: int| 0 <= j < cnt ==> #[trigger] file_byte_addr(disk, sb, a, offset + j) != q)
                ==> #[trigger] disk1[q] == disk[q]
    }
}

/// An ext2 file system on a block device.
pub struct Ext2 {
    pub fs: VirtioBlock,
    pub superblock: KByteBuf,
    pub sb: Superblock,
}

/// The block size of a file system, in bytes.
pub open spec fn bsize(sb: Superblock) -> int {
    block_size_of(sb.block_size_raw) as int
}

/// Where the descriptor of block group `g` lies.
pub open spec fn group_desc_addr(sb: Superblock, g: int) -> int {
    SUPERBLOCK_OFFSET + bsize(sb) + 32 * g
}

/// The first block of the inode table of inode `n`'s group.
pub open spec fn inode_table_block(disk: Seq<u8>, sb: Superblock, n: u32) -> u32 {
    le32(disk, group_desc_addr(sb, (n - 1) / sb.inodes_per_group as int) + 8)
}

/// Where inode `n` lies on the disk.
pub open spec fn inode_addr(disk: Seq<u8>, sb: Superblock, n: u32) -> int {
    inode_table_block(disk, sb, n) as int * bsize(sb) + ((n - 1) % sb.inodes_per_group as int)
        * sb.inode_size as int
}

/// Why inode `n` cannot be read, if it cannot.
pub open spec fn inode_error(disk: Seq<u8>, sb: Superblock, n: u32) -> Option<ErrorKind> {
    if sb.block_size_raw > MAX_BLOCK_SIZE_RAW {
        Some(ErrorKind::Unsupported)
    } else if n == 0 || (n - 1) / sb.inodes_per_group as int >= div_ceil(
        sb.block_count as int,
        sb.blocks_per_group as int,
    ) {
        Some(ErrorKind::NotFound)
    } else if group_desc_addr(sb, (n - 1) / sb.inodes_per_group as int) + 12 > disk.len() {
        Some(ErrorKind::Io)
    } else if inode_addr(disk, sb, n) + INODE_LEN > disk.len() {
        Some(ErrorKind::Io)
    } else {
        None
    }
}

/// The fields of an inode that the kernel uses.
pub struct Inode {
    pub type_and_permissions: u16,
    pub size_lower: u32,
    pub size_upper: u32,
    pub direct_block_pointers: Vec<u32>,
}

/// Whether `i` holds the fields of the inode whose bytes start at `a`.
pub open spec fn inode_at(i: Inode, disk: Seq<u8>, a: int) -> bool {
    &&& i.type_and_permissions == le16(disk, a)
    &&& i.size_lower == le32(disk, a + 4)
    &&& i.size_upper == le32(disk, a + 108)
    &&& i.direct_block_pointers@.len() == NUM_DIRECT_BLOCKS
    &&& forall|k: int|
        0 <= k < NUM_DIRECT_BLOCKS ==> #[trigger] i.direct_block_pointers@[k] == le32(
            disk,
            a + 40 + 4 * k,
        )
}

/// The kinds of inode.
#[derive(Clone, Copy, Debug, PartialEq, Eq, Structural)]
pub enum InodeType {
    Fifo,
    CharacterDevice,
    Directory,
    BlockDevice,
    RegularFile,
    SymbolicLink,
    UnixSocket,
}

impl Inode {
    /// The file size: the lower and upper 32 bits.
    pub fn file_size(&self) -> (r: u64)
        ensures
            r == self.size_lower as int + self.size_upper as int * 0x1_0000_0000,
    {
        let r = self.size_lower as u64 | ((self.size_upper as u64) << 32u64);
        proof {
            let lo = self.size_lower as u64;
            let hi = self.size_upper as u64;
            assert(lo | (hi << 32u64) == lo + hi * 0x1_0000_0000u64) by (bit_vector)
                requires lo <= 0xffff_ffffu64, hi <= 0xffff_ffffu64,
            ;
        }
        r
    }

    /// The kind of the inode from the top four bits of its mode; `None` for a
    /// value that names no kind.
    pub fn inode_type(&self) -> (r: Option<InodeType>)
        ensures
            (self.type_and_permissions >> 12u16) & 0xf == 4 <==> r == Some(InodeType::Directory),
            (self.type_and_permissions >> 12u16) & 0xf == 8 <==> r == Some(InodeType::RegularFile),
    {
        match (self.type_and_permissions >> 12u16) & 0xf {
            1 => Some(InodeType::Fifo),
            2 => Some(InodeType::CharacterDevice),
            4 => Some(InodeType::Directory),
            6 => Some(InodeType::BlockDevice),
            8 => Some(InodeType::RegularFile),
            10 => Some(InodeType::SymbolicLink),
            12 => Some(InodeType::UnixSocket),
            _ => None,
        }
    }
}

impl Ext2 {
    /// The disk's contents.
    pub open spec fn disk(&self) -> Seq<u8> {
        self.fs.disk()
    }

    /// A mounted file system: the superblock as read at mount time, valid.
    pub open spec fn wf(&self) -> bool {
        &&& self.fs.wf()
        &&& self.disk().len() >= SUPERBLOCK_OFFSET + SUPERBLOCK_LEN
        &&& self.disk().len() <= u64::MAX
        &&& self.sb == superblock_of(self.superblock.buf@)
        &&& self.sb.valid()
    }

    /// The `len` bytes at byte `addr` of the disk, read sector by sector.
    fn read_bytes(fs: &mut VirtioBlock, addr: u64, len: usize) -> (r: Result<Vec<u8>, Error>)
        requires
            old(fs).wf(),
            addr + len <= u64::MAX,
        ensures
            final(fs).wf(),
            final(fs).disk() == old(fs).disk(),
            final(fs).virtio.regs.capacity == old(fs).virtio.regs.capacity,
            addr + len <= old(fs).disk().len() ==> (r matches Ok(v) && v@ == old(
                fs,
            ).disk().subrange(addr as int, addr + len)),
            len == 0 ==> (r matches Ok(v) && v@.len() == 0),
            !(len == 0 || addr + len <= old(fs).disk().len()) ==> r == Err::<Vec<u8>, Error>(
                Error { kind: ErrorKind::Io },
            ),
    {
        let ghost disk = fs.disk();
        let mut out: Vec<u8> = Vec::new();
        let mut pos: u64 = addr;
        let mut sector_buf: Vec<u8> = Vec::new();
        let mut k: usize = 0;
        while k < BLOCK_SECTOR_LEN
            invariant
                k <= BLOCK_SECTOR_LEN,
                sector_buf@.len() == k,
            decreases BLOCK_SECTOR_LEN - k,
        {
            sector_buf.push(0);
            k += 1;
        }
        let mut failed = false;
        while out.len() < len && !failed
            invariant
                failed ==> addr + len > disk.len() && out@.len() < len,
                fs.wf(),
                fs.disk() == disk,
                fs.virtio.regs.capacity == old(fs).virtio.regs.capacity,
                disk.len() == fs.virtio.regs.capacity * 512,
                sector_buf@.len() == BLOCK_SECTOR_LEN,
                addr + len <= u64::MAX,
                out@.len() <= len,
                pos == addr + out@.len(),
                out@.len() > 0 ==> pos <= disk.len() && out@ == disk.subrange(addr as int, pos as int),
            decreases len - out@.len() + if failed { 0int } else { 1int },
        {
            let sector = pos / 512;
            let off = (pos % 512) as usize;
            let ghost out0 = out@;
            let res = fs.read_sector(&mut sector_buf, sector);
            if res.is_err() {
                proof {
                    assert(sector >= fs.virtio.regs.capacity);
                    assert(pos >= disk.len()) by (nonlinear_arith)
                        requires sector == pos / 512, sector >= fs.virtio.regs.capacity, disk.len() == fs.virtio.regs.capacity * 512,
                    ;
                }
                failed = true;
            } else {
            let avail = BLOCK_SECTOR_LEN - off;
            let want = len - out.len();
            let take = if avail < want { avail } else { want };
            proof {
                assert(sector * 512 + off == pos) by {
                    vstd::arithmetic::div_mod::lemma_fundamental_div_mod(pos as int, 512);
                }
                assert((sector + 1) * 512 <= disk.len()) by (nonlinear_arith)
                    requires sector < fs.virtio.regs.capacity, disk.len() == fs.virtio.regs.capacity * 512,
                ;
                if out0.len() == 0 {
                    assert(disk.subrange(addr as int, pos as int) =~= out0);
                }
            }
            let mut i: usize = 0;
            while i < take
                invariant
                    take <= avail,
                    avail == BLOCK_SECTOR_LEN - off,
                    off < BLOCK_SECTOR_LEN,
                    sector_buf@ == sector_of(disk, sector as int),
                    sector * 512 + off == pos,
                    (sector + 1) * 512 <= disk.len(),
                    i <= take,
                    out0 == disk.subrange(addr as int, pos as int),
                    out@ == out0 + disk.subrange(pos as int, pos + i),
                decreases take - i,
            {
                out.push(sector_buf[off + i]);
                proof {
                    assert(sector_buf@[off + i] == disk[pos + i]);
                    assert(out@ =~= out0 + disk.subrange(pos as int, pos + i + 1));
                }
                i += 1;
            }
            proof {
                assert(out@ =~= disk.subrange(addr as int, pos + take));
            }
            pos = pos + take as u64;
            }
        }
        if failed {
            return Err(Error { kind: ErrorKind::Io });
        }
        Ok(out)
    }

    /// Mount the file system on `fs`: read the superblock and check it.
    pub fn new(fs: VirtioBlock) -> (r: Result<Ext2, Error>)
        requires
            fs.wf(),
            fs.disk().len() <= u64::MAX,
        ensures
            fs.disk().len() < SUPERBLOCK_OFFSET + SUPERBLOCK_LEN ==> r == Err::<Ext2, Error>(
                Error { kind: ErrorKind::Io },
            ),
            fs.disk().len() >= SUPERBLOCK_OFFSET + SUPERBLOCK_LEN ==> {
                let sb = superblock_of(fs.disk().subrange(1024, 2048));
                &&& sb.validity() is Ok ==> (r matches Ok(e) && e.wf() && e.disk() == fs.disk()
                    && e.sb == sb && e.superblock.buf@ == fs.disk().subrange(1024, 2048))
                &&& sb.validity() matches Err(k) ==> r == Err::<Ext2, Error>(Error { kind: k })
            },
    {
        let mut fs = fs;
        let bytes = match Ext2::read_bytes(&mut fs, SUPERBLOCK_OFFSET, SUPERBLOCK_LEN) {
            Ok(b) => b,
            Err(e) => {
                return Err(e);
            },
        };
        let sb = Superblock::parse(bytes.as_slice());
        match sb.check_validity() {
            Ok(()) => {},
            Err(e) => {
                return Err(e);
            },
        }
        Ok(Ext2 { fs, superblock: KByteBuf { buf: bytes }, sb })
    }

    /// Read inode `n`.
    pub fn inode(&mut self, n: u32) -> (r: Result<Inode, Error>)
        requires
            old(self).wf(),
        ensures
            final(self).wf(),
            final(self).disk() == old(self).disk(),
            final(self).sb == old(self).sb,
            inode_error(old(self).disk(), old(self).sb, n) matches Some(k) ==> r == Err::<Inode, Error>(
                Error { kind: k },
            ),
            inode_error(old(self).disk(), old(self).sb, n) is None ==> (r matches Ok(i) && inode_at(
                i,
                old(self).disk(),
                inode_addr(old(self).disk(), old(self).sb, n),
            )),
    {
        let ghost disk = self.disk();
        let sb = self.sb;
        if sb.block_size_raw > MAX_BLOCK_SIZE_RAW {
            return Err(Error { kind: ErrorKind::Unsupported });
        }
        if n == 0 {
            return Err(Error { kind: ErrorKind::NotFound });
        }
        let g = (n - 1) / sb.inodes_per_group;
        if g as u64 >= sb.num_block_groups() {
            return Err(Error { kind: ErrorKind::NotFound });
        }
        let bs = sb.block_size();
        let desc_addr = SUPERBLOCK_OFFSET + bs + 32 * (g as u64);
        let desc = match Ext2::read_bytes(&mut self.fs, desc_addr, 12) {
            Ok(d) => d,
            Err(e) => {
                return Err(e);
            },
        };
        let table = read_u32(desc.as_slice(), 8);
        proof {
            assert(table == le32(disk, desc_addr + 8)) by {
                assert(desc@[8] == disk[desc_addr + 8]);
                assert(desc@[9] == disk[desc_addr + 9]);
                assert(desc@[10] == disk[desc_addr + 10]);
                assert(desc@[11] == disk[desc_addr + 11]);
            }
        }
        let local = (n - 1) % sb.inodes_per_group;
        assert(table as u64 * bs <= 0xffff_ffff * 65536) by (nonlinear_arith)
            requires bs <= 65536,
        ;
        assert(local as u64 * sb.inode_size as u64 <= 0xffff_ffff * 65535) by (nonlinear_arith)
            requires local <= 0xffff_ffffu32, sb.inode_size <= 65535,
        ;
        let addr = table as u64 * bs + local as u64 * sb.inode_size as u64;
        let raw = match Ext2::read_bytes(&mut self.fs, addr, INODE_LEN) {
            Ok(b) => b,
            Err(e) => {
                return Err(e);
            },
        };
        let s = raw.as_slice();
        let mut ptrs: Vec<u32> = Vec::new();
        let mut k: usize = 0;
        while k < NUM_DIRECT_BLOCKS
            invariant
                k <= NUM_DIRECT_BLOCKS,
                s@.len() == INODE_LEN,
                addr + INODE_LEN <= disk.len(),
                s@ == disk.subrange(addr as int, addr + INODE_LEN),
                ptrs@.len() == k,
                forall|q: int| 0 <= q < k ==> #[trigger] ptrs@[q] == le32(disk, addr + 40 + 4 * q),
            decreases NUM_DIRECT_BLOCKS - k,
        {
            let v = read_u32(s, 40 + 4 * k);
            proof {
                assert(le32(s@, 40 + 4 * k) == le32(disk, addr + 40 + 4 * k)) by {
                    assert(s@[40 + 4 * k] == disk[addr + 40 + 4 * k]);
                    assert(s@[40 + 4 * k + 1] == disk[addr + 40 + 4 * k + 1]);
                    assert(s@[40 + 4 * k + 2] == disk[addr + 40 + 4 * k + 2]);
                    assert(s@[40 + 4 * k + 3] == disk[addr + 40 + 4 * k + 3]);
                }
            }
            ptrs.push(v);
            k += 1;
        }
        let mode = read_u16(s, 0);
        let lo = read_u32(s, 4);
        let hi = read_u32(s, 108);
        proof {
            assert(s@[0] == disk[addr + 0]);
            assert(s@[1] == disk[addr + 1]);
            assert(s@[4] == disk[addr + 4]);
            assert(s@[5] == disk[addr + 5]);
            assert(s@[6] == disk[addr + 6]);
            assert(s@[7] == disk[addr + 7]);
            assert(s@[108] == disk[addr + 108]);
            assert(s@[109] == disk[addr + 109]);
            assert(s@[110] == disk[addr + 110]);
            assert(s@[111] == disk[addr + 111]);
        }
        Ok(Inode { type_and_permissions: mode, size_lower: lo, size_upper: hi, direct_block_pointers: ptrs })
    }

    /// The entries of directory inode `n`; only single-block directories of
    /// 1,024 bytes are supported.
    pub fn read_dir(&mut self, n: u32) -> (r: Result<DirectoryEntryIter, Error>)
        requires
            old(self).wf(),
        ensures
            final(self).wf(),
            final(self).disk() == old(self).disk(),
            final(self).sb == old(self).sb,
            dir_block(old(self).disk(), old(self).sb, n) matches Ok(b) ==> (r matches Ok(it) && it.buf.buf@
                == b && it.idx == 0),
            dir_block(old(self).disk(), old(self).sb, n) matches Err(k) ==> r == Err::<
                DirectoryEntryIter,
                Error,
            >(Error { kind: k }),
    {
        let inode = match self.inode(n) {
            Ok(i) => i,
            Err(e) => {
                return Err(e);
            },
        };
        if inode.size_lower != 1024 {
            return Err(Error { kind: ErrorKind::Unsupported });
        }
        let bs = self.sb.block_size();
        let ptr = inode.direct_block_pointers[0];
        assert(ptr as u64 * bs <= 0xffff_ffff * 65536) by (nonlinear_arith)
            requires bs <= 65536,
        ;
        match Ext2::read_bytes(&mut self.fs, ptr as u64 * bs, bs as usize) {
            Ok(b) => Ok(DirectoryEntryIter { buf: KByteBuf { buf: b }, idx: 0 }),
            Err(e) => Err(e),
        }
    }

    /// The inode that `path_parts` leads to from the root directory, one
    /// directory entry at a time.
    pub fn lookup_path(&mut self, path_parts: &Vec<Vec<u8>>) -> (r: Result<u32, Error>)
        requires
            old(self).wf(),
        ensures
            final(self).wf(),
            final(self).disk() == old(self).disk(),
            final(self).sb == old(self).sb,
            walk_path(old(self).disk(), old(self).sb, ROOT_INODE, parts_view(path_parts@)) matches Ok(n)
                ==> r == Ok::<u32, Error>(n),
            walk_path(old(self).disk(), old(self).sb, ROOT_INODE, parts_view(path_parts@)) matches Err(k)
                ==> r == Err::<u32, Error>(Error { kind: k }),
    {
        let ghost parts = parts_view(path_parts@);
        let ghost disk = self.disk();
        let mut inode_num: u32 = ROOT_INODE;
        let mut err: Option<Error> = None;
        let mut i: usize = 0;
        assert(parts.subrange(0, parts.len() as int) =~= parts);
        while i < path_parts.len() && err.is_none()
            invariant
                self.wf(),
                self.disk() == disk,
                self.sb == old(self).sb,
                parts == parts_view(path_parts@),
                i <= path_parts@.len(),
                err is None ==> walk_path(disk, self.sb, ROOT_INODE, parts) == walk_path(
                    disk,
                    self.sb,
                    inode_num,
                    parts.subrange(i as int, parts.len() as int),
                ),
                err matches Some(e) ==> walk_path(disk, self.sb, ROOT_INODE, parts) == Err::<u32, ErrorKind>(e.kind),
            decreases path_parts@.len() - i + if err is None { 1int } else { 0int },
        {
            let ghost rest = parts.subrange(i as int, parts.len() as int);
            assert(rest[0] == path_parts@[i as int]@);
            assert(rest.drop_first() =~= parts.subrange(i + 1, parts.len() as int));
            match self.read_dir(inode_num) {
                Ok(mut it) => {
                    match it.find_for_name(path_parts[i].as_slice()) {
                        Some(h) => {
                            inode_num = h.inode_num;
                            i += 1;
                        },
                        None => {
                            err = Some(Error { kind: ErrorKind::NotFound });
                        },
                    }
                },
                Err(e) => {
                    err = Some(e);
                },
            }
        }
        match err {
            Some(e) => Err(e),
            None => {
                assert(parts.subrange(i as int, parts.len() as int).len() == 0);
                Ok(inode_num)
            },
        }
    }

    /// Read from file inode `n` at byte `offset` into `buf`, as much as fits
    /// and the file holds; only the direct block pointers are followed.
    pub fn read_file_from_offset(&mut self, n: u32, offset: u64, buf: &mut Vec<u8>) -> (r: Result<usize, Error>)
        requires
            old(self).wf(),
        ensures
            final(self).wf(),
            final(self).disk() == old(self).disk(),
            final(self).sb == old(self).sb,
            final(buf)@.len() == old(buf)@.len(),
            file_read_outcome(old(self).disk(), old(self).sb, n, offset as int, old(buf)@, r, final(buf)@),
    {
        let ghost disk = self.disk();
        let ghost sb = self.sb;
        let ghost a = inode_addr(disk, sb, n);
        let inode = match self.inode(n) {
            Ok(i) => i,
            Err(e) => {
                return Err(e);
            },
        };
        let size = inode.file_size();
        if offset >= size {
            return Ok(0);
        }
        let cnt: usize = if (buf.len() as u64) < size - offset { buf.len() } else { (size - offset) as usize };
        let bs = self.sb.block_size();
        if cnt > 0 && (offset + cnt as u64 - 1) / bs >= NUM_DIRECT_BLOCKS as u64 {
            return Err(Error { kind: ErrorKind::Unsupported });
        }
        let ghost b0 = buf@;
        let mut done: usize = 0;
        let mut failed = false;
        while done < cnt && !failed
            invariant
                self.wf(),
                self.disk() == disk,
                self.sb == sb,
                bs == bsize(sb),
                1024 <= bs <= 65536,
                inode_at(inode, disk, a),
                cnt == read_count(file_size_at(disk, a), offset as int, b0.len() as int),
                cnt <= b0.len(),
                offset + cnt <= u64::MAX,
                cnt > 0 ==> (offset + cnt - 1) / (bs as int) < NUM_DIRECT_BLOCKS,
                buf@.len() == b0.len(),
                done <= cnt,
                forall|j: int| 0 <= j < done ==> #[trigger] file_byte_addr(disk, sb, a, offset + j) < disk.len(),
                forall|j: int|
                    0 <= j < b0.len() ==> #[trigger] buf@[j] == if j < done {
                        disk[file_byte_addr(disk, sb, a, offset + j)]
                    } else {
                        b0[j]
                    },
                failed ==> exists|j: int| 0 <= j < cnt && #[trigger] file_byte_addr(disk, sb, a, offset + j) >= disk.len(),
            decreases cnt - done + if failed { 0int } else { 1int },
        {
            let pos = offset + done as u64;
            let blk = (pos / bs) as usize;
            let in_blk = pos % bs;
            let room = (bs - in_blk) as usize;
            let chunk = if room < cnt - done { room } else { cnt - done };
            proof {
                vstd::arithmetic::div_mod::lemma_div_is_ordered(pos as int, offset + cnt - 1, bs as int);
            }
            let ptr = inode.direct_block_pointers[blk];
            assert(ptr as u64 * bs <= 0xffff_ffff * 65536) by (nonlinear_arith)
                requires bs <= 65536,
            ;
            let addr = ptr as u64 * bs + in_blk;
            proof {
                assert forall|t: int| 0 <= t < chunk implies #[trigger] file_byte_addr(disk, sb, a, pos + t) == addr + t by {
                    lemma_in_block(pos as int, t, bs as int);
                }
            }
            match Ext2::read_bytes(&mut self.fs, addr, chunk) {
                Ok(bytes) => {
                    let ghost bb = buf@;
                    let mut t: usize = 0;
                    while t < chunk
                        invariant
                            bytes@ == disk.subrange(addr as int, addr + chunk),
                            addr + chunk <= disk.len(),
                            done + chunk <= cnt,
                            cnt <= b0.len(),
                            buf@.len() == b0.len(),
                            t <= chunk,
                            forall|q: int| 0 <= q < b0.len() ==> #[trigger] buf@[q] == if done <= q < done + t {
                                bytes@[q - done]
                            } else {
                                bb[q]
                            },
                        decreases chunk - t,
                    {
                        buf.set(done + t, bytes[t]);
                        t += 1;
                    }
                    proof {
                        assert forall|j: int| 0 <= j < done + chunk implies #[trigger] file_byte_addr(disk, sb, a, offset + j) < disk.len() by {
                            if j >= done {
                                assert(file_byte_addr(disk, sb, a, pos + (j - done)) == addr + (j - done));
                                assert(pos + (j - done) == offset + j);
                            }
                        }
                        assert forall|j: int| 0 <= j < b0.len() implies #[trigger] buf@[j] == if j < done + chunk {
                            disk[file_byte_addr(disk, sb, a, offset + j)]
                        } else {
                            b0[j]
                        } by {
                            if done <= j < done + chunk {
                                assert(file_byte_addr(disk, sb, a, pos + (j - done)) == addr + (j - done));
                                assert(pos + (j - done) == offset + j);
                                assert(bytes@[j - done] == disk[addr + (j - done)]);
                            }
                        }
                    }
                    done = done + chunk;
                },
                Err(_) => {
                    proof {
                        let j = done + chunk - 1;
                        assert(file_byte_addr(disk, sb, a, pos + (chunk - 1)) == addr + (chunk - 1));
                        assert(file_byte_addr(disk, sb, a, offset + j) >= disk.len());
                    }
                    failed = true;
                },
            }
        }
        if failed {
            return Err(Error { kind: ErrorKind::Io });
        }
        Ok(cnt)
    }

    /// Write `data` at byte `addr` of the disk, sector by sector; nothing is
    /// written unless all of it fits on the disk.
    fn write_bytes(fs: &mut VirtioBlock, addr: u64, data: &[u8]) -> (r: Result<(), Error>)
        requires
            old(fs).wf(),
            old(fs).disk().len() <= u64::MAX,
            addr + data@.len() <= u64::MAX,
        ensures
            final(fs).wf(),
            final(fs).virtio.regs.capacity == old(fs).virtio.regs.capacity,
            addr + data@.len() <= old(fs).disk().len() ==> r is Ok && final(fs).disk() == patched(
                old(fs).disk(),
                addr as int,
                data@,
            ),
            !(addr + data@.len() <= old(fs).disk().len()) ==> r == Err::<(), Error>(Error { kind: ErrorKind::Io })
                && final(fs).disk() == old(fs).disk(),
    {
        let ghost disk0 = fs.disk();
        let cap = fs.capacity();
        let len = data.len();
        if cap > u64::MAX / 512 || addr + len as u64 > cap * 512 {
            return Err(Error { kind: ErrorKind::Io });
        }
        let mut sector_buf: Vec<u8> = Vec::new();
        let mut k: usize = 0;
        while k < BLOCK_SECTOR_LEN
            invariant
                k <= BLOCK_SECTOR_LEN,
                sector_buf@.len() == k,
            decreases BLOCK_SECTOR_LEN - k,
        {
            sector_buf.push(0);
            k += 1;
        }
        let mut done: usize = 0;
        assert(patched(disk0, addr as int, data@.subrange(0, 0)) =~= disk0);
        while done < len
            invariant
                fs.wf(),
                fs.virtio.regs.capacity == cap,
                disk0.len() == cap * 512,
                addr + len <= cap * 512,
                cap * 512 <= u64::MAX,
                len == data@.len(),
                done <= len,
                sector_buf@.len() == BLOCK_SECTOR_LEN,
                fs.disk() == patched(disk0, addr as int, data@.subrange(0, done as int)),
            decreases len - done,
        {
            let pos = addr + done as u64;
            let sector = pos / 512;
            let off = (pos % 512) as usize;
            let avail = BLOCK_SECTOR_LEN - off;
            let want = len - done;
            let take = if avail < want { avail } else { want };
            proof {
                vstd::arithmetic::div_mod::lemma_fundamental_div_mod(pos as int, 512);
                assert(sector < cap) by (nonlinear_arith)
                    requires sector == pos / 512, pos < cap * 512,
                ;
            }
            let ghost d1 = fs.disk();
            let _ = fs.read_sector(&mut sector_buf, sector);
            let ghost sb0 = sector_buf@;
            let mut i: usize = 0;
            while i < take
                invariant
                    take <= avail,
                    avail == BLOCK_SECTOR_LEN - off,
                    done + take <= len,
                    len == data@.len(),
                    sector_buf@.len() == BLOCK_SECTOR_LEN,
                    sb0.len() == BLOCK_SECTOR_LEN,
                    i <= take,
                    forall|q: int| 0 <= q < BLOCK_SECTOR_LEN ==> #[trigger] sector_buf@[q] == if off <= q < off + i {
                        data@[done + q - off]
                    } else {
                        sb0[q]
                    },
                decreases take - i,
            {
                sector_buf.set(off + i, data[done + i]);
                i += 1;
            }
            let _ = fs.write_sector(&sector_buf, sector);
            proof {
                assert(sector * 512 + off == pos);
                assert(fs.disk() =~= patched(disk0, addr as int, data@.subrange(0, done + take))) by {
                    assert forall|q: int| 0 <= q < disk0.len() implies #[trigger] fs.disk()[q] == patched(disk0, addr as int, data@.subrange(0, done + take))[q] by {
                        if sector * 512 <= q < sector * 512 + 512 {
                            assert(sb0 == sector_of(d1, sector as int));
                            assert(sb0[q - sector * 512] == d1[q]);
                        }
                    }
                }
            }
            done = done + take;
        }
        assert(data@.subrange(0, len as int) =~= data@);
        Ok(())
    }

    /// Write `data` into file inode `n` at byte `offset`, as much as the
    /// file already holds there: files do not grow. Only the direct block
    /// pointers are followed.
    pub fn write_file_from_offset(&mut self, n: u32, offset: u64, data: &[u8]) -> (r: Result<usize, Error>)
        requires
            old(self).wf(),
        ensures
            final(self).wf(),
            final(self).sb == old(self).sb,
            file_write_outcome(old(self).disk(), old(self).sb, n, offset as int, data@, r, final(self).disk()),
    {
        let ghost disk = self.disk();
        let ghost sb = self.sb;
        let ghost a = inode_addr(disk, sb, n);
        let inode = match self.inode(n) {
            Ok(i) => i,
            Err(e) => {
                return Err(e);
            },
        };
        let size = inode.file_size();
        if offset >= size {
            return Ok(0);
        }
        let cnt: usize = if (data.len() as u64) < size - offset { data.len() } else { (size - offset) as usize };
        let bs = self.sb.block_size();
        if cnt > 0 && (offset + cnt as u64 - 1) / bs >= NUM_DIRECT_BLOCKS as u64 {
            return Err(Error { kind: ErrorKind::Unsupported });
        }
        let mut done: usize = 0;
        let mut failed = false;
        while done < cnt && !failed
            invariant
                self.wf(),
                self.sb == sb,
                self.disk().len() == disk.len(),
                bs == bsize(sb),
                1024 <= bs <= 65536,
                inode_at(inode, disk, a),
                cnt == read_count(file_size_at(disk, a), offset as int, data@.len() as int),
                cnt <= data@.len(),
                offset + cnt <= u64::MAX,
                cnt > 0 ==> (offset + cnt - 1) / (bs as int) < NUM_DIRECT_BLOCKS,
                done <= cnt,
                forall|j: int| 0 <= j < done ==> #[trigger] file_byte_addr(disk, sb, a, offset + j) < disk.len(),
                forall|j: int|
                    0 <= j < done && (forall|j2: int| j < j2 < done ==> #[trigger] file_byte_addr(disk, sb, a, offset + j2)
                        != file_byte_addr(disk, sb, a, offset + j)) ==> #[trigger] self.disk()[file_byte_addr(disk, sb, a, offset + j)] == data@[j],
                forall|q: int|
                    0 <= q < disk.len() && (forall|j: int| 0 <= j < done ==> #[trigger] file_byte_addr(disk, sb, a, offset + j) != q)
                        ==> #[trigger] self.disk()[q] == disk[q],
                failed ==> exists|j: int| 0 <= j < cnt && #[trigger] file_byte_addr(disk, sb, a, offset + j) >= disk.len(),
            decreases cnt - done + if failed { 0int } else { 1int },
        {
            let pos = offset + done as u64;
            let blk = (pos / bs) as usize;
            let in_blk = pos % bs;
            let room = (bs - in_blk) as usize;
            let chunk = if room < cnt - done { room } else { cnt - done };
            proof {
                vstd::arithmetic::div_mod::lemma_div_is_ordered(pos as int, offset + cnt - 1, bs as int);
            }
            let ptr = inode.direct_block_pointers[blk];
            assert(ptr as u64 * bs <= 0xffff_ffff * 65536) by (nonlinear_arith)
                requires bs <= 65536,
            ;
            let addr = ptr as u64 * bs + in_blk;
            proof {
                assert forall|t: int| 0 <= t < chunk implies #[trigger] file_byte_addr(disk, sb, a, pos + t) == addr + t by {
                    lemma_in_block(pos as int, t, bs as int);
                }
            }
            let piece = copy_range(data, done, chunk);
            let ghost dcur = self.disk();
            match Ext2::write_bytes(&mut self.fs, addr, piece.as_slice()) {
                Ok(()) => {
                    proof {
                        let dn = self.disk();
                        assert(dn == patched(dcur, addr as int, piece@));
                        assert forall|j: int| 0 <= j < done + chunk implies #[trigger] file_byte_addr(disk, sb, a, offset + j) < disk.len() by {
                            if j >= done {
                                assert(file_byte_addr(disk, sb, a, pos + (j - done)) == addr + (j - done));
                                assert(pos + (j - done) == offset + j);
                            }
                        }
                        assert forall|j: int|
                            0 <= j < done + chunk && (forall|j2: int| j < j2 < done + chunk ==> #[trigger] file_byte_addr(disk, sb, a, offset + j2)
                                != file_byte_addr(disk, sb, a, offset + j)) implies #[trigger] dn[file_byte_addr(disk, sb, a, offset + j)] == data@[j] by {
                            if j >= done {
                                assert(file_byte_addr(disk, sb, a, pos + (j - done)) == addr + (j - done));
                                assert(pos + (j - done) == offset + j);
                            } else {
                                let x = file_byte_addr(disk, sb, a, offset + j);
                                if addr <= x < addr + chunk {
                                    let j2 = done + (x - addr);
                                    assert(file_byte_addr(disk, sb, a, pos + (x - addr)) == addr + (x - addr));
                                    assert(pos + (x - addr) == offset + j2);
                                    assert(file_byte_addr(disk, sb, a, offset + j2) != x);
                                }
                                assert(forall|j2: int| j < j2 < done ==> #[trigger] file_byte_addr(disk, sb, a, offset + j2)
                                    != file_byte_addr(disk, sb, a, offset + j));
                            }
                        }
                        assert forall|q: int|
                            0 <= q < disk.len() && (forall|j: int| 0 <= j < done + chunk ==> #[trigger] file_byte_addr(disk, sb, a, offset + j) != q)
                                implies #[trigger] dn[q] == disk[q] by {
                            if addr <= q < addr + chunk {
                                let j = done + (q - addr);
                                assert(file_byte_addr(disk, sb, a, pos + (q - addr)) == addr + (q - addr));
                                assert(pos + (q - addr) == offset + j);
                                assert(file_byte_addr(disk, sb, a, offset + j) != q);
                            }
                            assert(forall|j: int| 0 <= j < done ==> #[trigger] file_byte_addr(disk, sb, a, offset + j) != q);
                        }
                    }
                    done = done + chunk;
                },
                Err(_) => {
                    proof {
                        let j = done + chunk - 1;
                        assert(file_byte_addr(disk, sb, a, pos + (chunk - 1)) == addr + (chunk - 1));
                        assert(pos + (chunk - 1) == offset + j);
                        assert(file_byte_addr(disk, sb, a, offset + j) >= disk.len());
                    }
                    failed = true;
                },
            }
        }
        if failed {
            return Err(Error { kind: ErrorKind::Io });
        }
        Ok(cnt)
    }
}

/// Reading a whole file from offset 0 into a buffer at least as long as it
/// gets the file's length: every byte of it, through its block pointers.
pub proof fn lemma_read_whole_file(size: int, len: int)
    requires
        0 <= size <= len,
    ensures
        read_count(size, 0, len) == size,
{
}

} // verus!
