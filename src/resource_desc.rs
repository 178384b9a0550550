use vstd::prelude::*;

use crate::bitset::BitSet;
use crate::error::Error;
use crate::ext2::{file_read_outcome, file_write_outcome, Ext2};
use crate::shared::ErrorKind;

verus! {

pub const FILE_PRESENT: u32 = 1;
pub const FILE_READABLE: u32 = 2;
pub const FILE_WRITABLE: u32 = 4;

/// The state bits of an open file: Present, Readable, Writable.
#[derive(Clone, Copy, Debug, PartialEq, Eq, Structural)]
pub struct FileFlags {
    pub bits: u32,
}

impl BitSet for FileFlags {
    type Repr = u32;

    fn as_inner(&self) -> &u32 {
        &self.bits
    }

    fn as_inner_mut(&mut self) -> &mut u32 {
        &mut self.bits
    }
}

/// An open file: its flags, its inode and the position of the next access.
#[derive(Clone, Copy, Debug, PartialEq, Eq, Structural)]
pub struct FileResourceDescriptionData {
    pub flags: FileFlags,
    pub inode_num: u32,
    pub offset: u64,
}

/// Which operations a description carries.
#[derive(Clone, Copy, Debug, PartialEq, Eq, Structural)]
pub enum ResourceKind {
    File,
    ConsoleIn,
    ConsoleOut,
}

/// What a description holds besides its operations.
#[derive(Clone, Copy, Debug, PartialEq, Eq, Structural)]
pub enum ResourceDescriptionData {
    File(FileResourceDescriptionData),
    Null,
}

/// The firmware console as the kernel sees it: bytes typed and not yet
/// read, and bytes written and not yet shown.
pub struct Console {
    pub input: Vec<u8>,
    pub output: Vec<u8>,
}

/// Whether `b` is a continuation byte, `80..BF`.
pub open spec fn cont(b: u8) -> bool {
    0x80 <= b <= 0xbf
}

/// Whether `s[i..]` is well-formed UTF-8: each character is one of the byte
/// sequences of the Unicode Standard's table of well-formed UTF-8 (no
/// overlong forms, no surrogates, nothing above U+10FFFF).
pub open spec fn utf8_from(s: Seq<u8>, i: int) -> bool
    decreases s.len() - i,
{
    if i < 0 || i >= s.len() {
        true
    } else {
        let b = s[i];
        if b <= 0x7f {
            utf8_from(s, i + 1)
        } else if 0xc2 <= b <= 0xdf {
            i + 1 < s.len() && cont(s[i + 1]) && utf8_from(s, i + 2)
        } else if 0xe0 <= b <= 0xef {
            i + 2 < s.len() && (if b == 0xe0 {
                0xa0 <= s[i + 1] <= 0xbf
            } else if b == 0xed {
                0x80 <= s[i + 1] <= 0x9f
            } else {
                cont(s[i + 1])
            }) && cont(s[i + 2]) && utf8_from(s, i + 3)
        } else if 0xf0 <= b <= 0xf4 {
            i + 3 < s.len() && (if b == 0xf0 {
                0x90 <= s[i + 1] <= 0xbf
            } else if b == 0xf4 {
                0x80 <= s[i + 1] <= 0x8f
            } else {
                cont(s[i + 1])
            }) && cont(s[i + 2]) && cont(s[i + 3]) && utf8_from(s, i + 4)
        } else {
            false
        }
    }
}

/// Whether the bytes are well-formed UTF-8.
pub open spec fn is_utf8(b: Seq<u8>) -> bool {
    utf8_from(b, 0)
}

/// Whether `b` is well-formed UTF-8, one character at a time.
pub fn utf8_valid(b: &[u8]) -> (r: bool)
    ensures
        r == is_utf8(b@),
{
    let n = b.len();
    let mut i: usize = 0;
    while i < n
        invariant
            n == b@.len(),
            i <= n,
            is_utf8(b@) == utf8_from(b@, i as int),
        decreases n - i,
    {
        let c = b[i];
        if c <= 0x7f {
            i += 1;
        } else if 0xc2 <= c && c <= 0xdf {
            if n - i <= 1 || !(0x80 <= b[i + 1] && b[i + 1] <= 0xbf) {
                return false;
            }
            i += 2;
        } else if 0xe0 <= c && c <= 0xef {
            if n - i <= 2 {
                return false;
            }
            let c1 = b[i + 1];
            let ok1 = if c == 0xe0 {
                0xa0 <= c1 && c1 <= 0xbf
            } else if c == 0xed {
                0x80 <= c1 && c1 <= 0x9f
            } else {
                0x80 <= c1 && c1 <= 0xbf
            };
            if !ok1 || !(0x80 <= b[i + 2] && b[i + 2] <= 0xbf) {
                return false;
            }
            i += 3;
        } else if 0xf0 <= c && c <= 0xf4 {
            if n - i <= 3 {
                return false;
            }
            let c1 = b[i + 1];
            let ok1 = if c == 0xf0 {
                0x90 <= c1 && c1 <= 0xbf
            } else if c == 0xf4 {
                0x80 <= c1 && c1 <= 0x8f
            } else {
                0x80 <= c1 && c1 <= 0xbf
            };
            if !ok1 || !(0x80 <= b[i + 2] && b[i + 2] <= 0xbf) || !(0x80 <= b[i + 3] && b[i + 3] <= 0xbf) {
                return false;
            }
            i += 4;
        } else {
            return false;
        }
    }
    true
}

/// What reading into a buffer of `b0` does to a description: a file that is
/// present and readable gives what the file system's read gives and moves
/// its offset by the count; otherwise `Unsupported`. The console's input
/// gives its next byte (nothing for an empty buffer); its output cannot be
/// read. Only a file read touches the file system, and then not its disk.
pub open spec fn desc_read_outcome(
    d0: ResourceDescription,
    s0: Option<Ext2>,
    in0: Seq<u8>,
    b0: Seq<u8>,
    r: Result<usize, Error>,
    d1: ResourceDescription,
    s1: Option<Ext2>,
    in1: Seq<u8>,
    b1: Seq<u8>,
) -> bool {
    &&& d1.vtable == d0.vtable
    &&& b1.len() == b0.len()
    &&& (s1 is Some) == (s0 is Some)
    &&& s1 matches Some(e) ==> e.disk() == s0->0.disk() && e.sb == s0->0.sb
    &&& r matches Ok(n) ==> n <= b0.len()
    &&& d0.vtable == ResourceKind::ConsoleOut ==> r == Err::<usize, Error>(Error { kind: ErrorKind::Unsupported })
        && in1 == in0 && d1 == d0
    &&& d0.vtable == ResourceKind::ConsoleIn ==> {
        &&& d1 == d0
        &&& b0.len() == 0 ==> r == Ok::<usize, Error>(0) && in1 == in0
        &&& b0.len() > 0 ==> {
            let k = console_take(in0, b0.len() as int);
            &&& r == Ok::<usize, Error>(k as usize)
            &&& in1 == in0.subrange(k, in0.len() as int)
            &&& forall|j: int| 0 <= j < b0.len() ==> #[trigger] b1[j] == if j < k { in0[j] } else { b0[j] }
        }
    }
    &&& d0.vtable == ResourceKind::File ==> in1 == in0
    &&& d0.data matches ResourceDescriptionData::File(f) ==> {
        &&& (f.flags.bits & (FILE_PRESENT | FILE_READABLE) != (FILE_PRESENT | FILE_READABLE) || s0 is None)
            ==> r == Err::<usize, Error>(Error { kind: ErrorKind::Unsupported }) && d1 == d0
        &&& (f.flags.bits & (FILE_PRESENT | FILE_READABLE) == (FILE_PRESENT | FILE_READABLE) && s0 is Some)
            ==> file_read_outcome(s0->0.disk(), s0->0.sb, f.inode_num, f.offset as int, b0, r, b1)
        &&& r matches Ok(n) ==> d1.data == ResourceDescriptionData::File(
            FileResourceDescriptionData { offset: (f.offset + n) as u64, ..f },
        )
        &&& r is Err ==> d1 == d0
    }
}

/// What writing `data` through a description does: a file that is present
/// and writable gets what the file system's write gives and moves its
/// offset by the count; otherwise `Unsupported`. The console's output takes
/// UTF-8 text and shows it, else `InvalidFormat`; its input cannot be
/// written.
pub open spec fn desc_write_outcome(
    d0: ResourceDescription,
    s0: Option<Ext2>,
    out0: Seq<u8>,
    data: Seq<u8>,
    r: Result<usize, Error>,
    d1: ResourceDescription,
    s1: Option<Ext2>,
    out1: Seq<u8>,
) -> bool {
    &&& d1.vtable == d0.vtable
    &&& (s1 is Some) == (s0 is Some)
    &&& s1 matches Some(e) ==> e.sb == s0->0.sb
    &&& r matches Ok(n) ==> n <= data.len()
    &&& d0.vtable != ResourceKind::File ==> s1 == s0 && d1 == d0
    &&& d0.vtable == ResourceKind::ConsoleOut && is_utf8(data) ==> r == Ok::<usize, Error>(data.len() as usize)
        && out1 == out0 + data
    &&& d0.vtable == ResourceKind::ConsoleOut && !is_utf8(data) ==> r == Err::<usize, Error>(
        Error { kind: ErrorKind::InvalidFormat },
    ) && out1 == out0
    &&& d0.vtable == ResourceKind::ConsoleIn ==> r == Err::<usize, Error>(Error { kind: ErrorKind::Unsupported })
        && out1 == out0
    &&& d0.vtable == ResourceKind::File ==> out1 == out0
    &&& d0.data matches ResourceDescriptionData::File(f) ==> {
        &&& (f.flags.bits & (FILE_PRESENT | FILE_WRITABLE) != (FILE_PRESENT | FILE_WRITABLE) || s0 is None)
            ==> r == Err::<usize, Error>(Error { kind: ErrorKind::Unsupported }) && d1 == d0 && s1 == s0
        &&& (f.flags.bits & (FILE_PRESENT | FILE_WRITABLE) == (FILE_PRESENT | FILE_WRITABLE) && s0 is Some)
            ==> file_write_outcome(s0->0.disk(), s0->0.sb, f.inode_num, f.offset as int, data, r, s1->0.disk())
        &&& r matches Ok(n) ==> d1.data == ResourceDescriptionData::File(
            FileResourceDescriptionData { offset: (f.offset + n) as u64, ..f },
        )
        &&& r is Err ==> d1 == d0
    }
}

/// The length of the UTF-8 sequence that starts with byte `b`; a byte that
/// starts none stands alone.
pub open spec fn utf8_seq_len(b: u8) -> int {
    if b < 0x80 {
        1
    } else if 0xc0 <= b < 0xe0 {
        2
    } else if 0xe0 <= b < 0xf0 {
        3
    } else if 0xf0 <= b < 0xf8 {
        4
    } else {
        1
    }
}

/// How many input bytes a console read into a buffer of `room` bytes takes:
/// the next character's whole encoding, as far as it has arrived and fits.
pub open spec fn console_take(input: Seq<u8>, room: int) -> int {
    let n = utf8_seq_len(input[0]);
    let n = if n < input.len() { n } else { input.len() as int };
    if n < room {
        n
    } else {
        room
    }
}

/// The length of the UTF-8 sequence that starts with `b`.
fn seq_len(b: u8) -> (r: usize)
    ensures
        r == utf8_seq_len(b),
{
    if b < 0x80 {
        1
    } else if 0xc0 <= b && b < 0xe0 {
        2
    } else if 0xe0 <= b && b < 0xf0 {
        3
    } else if 0xf0 <= b && b < 0xf8 {
        4
    } else {
        1
    }
}

/// An open resource: its operations and its data, which always agree.
pub struct ResourceDescription {
    pub vtable: ResourceKind,
    pub data: ResourceDescriptionData,
}

impl ResourceDescription {
    pub open spec fn wf(&self) -> bool {
        (self.vtable == ResourceKind::File) <==> (self.data is File)
    }

    /// A description of an open file.
    pub fn for_file(file_data: FileResourceDescriptionData) -> (r: ResourceDescription)
        ensures
            r.wf(),
            r.vtable == ResourceKind::File,
            r.data == ResourceDescriptionData::File(file_data),
    {
        ResourceDescription { vtable: ResourceKind::File, data: ResourceDescriptionData::File(file_data) }
    }

    /// A description of the console's input.
    pub fn for_console_in() -> (r: ResourceDescription)
        ensures
            r.wf(),
            r.vtable == ResourceKind::ConsoleIn,
    {
        ResourceDescription { vtable: ResourceKind::ConsoleIn, data: ResourceDescriptionData::Null }
    }

    /// A description of the console's output.
    pub fn for_console_out() -> (r: ResourceDescription)
        ensures
            r.wf(),
            r.vtable == ResourceKind::ConsoleOut,
    {
        ResourceDescription { vtable: ResourceKind::ConsoleOut, data: ResourceDescriptionData::Null }
    }

    /// Leave the description quiescent: a file's flags, offset and inode are
    /// cleared; the console needs nothing.
    pub fn close(&mut self)
        requires
            old(self).wf(),
        ensures
            final(self).wf(),
            final(self).vtable == old(self).vtable,
            old(self).vtable == ResourceKind::File ==> final(self).data == ResourceDescriptionData::File(
                FileResourceDescriptionData { flags: FileFlags { bits: 0 }, inode_num: 0, offset: 0 },
            ),
            old(self).vtable != ResourceKind::File ==> final(self).data == old(self).data,
    {
        match self.vtable {
            ResourceKind::File => {
                self.data = ResourceDescriptionData::File(
                    FileResourceDescriptionData { flags: FileFlags { bits: 0 }, inode_num: 0, offset: 0 },
                );
            },
            _ => {},
        }
    }

    /// Read into `buf`. A file must be present and readable; it is read at
    /// its offset, which then moves past what was read. The console's input
    /// gives its next byte, or nothing when none is waiting. The console's
    /// output cannot be read.
    pub fn read(&mut self, storage: &mut Option<Ext2>, console: &mut Console, buf: &mut Vec<u8>) -> (r: Result<usize, Error>)
        requires
            old(self).wf(),
            *old(storage) matches Some(e) ==> e.wf(),
            old(self).vtable == ResourceKind::ConsoleIn ==> old(console).input@.len() > 0 || old(buf)@.len() == 0,
        ensures
            final(self).wf(),
            *final(storage) matches Some(e) ==> e.wf(),
            desc_read_outcome(*old(self), *old(storage), old(console).input@, old(buf)@, r, *final(self), *final(storage), final(console).input@, final(buf)@),
            final(console).output@ == old(console).output@,
    {
        match self.vtable {
            ResourceKind::File => {
                let f = match self.data {
                    ResourceDescriptionData::File(f) => f,
                    ResourceDescriptionData::Null => {
                        return Err(Error { kind: ErrorKind::Unsupported });
                    },
                };
                if f.flags.bits & (FILE_PRESENT | FILE_READABLE) != (FILE_PRESENT | FILE_READABLE) {
                    return Err(Error { kind: ErrorKind::Unsupported });
                }
                match storage {
                    Some(fs) => {
                        match fs.read_file_from_offset(f.inode_num, f.offset, buf) {
                            Ok(n) => {
                                self.data = ResourceDescriptionData::File(
                                    FileResourceDescriptionData { offset: f.offset + n as u64, ..f },
                                );
                                Ok(n)
                            },
                            Err(e) => Err(e),
                        }
                    },
                    None => Err(Error { kind: ErrorKind::Unsupported }),
                }
            },
            ResourceKind::ConsoleIn => {
                if console.input.len() == 0 || buf.len() == 0 {
                    return Ok(0);
                }
                let want = seq_len(console.input[0]);
                let have = if want < console.input.len() { want } else { console.input.len() };
                let k = if have < buf.len() { have } else { buf.len() };
                let ghost b0 = buf@;
                let mut i: usize = 0;
                while i < k
                    invariant
                        k <= buf@.len(),
                        k <= console.input@.len(),
                        buf@.len() == b0.len(),
                        i <= k,
                        forall|j: int| 0 <= j < b0.len() ==> #[trigger] buf@[j] == if j < i { console.input@[j] } else { b0[j] },
                    decreases k - i,
                {
                    buf.set(i, console.input[i]);
                    i += 1;
                }
                let mut rest: Vec<u8> = Vec::new();
                let mut j: usize = k;
                while j < console.input.len()
                    invariant
                        k <= j <= console.input@.len(),
                        rest@ == console.input@.subrange(k as int, j as int),
                    decreases console.input@.len() - j,
                {
                    rest.push(console.input[j]);
                    assert(rest@ =~= console.input@.subrange(k as int, j + 1));
                    j += 1;
                }
                console.input = rest;
                Ok(k)
            },
            ResourceKind::ConsoleOut => Err(Error { kind: ErrorKind::Unsupported }),
        }
    }

    /// Write `buf`. A file must be present and writable; it is written at
    /// its offset, without growing, and the offset moves past what was
    /// written. The console's output takes UTF-8 text and shows it; the
    /// console's input cannot be written.
    pub fn write(&mut self, storage: &mut Option<Ext2>, console: &mut Console, buf: &[u8]) -> (r: Result<usize, Error>)
        requires
            old(self).wf(),
            *old(storage) matches Some(e) ==> e.wf(),
        ensures
            final(self).wf(),
            *final(storage) matches Some(e) ==> e.wf(),
            final(console).input@ == old(console).input@,
            desc_write_outcome(*old(self), *old(storage), old(console).output@, buf@, r, *final(self), *final(storage), final(console).output@),
    {
        match self.vtable {
            ResourceKind::File => {
                let f = match self.data {
                    ResourceDescriptionData::File(f) => f,
                    ResourceDescriptionData::Null => {
                        return Err(Error { kind: ErrorKind::Unsupported });
                    },
                };
                if f.flags.bits & (FILE_PRESENT | FILE_WRITABLE) != (FILE_PRESENT | FILE_WRITABLE) {
                    return Err(Error { kind: ErrorKind::Unsupported });
                }
                let res = match storage {
                    Some(fs) => fs.write_file_from_offset(f.inode_num, f.offset, buf),
                    None => Err(Error { kind: ErrorKind::Unsupported }),
                };
                match res {
                    Ok(n) => {
                        self.data = ResourceDescriptionData::File(
                            FileResourceDescriptionData { offset: f.offset + n as u64, ..f },
                        );
                        Ok(n)
                    },
                    Err(e) => Err(e),
                }
            },
            ResourceKind::ConsoleOut => {
                if !utf8_valid(buf) {
                    return Err(Error { kind: ErrorKind::InvalidFormat });
                }
                let ghost out0 = console.output@;
                let mut i: usize = 0;
                while i < buf.len()
                    invariant
                        i <= buf@.len(),
                        console.output@ == out0 + buf@.subrange(0, i as int),
                        console.input@ == old(console).input@,
                    decreases buf@.len() - i,
                {
                    console.output.push(buf[i]);
                    proof {
                        assert(console.output@ =~= out0 + buf@.subrange(0, i + 1));
                    }
                    i += 1;
                }
                assert(buf@.subrange(0, buf@.len() as int) =~= buf@);
                Ok(buf.len())
            },
            ResourceKind::ConsoleIn => Err(Error { kind: ErrorKind::Unsupported }),
        }
    }
}

} // verus!
