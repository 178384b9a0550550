use vstd::prelude::*;

use crate::bitset::BitSet;

verus! {

/// The syscalls that the kernel answers, by their number in `a0`.
#[derive(Clone, Copy, Debug, PartialEq, Eq, Structural)]
pub enum Syscall {
    PutChar,
    GetChar,
    GetPid,
    SchedYield,
    Exit,
    GetRandom,
    Open,
    Close,
    Read,
    Write,
    Mmap,
    Munmap,
}

impl Syscall {
    pub open spec fn spec_number(self) -> u32 {
        match self {
            Syscall::PutChar => 1,
            Syscall::GetChar => 2,
            Syscall::GetPid => 3,
            Syscall::SchedYield => 4,
            Syscall::Exit => 5,
            Syscall::GetRandom => 6,
            Syscall::Open => 7,
            Syscall::Close => 8,
            Syscall::Read => 9,
            Syscall::Write => 10,
            Syscall::Mmap => 11,
            Syscall::Munmap => 12,
        }
    }

    /// The wire number of this syscall.
    pub fn number(self) -> (r: u32)
        ensures
            r == self.spec_number(),
    {
        match self {
            Syscall::PutChar => 1,
            Syscall::GetChar => 2,
            Syscall::GetPid => 3,
            Syscall::SchedYield => 4,
            Syscall::Exit => 5,
            Syscall::GetRandom => 6,
            Syscall::Open => 7,
            Syscall::Close => 8,
            Syscall::Read => 9,
            Syscall::Write => 10,
            Syscall::Mmap => 11,
            Syscall::Munmap => 12,
        }
    }

    /// The syscall with the given wire number, if there is one.
    pub fn from_num(num: u32) -> (r: Option<Syscall>)
        ensures
            r matches Some(s) ==> s.spec_number() == num,
            r is None <==> (num == 0 || num > 12),
    {
        match num {
            1 => Some(Syscall::PutChar),
            2 => Some(Syscall::GetChar),
            3 => Some(Syscall::GetPid),
            4 => Some(Syscall::SchedYield),
            5 => Some(Syscall::Exit),
            6 => Some(Syscall::GetRandom),
            7 => Some(Syscall::Open),
            8 => Some(Syscall::Close),
            9 => Some(Syscall::Read),
            10 => Some(Syscall::Write),
            11 => Some(Syscall::Mmap),
            12 => Some(Syscall::Munmap),
            _ => None,
        }
    }
}

/// The kinds of error that a syscall reports in `a2`.
#[derive(Clone, Copy, Debug, PartialEq, Eq, Structural)]
pub enum ErrorKind {
    /// The system is out of memory.
    OutOfMemory,
    /// A device or disk failed.
    Io,
    /// The operation is not supported.
    Unsupported,
    /// Something that the operation names does not exist.
    NotFound,
    /// The data was not in the required format (a path that is not UTF-8).
    InvalidFormat,
    /// A resource limit was reached.
    LimitReached,
    /// A user pointer is unmapped or lacks the needed permissions.
    NotPermitted,
}

impl ErrorKind {
    pub open spec fn spec_code(self) -> u32 {
        match self {
            ErrorKind::OutOfMemory => 1,
            ErrorKind::Io => 2,
            ErrorKind::Unsupported => 3,
            ErrorKind::NotFound => 4,
            ErrorKind::InvalidFormat => 5,
            ErrorKind::LimitReached => 6,
            ErrorKind::NotPermitted => 7,
        }
    }

    /// The wire code of this error kind.
    pub fn code(self) -> (r: u32)
        ensures
            r == self.spec_code(),
    {
        match self {
            ErrorKind::OutOfMemory => 1,
            ErrorKind::Io => 2,
            ErrorKind::Unsupported => 3,
            ErrorKind::NotFound => 4,
            ErrorKind::InvalidFormat => 5,
            ErrorKind::LimitReached => 6,
            ErrorKind::NotPermitted => 7,
        }
    }

    /// The error kind with the given wire code, if there is one.
    pub fn from_num(num: u32) -> (r: Option<ErrorKind>)
        ensures
            r matches Some(k) ==> k.spec_code() == num,
            r is None <==> (num == 0 || num > 7),
    {
        match num {
            1 => Some(ErrorKind::OutOfMemory),
            2 => Some(ErrorKind::Io),
            3 => Some(ErrorKind::Unsupported),
            4 => Some(ErrorKind::NotFound),
            5 => Some(ErrorKind::InvalidFormat),
            6 => Some(ErrorKind::LimitReached),
            7 => Some(ErrorKind::NotPermitted),
            _ => None,
        }
    }
}

pub const OPEN_READ_ONLY: u32 = 1;
pub const OPEN_WRITE_ONLY: u32 = 2;
pub const OPEN_APPEND: u32 = 4;
pub const OPEN_MASK: u32 = 7;

/// Flags for opening a file: bit 0 read, bit 1 write, bit 2 append.
#[derive(Clone, Copy, Debug, PartialEq, Eq, Structural)]
pub struct FileOpenFlags {
    pub bits: u32,
}

impl FileOpenFlags {
    pub open spec fn wf(self) -> bool {
        self.bits & !OPEN_MASK == 0
    }

    /// The flags of a raw register value; unknown bits are dropped.
    pub fn from_bits(raw: u32) -> (r: FileOpenFlags)
        ensures
            r.bits == raw & OPEN_MASK,
            r.wf(),
    {
        assert((raw & 7u32) & !7u32 == 0) by (bit_vector);
        FileOpenFlags { bits: raw & OPEN_MASK }
    }

    pub fn read_only(self) -> (r: bool)
        ensures
            r == (self.bits & OPEN_READ_ONLY != 0),
    {
        self.bits & OPEN_READ_ONLY != 0
    }

    pub fn write_only(self) -> (r: bool)
        ensures
            r == (self.bits & OPEN_WRITE_ONLY != 0),
    {
        self.bits & OPEN_WRITE_ONLY != 0
    }

    pub fn append(self) -> (r: bool)
        ensures
            r == (self.bits & OPEN_APPEND != 0),
    {
        self.bits & OPEN_APPEND != 0
    }
}

impl BitSet for FileOpenFlags {
    type Repr = u32;

    fn as_inner(&self) -> &u32 {
        &self.bits
    }

    fn as_inner_mut(&mut self) -> &mut u32 {
        &mut self.bits
    }
}

} // verus!
