use vstd::prelude::*;

use crate::shared::ErrorKind;

verus! {

/// A kernel error, carrying the kind that user space sees.
#[derive(Clone, Copy, Debug, PartialEq, Eq, Structural)]
pub struct Error {
    pub kind: ErrorKind,
}

/// The one failure of the allocators.
#[derive(Clone, Copy, Debug, PartialEq, Eq, Structural)]
pub struct OutOfMemory;

impl From<ErrorKind> for Error {
    fn from(kind: ErrorKind) -> (r: Error)
        ensures
            r.kind == kind,
    {
        Error { kind }
    }
}

impl vstd::std_specs::convert::FromSpecImpl<ErrorKind> for Error {
    open spec fn obeys_from_spec() -> bool {
        true
    }

    open spec fn from_spec(kind: ErrorKind) -> Error {
        Error { kind }
    }
}

impl From<OutOfMemory> for Error {
    fn from(e: OutOfMemory) -> (r: Error)
        ensures
            r.kind == ErrorKind::OutOfMemory,
    {
        Error { kind: ErrorKind::OutOfMemory }
    }
}

impl vstd::std_specs::convert::FromSpecImpl<OutOfMemory> for Error {
    open spec fn obeys_from_spec() -> bool {
        true
    }

    open spec fn from_spec(e: OutOfMemory) -> Error {
        Error { kind: ErrorKind::OutOfMemory }
    }
}

} // verus!
