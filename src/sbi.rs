use vstd::prelude::*;

verus! {

/// The errors that SBI firmware reports in `a0`.
#[derive(Clone, Copy, Debug, PartialEq, Eq, Structural)]
pub enum Error {
    Failed,
    NotSupported,
    InvalidParameter,
    Denied,
    InvalidAddress,
    AlreadyAvailable,
    AlreadyStarted,
    AlreadyStopped,
    NoSharedMemory,
    InvalidState,
    BadRange,
    Timeout,
    Io,
    LockedOut,
    Other,
}

impl Error {
    pub open spec fn spec_for_reg_value(reg: i32) -> Option<Error> {
        if reg == 0 {
            None
        } else {
            Some(
                if reg == -1 {
                    Error::Failed
                } else if reg == -2 {
                    Error::NotSupported
                } else if reg == -3 {
                    Error::InvalidParameter
                } else if reg == -4 {
                    Error::Denied
                } else if reg == -5 {
                    Error::InvalidAddress
                } else if reg == -6 {
                    Error::AlreadyAvailable
                } else if reg == -7 {
                    Error::AlreadyStarted
                } else if reg == -8 {
                    Error::AlreadyStopped
                } else if reg == -9 {
                    Error::NoSharedMemory
                } else if reg == -10 {
                    Error::InvalidState
                } else if reg == -11 {
                    Error::BadRange
                } else if reg == -12 {
                    Error::Timeout
                } else if reg == -13 {
                    Error::Io
                } else if reg == -14 {
                    Error::LockedOut
                } else {
                    Error::Other
                },
            )
        }
    }

    /// The error for a value that the firmware returned; zero is success.
    pub fn for_reg_value(reg: i32) -> (r: Option<Error>)
        ensures
            r == Error::spec_for_reg_value(reg),
    {
        match reg {
            0 => None,
            -1 => Some(Error::Failed),
            -2 => Some(Error::NotSupported),
            -3 => Some(Error::InvalidParameter),
            -4 => Some(Error::Denied),
            -5 => Some(Error::InvalidAddress),
            -6 => Some(Error::AlreadyAvailable),
            -7 => Some(Error::AlreadyStarted),
            -8 => Some(Error::AlreadyStopped),
            -9 => Some(Error::NoSharedMemory),
            -10 => Some(Error::InvalidState),
            -11 => Some(Error::BadRange),
            -12 => Some(Error::Timeout),
            -13 => Some(Error::Io),
            -14 => Some(Error::LockedOut),
            _ => Some(Error::Other),
        }
    }

    /// What a firmware call returned: the value, or the error it encodes.
    pub fn check_return(value: i32) -> (r: Result<u32, Error>)
        ensures
            value >= 0 ==> r == Ok::<u32, Error>(value as u32),
            value < 0 ==> r == Err::<u32, Error>(Error::spec_for_reg_value(value).unwrap()),
    {
        if value < 0 {
            match Error::for_reg_value(value) {
                Some(e) => Err(e),
                None => Err(Error::Other),
            }
        } else {
            Ok(value as u32)
        }
    }
}

} // verus!
