//! The ways in which an operation on the handle table fails, and the error
//! numbers under which they are reported to the system.

use syscall::error::Error;
use vstd::prelude::*;

verus! {

/// `syscall::error::Error`, the system's error value. Nothing inside it is
/// visible here.
#[verifier::external_type_specification]
#[verifier::external_body]
pub struct ExError(Error);

/// Why an operation on a handle failed.
#[derive(Clone, Copy, Debug, PartialEq, Eq, Structural)]
pub enum SchemeError {
    /// The handle is not open, or is not a handle of a program.
    NoSuchHandle,
    /// No output is ready yet and the program may still produce some.
    WouldBlock,
    /// The brackets of the program do not nest.
    MalformedProgram,
    /// The handle table was marked as damaged; nothing more is done on it.
    Unrecoverable,
    /// A program was opened through a handle that is not the root.
    AccessDenied,
}

/// The system's error value for the error number `errno`: what
/// `Error::new` gives for it. The value is opaque here; it holds the number
/// and nothing else, so one number always gives one value.
pub uninterp spec fn system_error(errno: i32) -> Error;

/// `Error::new`: the system's error value for the error number `errno`.
#[verifier::external_body]
fn syscall_error(errno: i32) -> (error: Error)
    ensures
        error == system_error(errno),
{
    Error::new(errno)
}

impl SchemeError {
    /// The error number of each failure: `EBADFD`, `EAGAIN`, `EINVAL`,
    /// `ENOTRECOVERABLE` and `EACCES`, in the order of the variants.
    pub open spec fn errno_spec(self) -> i32 {
        match self {
            SchemeError::NoSuchHandle => 77,
            SchemeError::WouldBlock => 11,
            SchemeError::MalformedProgram => 22,
            SchemeError::Unrecoverable => 131,
            SchemeError::AccessDenied => 13,
        }
    }

    /// The error number under which the failure is reported.
    pub fn errno(self) -> (code: i32)
        ensures
            code == self.errno_spec(),
    {
        match self {
            SchemeError::NoSuchHandle => 77,
            SchemeError::WouldBlock => 11,
            SchemeError::MalformedProgram => 22,
            SchemeError::Unrecoverable => 131,
            SchemeError::AccessDenied => 13,
        }
    }

    /// The failure as the system's error value, made from its error number.
    pub fn into_syscall(self) -> (error: Error)
        ensures
            error == system_error(self.errno_spec()),
    {
        syscall_error(self.errno())
    }
}

} // verus!
