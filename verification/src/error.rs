//! The library's error type, and the helper that insists on success.
use vstd::prelude::*;

verus! {

/// Errors of the Soma tool.
#[derive(Debug)]
pub enum SomaError {
    /// A request that the tool refuses, with the reason.
    InvalidRequest { msg: String },
    /// Something looked up that does not exist.
    NotFound { msg: String, lookup_id: String },
    /// Any other failure, with its message.
    Unknown { msg: String },
}

/// The value of a command that must have succeeded. The tool reports an error
/// and stops where a command failed, so callers may only pass a success here.
pub fn unwrap_and_error<T>(cmd: Result<T, SomaError>) -> (r: T)
    requires
        cmd is Ok,
    ensures
        cmd == Ok::<T, SomaError>(r),
{
    cmd.unwrap()
}

} // verus!
