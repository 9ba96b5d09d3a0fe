//! Telling a system call's byte count from its failure value.

use vstd::prelude::*;
use crate::error::ReadError;

verus! {

/// `std::io::Error::last_os_error`: the error that the calling thread's last
/// failed system call left behind. It depends on what the thread did before,
/// so nothing is claimed of it.
#[verifier::external_body]
fn last_os_error() -> std::io::Error {
    std::io::Error::last_os_error()
}

/// Reads what a system call returned: `-1` means that it failed, and the
/// error is then the one that the system holds for this thread; any other
/// value is handed on as it is.
///
/// Call it right after the system call, before the thread makes another.
pub fn cvt(t: isize) -> (r: Result<isize, ReadError>)
    ensures
        t != -1 ==> r == Ok::<isize, ReadError>(t),
        t == -1 ==> r is Err && r->Err_0 != ReadError::UnexpectedEof,
{
    if t == -1 {
        let e = last_os_error();
        Err(ReadError::from_io(&e))
    } else {
        Ok(t)
    }
}

} // verus!
