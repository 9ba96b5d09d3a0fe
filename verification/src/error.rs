//! Why a positional read did not deliver bytes.

use vstd::prelude::*;

verus! {

/// The failure of a positional read, as plain data.
#[derive(Clone, Copy, Debug, PartialEq, Eq, Structural)]
pub enum ReadError {
    /// A signal cut the call short before it moved any byte. The request can
    /// be issued again as it was.
    Interrupted,
    /// The data ended before the buffer was full.
    UnexpectedEof,
    /// The operating system refused the request; this is its error code.
    Os(i32),
    /// A failure that carries no operating-system code.
    Other,
}

/// The operating system's own error value.
#[verifier::external_type_specification]
#[verifier::external_body]
pub struct ExIoError(std::io::Error);

impl ReadError {
    /// Whether this is the failure that a caller answers by trying again.
    pub open spec fn interrupted(self) -> bool {
        self == ReadError::Interrupted
    }

    /// The error that stands for an operating-system failure which was, or
    /// was not, an interruption and which has the given code, if it has one.
    pub open spec fn classified(interrupted: bool, code: Option<i32>) -> ReadError {
        if interrupted {
            ReadError::Interrupted
        } else {
            match code {
                Some(c) => ReadError::Os(c),
                None => ReadError::Other,
            }
        }
    }

    /// Whether this is the failure that a caller answers by trying again.
    pub fn is_interrupted(&self) -> (b: bool)
        ensures
            b == self.interrupted(),
    {
        match self {
            ReadError::Interrupted => true,
            _ => false,
        }
    }

    /// Builds the error for an operating-system failure from what the system
    /// says of it: whether it was an interruption, and its code.
    pub fn classify(interrupted: bool, code: Option<i32>) -> (e: ReadError)
        ensures
            e == ReadError::classified(interrupted, code),
    {
        if interrupted {
            ReadError::Interrupted
        } else {
            match code {
                Some(c) => ReadError::Os(c),
                None => ReadError::Other,
            }
        }
    }

    /// The plain error that stands for an operating-system error value: an
    /// interruption if the value's kind is that, else its code if it has
    /// one, else `Other`.
    pub open spec fn of_io(e: std::io::Error) -> ReadError {
        ReadError::classified(io_kind_is_interrupted(e), io_raw_os_error(e))
    }

    /// Turns an operating-system error value into plain data: `classify`,
    /// on what the value says of its kind and of its code. So the result is
    /// never `UnexpectedEof`.
    pub fn from_io(e: &std::io::Error) -> (r: ReadError)
        ensures
            r == ReadError::of_io(*e),
    {
        let interrupted: bool = io_error_is_interrupted(e);
        let code: Option<i32> = io_error_code(e);
        ReadError::classify(interrupted, code)
    }
}

/// Whether `std::io::Error::kind` gives `ErrorKind::Interrupted` for `e`.
pub uninterp spec fn io_kind_is_interrupted(e: std::io::Error) -> bool;

/// What `std::io::Error::raw_os_error` gives for `e`.
pub uninterp spec fn io_raw_os_error(e: std::io::Error) -> Option<i32>;

/// `std::io::Error::kind`, compared with `ErrorKind::Interrupted`. The kind
/// is read off the error value and nothing else, so the answer is a
/// function of the value; which function is not said.
#[verifier::external_body]
fn io_error_is_interrupted(e: &std::io::Error) -> (b: bool)
    ensures
        b == io_kind_is_interrupted(*e),
{
    matches!(e.kind(), std::io::ErrorKind::Interrupted)
}

/// `std::io::Error::raw_os_error`. The code is read off the error value
/// and nothing else, so the answer is a function of the value; which
/// function is not said.
#[verifier::external_body]
fn io_error_code(e: &std::io::Error) -> (code: Option<i32>)
    ensures
        code == io_raw_os_error(*e),
{
    e.raw_os_error()
}

} // verus!
