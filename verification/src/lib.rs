//! Positional reads: reading a source of bytes at an absolute offset,
//! without touching any cursor of its own, and filling a whole buffer from
//! such reads.
//!
//! `ReadAt` is the interface of a source. `ExactFill` holds the rules by
//! which single reads, each of which may come back short, interrupted or
//! failed, are made into a read that fills the buffer or fails. `advance`
//! runs those rules on a source. `replay` says what the rules amount to:
//! that a full buffer holds the source's bytes, that short data is an
//! error which keeps what came, and that interruptions do not show.

pub mod error;
pub mod fill;
pub mod os;
pub mod replay;
pub mod source;

pub use error::ReadError;
pub use fill::{ExactFill, FillState, Step};
pub use os::cvt;
pub use replay::{Attempt, Run};
pub use source::{advance, attempt, Pause, ReadAt};
