//! Filling a whole buffer from positional reads that may each come back
//! short, interrupted or failed.
//!
//! The rules of the fill are a state machine. `FillState` is its mathematical
//! state and says what each outcome of a read does to it; `ExactFill` is the
//! same state in machine integers. Whoever issues the reads drives it: ask
//! `step` what to do, perform the read, hand the outcome to `record`, and go
//! on until `step` says to stop.

use vstd::prelude::*;
use crate::error::ReadError;

verus! {

/// What the driver of a fill has to do next.
#[derive(Clone, Copy, Debug, PartialEq, Eq, Structural)]
pub enum Step {
    /// Read once into the buffer from index `from` to its end, at file
    /// offset `offset`, and record the outcome.
    Read { from: usize, offset: usize },
    /// The buffer is full: report success.
    Done,
    /// Stop and report this error.
    Failed(ReadError),
}

/// The progress of one request to fill `len` bytes from file offset `start`.
pub struct FillState {
    /// The length of the buffer.
    pub len: nat,
    /// The file offset that the first byte of the buffer comes from.
    pub start: nat,
    /// How many bytes at the front of the buffer are in place.
    pub filled: nat,
    /// The error that ended the fill, if one did.
    pub failure: Option<ReadError>,
}

impl FillState {
    /// The state before any read.
    pub open spec fn fresh(len: nat, start: nat) -> FillState {
        FillState { len, start, filled: 0, failure: None }
    }

    /// What every reachable state satisfies: no more is in place than was
    /// asked for, a fill that failed was short of its end, and an
    /// interruption never counts as a failure.
    pub open spec fn wf(self) -> bool {
        &&& self.filled <= self.len
        &&& self.failure matches Some(e) ==> self.filled < self.len && !e.interrupted()
    }

    /// How many bytes are still missing.
    pub open spec fn remaining(self) -> nat {
        (self.len - self.filled) as nat
    }

    /// The file offset that the next missing byte comes from.
    pub open spec fn position(self) -> nat {
        self.start + self.filled
    }

    /// Whether another read is due.
    pub open spec fn reading(self) -> bool {
        self.failure is None && self.filled < self.len
    }

    /// What the driver has to do in this state.
    pub open spec fn step(self) -> Step {
        match self.failure {
            Some(e) => Step::Failed(e),
            None => if self.filled < self.len {
                Step::Read { from: self.filled as usize, offset: self.position() as usize }
            } else {
                Step::Done
            },
        }
    }

    /// The result of the whole request, once no read is due.
    pub open spec fn result(self) -> Option<Result<(), ReadError>> {
        match self.failure {
            Some(e) => Some(Err(e)),
            None => if self.filled < self.len {
                None
            } else {
                Some(Ok(()))
            },
        }
    }

    /// Whether `outcome` can be taken for what the read that is due
    /// returned: a read is due, and a byte count is no larger than what is
    /// missing and leads to an offset that is still a `usize`.
    pub open spec fn admits(self, outcome: Result<usize, ReadError>) -> bool {
        &&& self.reading()
        &&& outcome matches Ok(n) ==> n <= self.remaining() && self.position() + n <= usize::MAX
    }

    /// The state after the read that was due returned `outcome`.
    ///
    /// No byte means that the data has ended, which fails the fill; some
    /// bytes move it forward; an interruption changes nothing, so the same
    /// read is due again; any other error ends the fill as it is.
    pub open spec fn after(self, outcome: Result<usize, ReadError>) -> FillState {
        match outcome {
            Ok(n) => if n == 0 {
                FillState { failure: Some(ReadError::UnexpectedEof), ..self }
            } else {
                FillState { filled: self.filled + (n as nat), ..self }
            },
            Err(e) => if e.interrupted() {
                self
            } else {
                FillState { failure: Some(e), ..self }
            },
        }
    }
}

/// The progress of one request to fill a buffer, in machine integers.
pub struct ExactFill {
    len: usize,
    start: usize,
    filled: usize,
    failure: Option<ReadError>,
}

impl View for ExactFill {
    type V = FillState;

    closed spec fn view(&self) -> FillState {
        FillState {
            len: self.len as nat,
            start: self.start as nat,
            filled: self.filled as nat,
            failure: self.failure,
        }
    }
}

impl ExactFill {
    #[verifier::type_invariant]
    spec fn inv(&self) -> bool {
        &&& self@.wf()
        &&& self.start + self.filled <= usize::MAX
    }

    /// A request to fill `len` bytes from file offset `offset`, before any
    /// read.
    pub fn new(len: usize, offset: usize) -> (fill: ExactFill)
        ensures
            fill@ == FillState::fresh(len as nat, offset as nat),
    {
        ExactFill { len, start: offset, filled: 0, failure: None }
    }

    /// The length of the buffer that is being filled.
    pub fn len(&self) -> (n: usize)
        ensures
            n == self@.len,
    {
        self.len
    }

    /// How many bytes at the front of the buffer are in place.
    pub fn filled(&self) -> (n: usize)
        ensures
            n == self@.filled,
    {
        self.filled
    }

    /// What to do next. Every fill is in a state that can be reached, and
    /// the offset of its next byte is a `usize`.
    pub fn step(&self) -> (s: Step)
        ensures
            s == self@.step(),
            self@.wf(),
            self@.position() <= usize::MAX,
    {
        proof {
            use_type_invariant(self);
        }
        match self.failure {
            Some(e) => Step::Failed(e),
            None => if self.filled < self.len {
                Step::Read { from: self.filled, offset: self.start + self.filled }
            } else {
                Step::Done
            },
        }
    }

    /// Whether `outcome` may be recorded.
    pub fn admits(&self, outcome: &Result<usize, ReadError>) -> (b: bool)
        ensures
            b == self@.admits(*outcome),
    {
        proof {
            use_type_invariant(self);
        }
        if self.failure.is_some() || self.filled >= self.len {
            return false;
        }
        match outcome {
            Ok(n) => *n <= self.len - self.filled && *n <= usize::MAX - self.start - self.filled,
            Err(_) => true,
        }
    }

    /// Takes in what the read that `step` asked for returned.
    pub fn record(&mut self, outcome: Result<usize, ReadError>)
        requires
            old(self)@.admits(outcome),
        ensures
            final(self)@ == old(self)@.after(outcome),
    {
        proof {
            use_type_invariant(&*self);
        }
        match outcome {
            Ok(n) => {
                if n == 0 {
                    self.failure = Some(ReadError::UnexpectedEof);
                } else {
                    self.filled = self.filled + n;
                }
            },
            Err(e) => {
                if !e.is_interrupted() {
                    self.failure = Some(e);
                }
            },
        }
    }
}

} // verus!
