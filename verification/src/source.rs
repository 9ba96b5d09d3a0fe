//! The interface of a source that can be read at a position, the running of
//! a fill on such a source, and what a filled buffer then holds.

use vstd::prelude::*;
use crate::error::ReadError;
use crate::fill::{ExactFill, Step};
use crate::replay::{
    available, issued, law_buffer_follows_the_file, law_empty_request_needs_no_read,
    law_enough_data_fills_the_buffer, law_short_data_fails, reads_from, served, span, Attempt, Run,
};

verus! {

/// A source of bytes that is read at absolute offsets, leaving any cursor of
/// its own where it is.
///
/// What the methods promise is asked of every implementation. One in plain
/// Rust keeps the promise of `read_exact_at` by calling `advance` on a new
/// `ExactFill`, again after every interruption, until the fill has ended.
/// One that is proved drives the `ExactFill` itself, with `step` and
/// `record`: inside an impl of this trait no function can be called that
/// is generic over it.
pub trait ReadAt {
    /// Whether a read of this source at offset `off` can do `a`.
    ///
    /// An implementation that is proved says here what its reads do. One
    /// that is written in plain Rust cannot, and leaves this as it is,
    /// which claims nothing.
    open spec fn answers(&self, off: nat, a: Attempt) -> bool {
        true
    }

    /// Reads once: up to `buf.len()` bytes from offset `off` into the front
    /// of `buf`, and returns how many came. Fewer than asked for may come,
    /// and none once the data has ended.
    fn read_at(&self, buf: &mut [u8], off: usize) -> (r: Result<usize, ReadError>)
        ensures
            final(buf)@.len() == old(buf)@.len(),
            r matches Ok(n) ==> n <= old(buf)@.len(),
            self.answers(off as nat, (Attempt { outcome: r, window: final(buf)@ })),
    ;

    /// Fills all of `buf` from offset `off` on, or fails: the buffer and the
    /// result are those of a fill that was run, until no read was due, over
    /// reads of this source. So an empty buffer succeeds without a read, and
    /// an interruption is never reported.
    fn read_exact_at(&self, buf: &mut [u8], off: usize) -> (r: Result<(), ReadError>)
        ensures
            exists|attempts: Seq<Attempt>|
                {
                    &&& issued(
                        Run::fresh(old(buf)@, off as nat),
                        attempts,
                        |at: nat, a: Attempt| self.answers(at, a),
                    )
                    &&& #[trigger] Run::fresh(old(buf)@, off as nat).ends_with(
                        attempts,
                        r,
                        final(buf)@,
                    )
                },
    ;
}

/// Performs the read that `fill` is waiting for, if it waits for one: once,
/// on `source`, at the offset of the first missing byte and into the part of
/// `buf` that is missing; and records what the read returned, if `fill`
/// admits it.
///
/// The answer is what was recorded. Where no read was due, none was issued.
/// Where the read returned what `fill` does not admit, the fill is as it
/// was, and the buffer is as the read left it.
pub fn attempt<R: ReadAt + ?Sized>(source: &R, buf: &mut [u8], fill: &mut ExactFill) -> (recorded:
    Option<Result<usize, ReadError>>)
    requires
        old(buf)@.len() == old(fill)@.len,
    ensures
        ({
            let before = Run { state: old(fill)@, buf: old(buf)@ };
            let after = Run { state: final(fill)@, buf: final(buf)@ };
            &&& before.wf()
            &&& after.wf()
            &&& !before.state.reading() ==> recorded is None && after == before
            &&& before.state.reading() ==> exists|a: Attempt|
                {
                    &&& #[trigger] source.answers(before.state.position(), a)
                    &&& a.window.len() == before.state.remaining()
                    &&& after.buf == before.done() + a.window
                    &&& if before.admits(a) {
                        recorded == Some(a.outcome) && after.state == before.state.after(a.outcome)
                    } else {
                        recorded is None && after.state == before.state
                    }
                }
        }),
{
    match fill.step() {
        Step::Read { from, offset } => {
            let ghost before = Run { state: fill@, buf: buf@ };
            let (head, tail) = buf.split_at_mut(from);
            let outcome = source.read_at(tail, offset);
            let ghost a = Attempt { outcome, window: tail@ };
            proof {
                assert(head@ =~= before.done());
                assert(source.answers(before.state.position(), a));
            }
            if fill.admits(&outcome) {
                fill.record(outcome);
                Some(outcome)
            } else {
                None
            }
        },
        _ => None,
    }
}

/// Why `advance` came back.
#[derive(Clone, Copy, Debug, PartialEq, Eq, Structural)]
pub enum Pause {
    /// The buffer is full.
    Done,
    /// The fill has failed with this error.
    Failed(ReadError),
    /// A read was interrupted. Nothing is lost: the same read is due again.
    Interrupted,
    /// A read returned what the fill does not admit, and was not recorded:
    /// more bytes than were missing, or bytes up to an offset that is no
    /// `usize`.
    Refused,
}

impl Pause {
    /// Whether this is the pause at which a run that began as `before` and
    /// had the reads `attempts` recorded stands as `after`.
    ///
    /// The state and the bytes in place are those that the reads lead to,
    /// and so is the rest of the buffer unless a read was refused after
    /// them. Only the last of the reads can have been interrupted, and that
    /// is the pause `Interrupted`. At `Done` and at `Failed` the fill has
    /// ended as the pause says; at the other two a read is due.
    pub open spec fn follows(self, before: Run, attempts: Seq<Attempt>, after: Run) -> bool {
        let reached = before.replay(attempts);
        &&& after.state == reached.state
        &&& after.done() == reached.done()
        &&& self != Pause::Refused ==> after == reached
        &&& forall|i: int| 0 <= i < attempts.len() - 1 ==> !(#[trigger] attempts[i]).interrupted()
        &&& match self {
            Pause::Done => after.state.result() == Some(Ok::<(), ReadError>(())),
            Pause::Failed(e) => after.state.result() == Some(Err::<(), ReadError>(e)),
            Pause::Interrupted => {
                &&& after.state.reading()
                &&& attempts.len() > 0
                &&& attempts.last().interrupted()
            },
            Pause::Refused => {
                &&& after.state.reading()
                &&& attempts.len() > 0 ==> !attempts.last().interrupted()
            },
        }
    }
}

/// Runs `fill` on `source` and `buf`: issues the reads that it asks for, one
/// after the other, until it asks for none or a read is interrupted or
/// refused.
///
/// Each read that brings bytes leaves fewer to bring, so this comes back. An
/// interruption may follow another without end, so going on after one is
/// left to the caller, who calls again.
pub fn advance<R: ReadAt + ?Sized>(source: &R, buf: &mut [u8], fill: &mut ExactFill) -> (pause:
    Pause)
    requires
        old(buf)@.len() == old(fill)@.len,
    ensures
        ({
            let before = Run { state: old(fill)@, buf: old(buf)@ };
            let after = Run { state: final(fill)@, buf: final(buf)@ };
            &&& after.wf()
            &&& before.state.result() matches Some(r) ==> {
                &&& after == before
                &&& pause == match r {
                    Ok(_) => Pause::Done,
                    Err(e) => Pause::Failed(e),
                }
            }
            &&& exists|attempts: Seq<Attempt>|
                {
                    &&& issued(before, attempts, |at: nat, a: Attempt| source.answers(at, a))
                    &&& #[trigger] pause.follows(before, attempts, after)
                }
            &&& pause == Pause::Refused ==> exists|a: Attempt|
                {
                    &&& #[trigger] source.answers(after.state.position(), a)
                    &&& a.window.len() == after.state.remaining()
                    &&& !after.state.admits(a.outcome)
                    &&& after.buf == after.done() + a.window
                }
        }),
{
    let ghost before = Run { state: fill@, buf: buf@ };
    let ghost mut attempts: Seq<Attempt> = Seq::empty();
    loop
        invariant
            before == (Run { state: old(fill)@, buf: old(buf)@ }),
            buf@.len() == fill@.len,
            issued(before, attempts, |at: nat, a: Attempt| source.answers(at, a)),
            (Run { state: fill@, buf: buf@ }) == before.replay(attempts),
            forall|i: int| 0 <= i < attempts.len() ==> !(#[trigger] attempts[i]).interrupted(),
            before.state.result() is Some ==> attempts.len() == 0,
        decreases fill@.remaining(), fill@.reading() as nat,
    {
        let ghost here = Run { state: fill@, buf: buf@ };
        match fill.step() {
            Step::Done => {
                assert(Pause::Done.follows(before, attempts, here));
                return Pause::Done;
            },
            Step::Failed(e) => {
                assert(Pause::Failed(e).follows(before, attempts, here));
                return Pause::Failed(e);
            },
            Step::Read { .. } => {
                let recorded = attempt(source, buf, fill);
                let ghost after = Run { state: fill@, buf: buf@ };
                let ghost a = choose|a: Attempt|
                    {
                        &&& #[trigger] source.answers(here.state.position(), a)
                        &&& a.window.len() == here.state.remaining()
                        &&& after.buf == here.done() + a.window
                        &&& if here.admits(a) {
                            recorded == Some(a.outcome) && after.state == here.state.after(
                                a.outcome,
                            )
                        } else {
                            recorded is None && after.state == here.state
                        }
                    };
                match recorded {
                    None => {
                        proof {
                            assert(after.done() =~= here.done());
                            assert(Pause::Refused.follows(before, attempts, after));
                        }
                        return Pause::Refused;
                    },
                    Some(outcome) => {
                        proof {
                            assert(attempts.push(a).drop_last() =~= attempts);
                            attempts = attempts.push(a);
                        }
                        match outcome {
                            Err(e) => {
                                if e.is_interrupted() {
                                    assert(Pause::Interrupted.follows(before, attempts, after));
                                    return Pause::Interrupted;
                                }
                            },
                            Ok(_) => {},
                        }
                    },
                }
            },
        }
    }
}

/// Where every read of `source` is served from `file`, the reads that a run
/// asked of `source` are reads from `file`: all that holds of reading from
/// a file holds of them.
pub proof fn law_reads_of_a_source_that_holds_a_file<R: ReadAt + ?Sized>(
    source: &R,
    file: Seq<u8>,
    run: Run,
    attempts: Seq<Attempt>,
)
    requires
        forall|off: nat, a: Attempt| #[trigger] source.answers(off, a) ==> served(file, off, a),
        issued(run, attempts, |off: nat, a: Attempt| source.answers(off, a)),
    ensures
        reads_from(file, run, attempts),
    decreases attempts.len(),
{
    if attempts.len() > 0 {
        law_reads_of_a_source_that_holds_a_file(source, file, run, attempts.drop_last());
    }
}

/// Exactness. Where `source` holds `file`, and `file` has all the bytes
/// that were asked for, a `read_exact_at` that turned `buf` into `out` and
/// returned `r` has succeeded, and `out` is the file's bytes from `off` on.
pub proof fn law_enough_data_is_read_exactly<R: ReadAt + ?Sized>(
    source: &R,
    file: Seq<u8>,
    buf: Seq<u8>,
    off: nat,
    r: Result<(), ReadError>,
    out: Seq<u8>,
)
    requires
        forall|at: nat, a: Attempt| #[trigger] source.answers(at, a) ==> served(file, at, a),
        off + buf.len() <= file.len(),
        exists|attempts: Seq<Attempt>|
            {
                &&& issued(
                    Run::fresh(buf, off),
                    attempts,
                    |at: nat, a: Attempt| source.answers(at, a),
                )
                &&& #[trigger] Run::fresh(buf, off).ends_with(attempts, r, out)
            },
    ensures
        r == Ok::<(), ReadError>(()),
        out == file.subrange(off as int, off + buf.len() as int),
{
    let run = Run::fresh(buf, off);
    let attempts = choose|attempts: Seq<Attempt>|
        {
            &&& issued(run, attempts, |at: nat, a: Attempt| source.answers(at, a))
            &&& #[trigger] run.ends_with(attempts, r, out)
        };
    law_reads_of_a_source_that_holds_a_file(source, file, run, attempts);
    law_enough_data_fills_the_buffer(file, buf, off, attempts);
}

/// Short data. Where `source` holds `file`, and `file` has fewer bytes from
/// `off` on than were asked for, a `read_exact_at` that turned `buf` into
/// `out` and returned `r` has failed with `UnexpectedEof`, and the bytes
/// that the file did have are in place at the front of `out`.
pub proof fn law_short_data_is_an_unexpected_end<R: ReadAt + ?Sized>(
    source: &R,
    file: Seq<u8>,
    buf: Seq<u8>,
    off: nat,
    r: Result<(), ReadError>,
    out: Seq<u8>,
)
    requires
        forall|at: nat, a: Attempt| #[trigger] source.answers(at, a) ==> served(file, at, a),
        available(file, off) < buf.len(),
        exists|attempts: Seq<Attempt>|
            {
                &&& issued(
                    Run::fresh(buf, off),
                    attempts,
                    |at: nat, a: Attempt| source.answers(at, a),
                )
                &&& #[trigger] Run::fresh(buf, off).ends_with(attempts, r, out)
            },
    ensures
        r == Err::<(), ReadError>(ReadError::UnexpectedEof),
        out.len() == buf.len(),
        out.take(available(file, off) as int) == span(file, off, available(file, off)),
{
    let run = Run::fresh(buf, off);
    let attempts = choose|attempts: Seq<Attempt>|
        {
            &&& issued(run, attempts, |at: nat, a: Attempt| source.answers(at, a))
            &&& #[trigger] run.ends_with(attempts, r, out)
        };
    law_reads_of_a_source_that_holds_a_file(source, file, run, attempts);
    law_short_data_fails(file, buf, off, attempts);
    law_buffer_follows_the_file(file, buf, off, attempts);
}

/// An empty buffer. A `read_exact_at` on a buffer of no bytes has issued no
/// read and has succeeded.
pub proof fn law_an_empty_buffer_is_filled_without_a_read<R: ReadAt + ?Sized>(
    source: &R,
    off: nat,
    attempts: Seq<Attempt>,
    r: Result<(), ReadError>,
    out: Seq<u8>,
)
    requires
        issued(
            Run::fresh(Seq::empty(), off),
            attempts,
            |at: nat, a: Attempt| source.answers(at, a),
        ),
        Run::fresh(Seq::empty(), off).ends_with(attempts, r, out),
    ensures
        attempts.len() == 0,
        r == Ok::<(), ReadError>(()),
        out == Seq::<u8>::empty(),
{
    law_empty_request_needs_no_read(off, attempts, |at: nat, a: Attempt| source.answers(at, a));
}

} // verus!
