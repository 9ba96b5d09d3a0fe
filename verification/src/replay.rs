//! The fill together with its buffer, played over a list of reads, and what
//! holds of every such play.

use vstd::prelude::*;
use crate::error::ReadError;
use crate::fill::{FillState, Step};

verus! {

/// What one read did.
pub struct Attempt {
    /// What the read returned.
    pub outcome: Result<usize, ReadError>,
    /// The part of the buffer that the read was given, as the read left it.
    pub window: Seq<u8>,
}

impl Attempt {
    /// Whether the read was cut short by a signal.
    pub open spec fn interrupted(self) -> bool {
        self.outcome matches Err(e) && e.interrupted()
    }
}

/// A fill together with the buffer that it fills.
pub struct Run {
    /// How far the fill has come.
    pub state: FillState,
    /// What the buffer holds.
    pub buf: Seq<u8>,
}

impl Run {
    /// The run that is about to fill all of `buf` from file offset `start`.
    pub open spec fn fresh(buf: Seq<u8>, start: nat) -> Run {
        Run { state: FillState::fresh(buf.len(), start), buf }
    }

    /// The state is one that can be reached, and it is the state of this
    /// buffer.
    pub open spec fn wf(self) -> bool {
        &&& self.state.wf()
        &&& self.buf.len() == self.state.len
    }

    /// The bytes that are in place.
    pub open spec fn done(self) -> Seq<u8> {
        self.buf.take(self.state.filled as int)
    }

    /// Whether `a` can be taken for what the read that is due did: the
    /// state admits what it returned, and it was given the part of the
    /// buffer that is missing.
    pub open spec fn admits(self, a: Attempt) -> bool {
        &&& self.state.admits(a.outcome)
        &&& a.window.len() == self.state.remaining()
    }

    /// The run after one more read: what was in place stays, behind it
    /// stands what the read left, and the state takes in what the read
    /// returned. A read that is not admitted changes nothing.
    pub open spec fn apply(self, a: Attempt) -> Run {
        if self.admits(a) {
            Run { state: self.state.after(a.outcome), buf: self.done() + a.window }
        } else {
            self
        }
    }

    /// The run after these reads, in their order.
    pub open spec fn replay(self, attempts: Seq<Attempt>) -> Run
        decreases attempts.len(),
    {
        if attempts.len() == 0 {
            self
        } else {
            self.replay(attempts.drop_last()).apply(attempts.last())
        }
    }

    /// Whether the run over `attempts` ends with no read due, with the
    /// result `r` and the buffer `buf`.
    pub open spec fn ends_with(
        self,
        attempts: Seq<Attempt>,
        r: Result<(), ReadError>,
        buf: Seq<u8>,
    ) -> bool {
        let end = self.replay(attempts);
        end.state.result() == Some(r) && end.buf == buf
    }
}

/// The `count` bytes that stand in `file` from `offset` on.
pub open spec fn span(file: Seq<u8>, offset: nat, count: nat) -> Seq<u8> {
    Seq::new(count, |i: int| file[offset + i])
}

/// How many bytes of `file` stand at and after `offset`.
pub open spec fn available(file: Seq<u8>, offset: nat) -> nat {
    if offset <= file.len() {
        (file.len() - offset) as nat
    } else {
        0
    }
}

/// Whether `a` is what a read at `offset` can do on a source that holds
/// exactly the bytes `file` and whose only failure is interruption: it puts
/// the bytes that stand at `offset` at the front of its window, at least one
/// of them where there is one and room for it, and none where there is not.
pub open spec fn served(file: Seq<u8>, offset: nat, a: Attempt) -> bool {
    match a.outcome {
        Ok(n) => {
            &&& n <= a.window.len()
            &&& a.window.take(n as int) == span(file, offset, n as nat)
            &&& if offset < file.len() && a.window.len() > 0 {
                1 <= n <= file.len() - offset
            } else {
                n == 0
            }
        },
        Err(e) => e.interrupted(),
    }
}

/// Whether `attempts` are reads that `run` issued, one after the other, each
/// while a read was due, and each answered as `can` allows at its offset.
pub open spec fn issued(
    run: Run,
    attempts: Seq<Attempt>,
    can: spec_fn(nat, Attempt) -> bool,
) -> bool
    decreases attempts.len(),
{
    attempts.len() == 0 || {
        let before = run.replay(attempts.drop_last());
        &&& issued(run, attempts.drop_last(), can)
        &&& before.admits(attempts.last())
        &&& can(before.state.position(), attempts.last())
    }
}

/// Whether `attempts` are reads that `run` issued and that were served from
/// `file`.
pub open spec fn reads_from(file: Seq<u8>, run: Run, attempts: Seq<Attempt>) -> bool {
    issued(run, attempts, |off: nat, a: Attempt| served(file, off, a))
}

/// How many of `attempts` were not failures.
pub open spec fn deliveries(attempts: Seq<Attempt>) -> nat
    decreases attempts.len(),
{
    if attempts.len() == 0 {
        0
    } else {
        deliveries(attempts.drop_last()) + if attempts.last().outcome is Ok {
            1nat
        } else {
            0nat
        }
    }
}

/// A run stays well formed and never changes what was asked of it, the
/// buffer's length and the offset of its first byte; and the bytes that are
/// in place stay in place.
pub proof fn law_replay_keeps_what_is_done(run: Run, attempts: Seq<Attempt>)
    requires
        run.wf(),
    ensures
        run.replay(attempts).wf(),
        run.replay(attempts).state.len == run.state.len,
        run.replay(attempts).state.start == run.state.start,
        run.replay(attempts).state.filled >= run.state.filled,
        run.replay(attempts).buf.take(run.state.filled as int) == run.done(),
    decreases attempts.len(),
{
    if attempts.len() > 0 {
        law_replay_keeps_what_is_done(run, attempts.drop_last());
        let before = run.replay(attempts.drop_last());
        let after = before.apply(attempts.last());
        assert(after.buf.take(run.state.filled as int) =~= before.buf.take(
            run.state.filled as int,
        ));
    } else {
        assert(run.buf.take(run.state.filled as int) == run.done());
    }
}

/// Runs join: reads that a run issued, and then reads that the run they
/// led to issued, are together reads that the first run issued, and lead
/// where the second run ended.
pub proof fn law_runs_join(
    run: Run,
    first: Seq<Attempt>,
    then: Seq<Attempt>,
    can: spec_fn(nat, Attempt) -> bool,
)
    ensures
        run.replay(first + then) == run.replay(first).replay(then),
        issued(run, first, can) && issued(run.replay(first), then, can) ==> issued(
            run,
            first + then,
            can,
        ),
    decreases then.len(),
{
    if then.len() == 0 {
        assert(first + then =~= first);
    } else {
        law_runs_join(run, first, then.drop_last(), can);
        assert((first + then).drop_last() =~= first + then.drop_last());
        assert((first + then).last() == then.last());
    }
}

/// No run ends with an interruption as its result.
pub proof fn law_interruption_is_never_reported(run: Run, attempts: Seq<Attempt>)
    requires
        run.wf(),
    ensures
        run.replay(attempts).state.result() matches Some(Err(e)) ==> !e.interrupted(),
{
    law_replay_keeps_what_is_done(run, attempts);
}

/// Interruptions cannot be seen in what a run reports: over any reads it
/// reaches the state, and has the bytes in place, that it reaches over the
/// same reads with the interrupted ones left out. Where it has filled the
/// buffer, the whole buffer is the same. And where the reads were issued by
/// the run, so were those that are left.
pub proof fn law_interruptions_are_invisible(
    run: Run,
    attempts: Seq<Attempt>,
    can: spec_fn(nat, Attempt) -> bool,
)
    requires
        run.wf(),
    ensures
        ({
            let calm = attempts.filter(|a: Attempt| !a.interrupted());
            let with = run.replay(attempts);
            let without = run.replay(calm);
            &&& with.state == without.state
            &&& with.done() == without.done()
            &&& with.state.result() == Some(Ok::<(), ReadError>(())) ==> with.buf == without.buf
            &&& issued(run, attempts, can) ==> issued(run, calm, can)
            &&& forall|i: int| 0 <= i < calm.len() ==> !(#[trigger] calm[i]).interrupted()
        }),
    decreases attempts.len(),
{
    let keep = |a: Attempt| !a.interrupted();
    reveal(Seq::filter);
    if attempts.len() > 0 {
        let earlier = attempts.drop_last();
        let a = attempts.last();
        law_interruptions_are_invisible(run, earlier, can);
        law_replay_keeps_what_is_done(run, earlier);
        law_replay_keeps_what_is_done(run, earlier.filter(keep));
        let with = run.replay(earlier);
        let without = run.replay(earlier.filter(keep));
        if keep(a) {
            assert(attempts.filter(keep) == earlier.filter(keep).push(a));
            assert(earlier.filter(keep).push(a).drop_last() =~= earlier.filter(keep));
            if with.admits(a) {
                assert(with.apply(a).buf =~= without.apply(a).buf);
            }
        } else {
            assert(attempts.filter(keep) == earlier.filter(keep));
            if with.admits(a) {
                assert(with.apply(a).done() =~= with.done());
            }
        }
    } else {
        assert(attempts.filter(keep) =~= attempts);
    }
    let with = run.replay(attempts);
    let without = run.replay(attempts.filter(keep));
    law_replay_keeps_what_is_done(run, attempts);
    law_replay_keeps_what_is_done(run, attempts.filter(keep));
    let calm = attempts.filter(keep);
    assert forall|i: int| 0 <= i < calm.len() implies !(#[trigger] calm[i]).interrupted() by {
        attempts.lemma_filter_pred(keep, i);
    }
    if with.state.result() == Some(Ok::<(), ReadError>(())) {
        assert(with.done() =~= with.buf);
        assert(without.done() =~= without.buf);
    }
}

/// Where no read is due, none is issued.
pub proof fn law_no_read_is_issued_unless_due(
    run: Run,
    attempts: Seq<Attempt>,
    can: spec_fn(nat, Attempt) -> bool,
)
    requires
        !run.state.reading(),
        issued(run, attempts, can),
    ensures
        attempts.len() == 0,
    decreases attempts.len(),
{
    if attempts.len() > 0 {
        law_no_read_is_issued_unless_due(run, attempts.drop_last(), can);
        assert(run.replay(attempts.drop_last()) == run);
    }
}

/// A request for no bytes is done before any read: it reports success at
/// once, it issues no read, and no read changes it.
pub proof fn law_empty_request_needs_no_read(
    start: nat,
    attempts: Seq<Attempt>,
    can: spec_fn(nat, Attempt) -> bool,
)
    ensures
        FillState::fresh(0, start).step() == Step::Done,
        FillState::fresh(0, start).result() == Some(Ok::<(), ReadError>(())),
        Run::fresh(Seq::empty(), start).replay(attempts) == Run::fresh(Seq::empty(), start),
        issued(Run::fresh(Seq::empty(), start), attempts, can) ==> attempts.len() == 0,
    decreases attempts.len(),
{
    if attempts.len() > 0 {
        law_empty_request_needs_no_read(start, attempts.drop_last(), can);
    }
    if issued(Run::fresh(Seq::empty(), start), attempts, can) {
        law_no_read_is_issued_unless_due(Run::fresh(Seq::empty(), start), attempts, can);
    }
}

/// Reading from a file puts the file's bytes into the buffer, in their
/// order and from the front. It fails only where the file ends, and then
/// with `UnexpectedEof`. While it has not ended, every read that did not
/// fail has brought at least a byte.
pub proof fn law_buffer_follows_the_file(
    file: Seq<u8>,
    buf: Seq<u8>,
    start: nat,
    attempts: Seq<Attempt>,
)
    requires
        reads_from(file, Run::fresh(buf, start), attempts),
    ensures
        ({
            let end = Run::fresh(buf, start).replay(attempts);
            &&& end.wf()
            &&& end.state.len == buf.len()
            &&& end.state.start == start
            &&& end.state.filled <= available(file, start)
            &&& end.done() == span(file, start, end.state.filled)
            &&& end.state.failure matches Some(e) ==> e == ReadError::UnexpectedEof
                && end.state.filled == available(file, start)
            &&& end.state.reading() ==> end.state.filled >= deliveries(attempts)
        }),
    decreases attempts.len(),
{
    let run = Run::fresh(buf, start);
    if attempts.len() > 0 {
        law_buffer_follows_the_file(file, buf, start, attempts.drop_last());
        let before = run.replay(attempts.drop_last());
        let a = attempts.last();
        let end = before.apply(a);
        assert(end == run.replay(attempts));
        if before.admits(a) {
            match a.outcome {
                Ok(n) => {
                    if n > 0 {
                        assert(end.done() =~= before.done() + a.window.take(n as int));
                        assert(span(file, start, end.state.filled) =~= span(
                            file,
                            start,
                            before.state.filled,
                        ) + span(file, before.state.position(), n as nat));
                    } else {
                        assert(end.done() =~= before.done());
                    }
                },
                Err(_) => {
                    assert(end.done() =~= before.done());
                },
            }
        }
    } else {
        assert(run.done() =~= span(file, start, 0));
    }
}

/// Where the file holds all the bytes that were asked for, reading from it
/// never fails, has ended once as many reads as the buffer has bytes have
/// come back without failing, and ends with the buffer equal to the file's
/// bytes from the offset on.
pub proof fn law_enough_data_fills_the_buffer(
    file: Seq<u8>,
    buf: Seq<u8>,
    start: nat,
    attempts: Seq<Attempt>,
)
    requires
        start + buf.len() <= file.len(),
        reads_from(file, Run::fresh(buf, start), attempts),
    ensures
        ({
            let end = Run::fresh(buf, start).replay(attempts);
            &&& end.state.failure is None
            &&& deliveries(attempts) >= buf.len() ==> end.state.result() is Some
            &&& end.state.result() is Some ==> {
                &&& end.state.result() == Some(Ok::<(), ReadError>(()))
                &&& end.buf == file.subrange(start as int, start + buf.len() as int)
            }
        }),
{
    law_buffer_follows_the_file(file, buf, start, attempts);
    let end = Run::fresh(buf, start).replay(attempts);
    if end.state.result() is Some {
        assert(end.done() =~= end.buf);
        assert(span(file, start, buf.len()) =~= file.subrange(
            start as int,
            start + buf.len() as int,
        ));
    }
}

/// Where the file ends before the bytes that were asked for, reading from
/// it never succeeds: it has ended once more reads than the file has bytes
/// to give have come back without failing, and it ends with
/// `UnexpectedEof`. The bytes that the file did hold are then in place at
/// the front of the buffer.
pub proof fn law_short_data_fails(
    file: Seq<u8>,
    buf: Seq<u8>,
    start: nat,
    attempts: Seq<Attempt>,
)
    requires
        available(file, start) < buf.len(),
        reads_from(file, Run::fresh(buf, start), attempts),
    ensures
        ({
            let end = Run::fresh(buf, start).replay(attempts);
            &&& deliveries(attempts) > available(file, start) ==> end.state.result() is Some
            &&& end.state.result() is Some ==> {
                &&& end.state.result() == Some(Err::<(), ReadError>(ReadError::UnexpectedEof))
                &&& end.state.filled == available(file, start)
                &&& end.done() == span(file, start, available(file, start))
            }
        }),
{
    law_buffer_follows_the_file(file, buf, start, attempts);
}

} // verus!
