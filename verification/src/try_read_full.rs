//! Reading as many bytes as a buffer can take.

use crate::protocol::{ReadOutcome, Step};
use crate::trace::{
    lemma_completed_run_holds_content, lemma_end_of_input_completes, lemma_serves_fits,
    lemma_unfinished_run_used_its_script, placed, run, serves, Attempt,
};
use crate::transfer::{Completed, Transfer};
use crate::window::range_mut;
use vstd::math::min;
use vstd::prelude::*;

verus! {

/// An operation that reads as many bytes as possible into a buffer.
///
/// Created by [`try_read_full`].
#[derive(Debug)]
pub struct TryReadFull<A> {
    state: State<A>,
}

#[derive(Debug)]
enum State<A> {
    Reading { a: A, buf: Vec<u8>, pos: usize },
    Empty,
}

/// Creates an operation that will read from `a` into `buf` until the buffer
/// is full or the stream has reached end of input.
///
/// The operation completes with the stream handle, the buffer, and the
/// number of bytes placed. A stream failure discards handle and buffer and
/// yields the error.
pub fn try_read_full<A>(a: A, buf: Vec<u8>) -> (op: TryReadFull<A>)
    ensures
        op@ == (Transfer::Active { stream: a, buf: buf@, cursor: 0, target: buf@.len() }),
        op@.wf(),
{
    TryReadFull { state: State::Reading { a, buf, pos: 0 } }
}

impl<A> TryReadFull<A> {
    /// The operation as the model sees it; its target is the end of the
    /// buffer.
    pub closed spec fn view(&self) -> Transfer<A> {
        match self.state {
            State::Reading { a, buf, pos } => Transfer::Active {
                stream: a,
                buf: buf@,
                cursor: pos as nat,
                target: buf@.len(),
            },
            State::Empty => Transfer::Consumed,
        }
    }

    /// Whether `step` is the answer `verdict`: the same kind of step, on
    /// completion the same stream handle, a buffer with the same bytes and
    /// the same count, on failure the same error.
    pub open spec fn reports<E>(
        step: Step<(A, Vec<u8>, usize), E>,
        verdict: Step<Completed<A>, E>,
    ) -> bool {
        match verdict {
            Step::Read => step is Read,
            Step::NotReady => step is NotReady,
            Step::Ready(done) => step matches Step::Ready(item) && item.0 == done.stream
                && item.1@ == done.buf && item.2 == done.count,
            Step::Failed(e) => step matches Step::Failed(err) && err == e,
        }
    }

    /// Whether the operation still owns its stream handle and buffer, and so
    /// may be polled. It no longer does once it has completed or failed.
    pub fn is_active(&self) -> (active: bool)
        ensures
            active == (self@ is Active),
    {
        match &self.state {
            State::Reading { .. } => true,
            State::Empty => false,
        }
    }

    /// Lends the stream handle and the window, the buffer from the cursor to
    /// its end, for one read attempt. Whatever the attempt writes lands in
    /// the window; the bytes already placed and the cursor stay as they are.
    pub fn window(&mut self) -> (lent: (&mut A, &mut [u8]))
        requires
            old(self)@.wf(),
            old(self)@ is Active,
        ensures
            *lent.0 == old(self)@->stream,
            lent.1@ == old(self)@.window(),
            final(lent.1)@.len() == lent.1@.len(),
            final(self)@ == old(self)@.lend(*final(lent.0), final(lent.1)@),
            final(self)@.wf(),
    {
        match &mut self.state {
            State::Reading { a, buf, pos } => {
                let end = buf.len();
                let slice = range_mut(buf, *pos, end);
                (a, slice)
            },
            State::Empty => vstd::pervasive::unreached(),
        }
    }

    /// Advances the operation. `outcome` is `None` when the operation is
    /// polled afresh, and otherwise what the read attempt reported that the
    /// previous step asked for.
    ///
    /// The answer and the state left behind are those of the model: a failure
    /// or not-ready is passed on at once, end of input completes the
    /// operation where it stands, and as long as the buffer is not full
    /// another read is asked for. On completion the stream handle and the
    /// buffer are handed back with the number of bytes placed; on failure
    /// handle and buffer are dropped.
    pub fn poll<E>(&mut self, outcome: Option<ReadOutcome<E>>) -> (step: Step<
        (A, Vec<u8>, usize),
        E,
    >)
        requires
            old(self)@.wf(),
            old(self)@.accepts(outcome),
        ensures
            final(self)@ == old(self)@.next(outcome),
            Self::reports(step, old(self)@.verdict(outcome)),
            final(self)@.wf(),
    {
        let mut end_of_input = false;
        match outcome {
            Some(ReadOutcome::Failed(e)) => {
                self.state = State::Empty;
                return Step::Failed(e);
            },
            Some(ReadOutcome::NotReady) => {
                return Step::NotReady;
            },
            Some(ReadOutcome::Placed(k)) => {
                match &mut self.state {
                    State::Reading { buf, pos, .. } => {
                        // The sum is within the buffer, whose length is a `usize`.
                        assert(*pos + k <= buf.len());
                        *pos = *pos + k;
                    },
                    State::Empty => {},
                }
                end_of_input = k == 0;
            },
            None => {},
        }
        let wants_more = match &self.state {
            State::Reading { buf, pos, .. } => *pos < buf.len(),
            State::Empty => false,
        };
        if wants_more && !end_of_input {
            return Step::Read;
        }
        let mut state = State::Empty;
        std::mem::swap(&mut self.state, &mut state);
        match state {
            State::Reading { a, buf, pos } => Step::Ready((a, buf, pos)),
            State::Empty => vstd::pervasive::unreached(),
        }
    }
}

/// Against a stream that never fails, a best-effort read does not fail. When
/// it completes, it reports as its count the number of bytes that the stream
/// held, capped at the length of the buffer, and has placed that many bytes
/// of the stream, in order, at the front of the buffer. It does complete once
/// the stream has filled the buffer or has reported end of input.
pub proof fn lemma_best_effort_counts_supply<A, E>(
    a: A,
    buf: Seq<u8>,
    script: Seq<Attempt<A, E>>,
    content: Seq<u8>,
)
    requires
        serves(script, buf.len(), content),
    ensures
        ({
            let start = Transfer::Active { stream: a, buf, cursor: 0, target: buf.len() };
            &&& !(run(start, script).step is Failed)
            &&& run(start, script).step matches Step::Ready(done) ==> {
                &&& done.count == min(content.len() as int, buf.len() as int)
                &&& done.buf.take(done.count as int) == content.take(done.count as int)
                &&& done.buf.len() == buf.len()
            }
            &&& placed(script) >= buf.len() ==> run(start, script).step is Ready
            &&& script.len() > 0 && (script.last().outcome matches ReadOutcome::Placed(k) && k
                == 0) ==> run(start, script).step is Ready
        }),
{
    let start = Transfer::Active { stream: a, buf, cursor: 0, target: buf.len() };
    lemma_completed_run_holds_content(start, script, content);
    lemma_serves_fits(script, buf.len(), content);
    lemma_unfinished_run_used_its_script(start, script);
    if script.len() > 0 && (script.last().outcome matches ReadOutcome::Placed(k) && k == 0) {
        lemma_end_of_input_completes(start, script, content);
    }
}

} // verus!
