//! Reading exactly `n` bytes into a buffer.

use crate::protocol::{ReadOutcome, Step};
use crate::trace::{
    lemma_completed_run_holds_content, lemma_end_of_input_completes, lemma_serves_fits,
    lemma_unfinished_run_used_its_script, placed, run, serves, Attempt,
};
use crate::transfer::{Completed, Transfer};
use crate::window::range_mut;
use vstd::prelude::*;

verus! {

/// An operation that reads exactly `n` bytes into a buffer, unless the stream
/// ends first.
///
/// Created by [`read_n`].
#[derive(Debug)]
pub struct ReadN<A> {
    state: State<A>,
}

#[derive(Debug)]
enum State<A> {
    Reading { a: A, buf: Vec<u8>, pos: usize, n: usize },
    Empty,
}

/// Creates an operation that will read exactly `n` bytes from `a` into the
/// front of `buf`.
///
/// The operation completes with the stream handle and the buffer once `n`
/// bytes have been placed or the stream has reached end of input, whichever
/// comes first. A stream failure discards both and yields the error.
pub fn read_n<A>(a: A, buf: Vec<u8>, n: usize) -> (op: ReadN<A>)
    requires
        n <= buf@.len(),
    ensures
        op@ == (Transfer::Active { stream: a, buf: buf@, cursor: 0, target: n as nat }),
        op@.wf(),
{
    ReadN { state: State::Reading { a, buf, pos: 0, n } }
}

impl<A> ReadN<A> {
    /// The operation as the model sees it.
    pub closed spec fn view(&self) -> Transfer<A> {
        match self.state {
            State::Reading { a, buf, pos, n } => Transfer::Active {
                stream: a,
                buf: buf@,
                cursor: pos as nat,
                target: n as nat,
            },
            State::Empty => Transfer::Consumed,
        }
    }

    /// Whether `step` is the answer `verdict`: the same kind of step, on
    /// completion the same stream handle and a buffer with the same bytes, on
    /// failure the same error.
    pub open spec fn reports<E>(
        step: Step<(A, Vec<u8>), E>,
        verdict: Step<Completed<A>, E>,
    ) -> bool {
        match verdict {
            Step::Read => step is Read,
            Step::NotReady => step is NotReady,
            Step::Ready(done) => step matches Step::Ready(item) && item.0 == done.stream
                && item.1@ == done.buf,
            Step::Failed(e) => step matches Step::Failed(err) && err == e,
        }
    }

    /// Whether the operation still owns its stream handle and buffer, and so
    /// may be polled. It no longer does once it has completed or failed.
    pub fn is_active(&self) -> (active: bool)
        ensures
            active == (self@ is Active),
    {
        match &self.state {
            State::Reading { .. } => true,
            State::Empty => false,
        }
    }

    /// Lends the stream handle and the window, the buffer from the cursor up
    /// to `n`, for one read attempt. Whatever the attempt writes lands in the
    /// window; the bytes already placed and the cursor stay as they are.
    pub fn window(&mut self) -> (lent: (&mut A, &mut [u8]))
        requires
            old(self)@.wf(),
            old(self)@ is Active,
        ensures
            *lent.0 == old(self)@->stream,
            lent.1@ == old(self)@.window(),
            final(lent.1)@.len() == lent.1@.len(),
            final(self)@ == old(self)@.lend(*final(lent.0), final(lent.1)@),
            final(self)@.wf(),
    {
        match &mut self.state {
            State::Reading { a, buf, pos, n } => {
                let slice = range_mut(buf, *pos, *n);
                (a, slice)
            },
            State::Empty => vstd::pervasive::unreached(),
        }
    }

    /// Advances the operation. `outcome` is `None` when the operation is
    /// polled afresh, and otherwise what the read attempt reported that the
    /// previous step asked for.
    ///
    /// The answer and the state left behind are those of the model: a failure
    /// or not-ready is passed on at once, end of input completes the
    /// operation short of `n`, and as long as fewer than `n` bytes are placed
    /// another read is asked for. On completion the stream handle and the
    /// buffer are handed back; on failure both are dropped.
    pub fn poll<E>(&mut self, outcome: Option<ReadOutcome<E>>) -> (step: Step<(A, Vec<u8>), E>)
        requires
            old(self)@.wf(),
            old(self)@.accepts(outcome),
        ensures
            final(self)@ == old(self)@.next(outcome),
            Self::reports(step, old(self)@.verdict(outcome)),
            final(self)@.wf(),
    {
        let mut end_of_input = false;
        match outcome {
            Some(ReadOutcome::Failed(e)) => {
                self.state = State::Empty;
                return Step::Failed(e);
            },
            Some(ReadOutcome::NotReady) => {
                return Step::NotReady;
            },
            Some(ReadOutcome::Placed(k)) => {
                match &mut self.state {
                    State::Reading { pos, .. } => {
                        *pos = *pos + k;
                    },
                    State::Empty => {},
                }
                end_of_input = k == 0;
            },
            None => {},
        }
        let wants_more = match &self.state {
            State::Reading { pos, n, .. } => *pos < *n,
            State::Empty => false,
        };
        if wants_more && !end_of_input {
            return Step::Read;
        }
        let mut state = State::Empty;
        std::mem::swap(&mut self.state, &mut state);
        match state {
            State::Reading { a, buf, .. } => Step::Ready((a, buf)),
            State::Empty => vstd::pervasive::unreached(),
        }
    }
}

/// Against a stream that never fails and holds at least `n` bytes, an exact
/// read that completes has placed exactly `n` bytes: the first `n` bytes of
/// the stream, in order, at the front of the buffer, with the rest of the
/// buffer untouched. It does complete once the stream has given `n` bytes.
pub proof fn lemma_exact_read_reaches_target<A, E>(
    a: A,
    buf: Seq<u8>,
    n: nat,
    script: Seq<Attempt<A, E>>,
    content: Seq<u8>,
)
    requires
        n <= buf.len(),
        n <= content.len(),
        serves(script, n, content),
    ensures
        ({
            let start = Transfer::Active { stream: a, buf, cursor: 0, target: n };
            &&& run(start, script).step matches Step::Ready(done) ==> {
                &&& done.count == n
                &&& done.buf.take(n as int) == content.take(n as int)
                &&& done.buf.skip(n as int) == buf.skip(n as int)
                &&& done.buf.len() == buf.len()
            }
            &&& placed(script) >= n ==> run(start, script).step is Ready
        }),
{
    let start = Transfer::Active { stream: a, buf, cursor: 0, target: n };
    lemma_completed_run_holds_content(start, script, content);
    lemma_serves_fits(script, n, content);
    lemma_unfinished_run_used_its_script(start, script);
}

/// Against a stream that never fails and ends after fewer than `n` bytes, an
/// exact read does not fail. When it completes it has placed all the bytes
/// of the stream, in order, and no more; and it does complete once the stream
/// has reported end of input.
pub proof fn lemma_exact_read_stops_at_end_of_input<A, E>(
    a: A,
    buf: Seq<u8>,
    n: nat,
    script: Seq<Attempt<A, E>>,
    content: Seq<u8>,
)
    requires
        n <= buf.len(),
        content.len() < n,
        serves(script, n, content),
    ensures
        ({
            let start = Transfer::Active { stream: a, buf, cursor: 0, target: n };
            &&& !(run(start, script).step is Failed)
            &&& run(start, script).step matches Step::Ready(done) ==> {
                &&& done.count == content.len()
                &&& done.buf.take(done.count as int) == content
                &&& done.buf.len() == buf.len()
            }
            &&& script.len() > 0 && (script.last().outcome matches ReadOutcome::Placed(k) && k
                == 0) ==> run(start, script).step is Ready
        }),
{
    let start = Transfer::Active { stream: a, buf, cursor: 0, target: n };
    lemma_completed_run_holds_content(start, script, content);
    assert(content.take(content.len() as int) =~= content);
    if script.len() > 0 && (script.last().outcome matches ReadOutcome::Placed(k) && k == 0) {
        lemma_end_of_input_completes(start, script, content);
    }
}

} // verus!
