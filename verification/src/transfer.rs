//! The mathematical model of an operation: what it owns, how far it has
//! come, and how it reacts to a poll.

use crate::protocol::{ReadOutcome, Step};
use vstd::prelude::*;

verus! {

/// The abstract state of an operation.
pub enum Transfer<A> {
    /// The operation owns the stream handle and the buffer. The first
    /// `cursor` bytes of the buffer have been filled; bytes are wanted up to
    /// `target`.
    Active { stream: A, buf: Seq<u8>, cursor: nat, target: nat },
    /// The operation has produced its final result and owns nothing. It must
    /// not be polled again.
    Consumed,
}

/// What a completed operation hands back: the stream handle, the buffer, and
/// the number of bytes placed at the front of the buffer.
pub struct Completed<A> {
    pub stream: A,
    pub buf: Seq<u8>,
    pub count: nat,
}

impl<A> Transfer<A> {
    /// The cursor never passes the target, and the target lies within the
    /// buffer.
    pub open spec fn wf(self) -> bool {
        self is Active ==> self->cursor <= self->target <= self->buf.len()
    }

    /// The bytes placed so far.
    pub open spec fn filled(self) -> Seq<u8>
        recommends
            self is Active,
    {
        self->buf.take(self->cursor as int)
    }

    /// The part of the buffer that the next read attempt may write: from the
    /// cursor up to the target.
    pub open spec fn window(self) -> Seq<u8>
        recommends
            self is Active,
    {
        self->buf.subrange(self->cursor as int, self->target as int)
    }

    /// The state after the stream handle and the window were lent out and
    /// came back as `stream` and `window`. Nothing outside the window moves.
    pub open spec fn lend(self, stream: A, window: Seq<u8>) -> Transfer<A>
        recommends
            self is Active,
            window.len() == self->target - self->cursor,
    {
        Transfer::Active {
            stream,
            buf: self->buf.take(self->cursor as int) + window + self->buf.skip(
                self->target as int,
            ),
            cursor: self->cursor,
            target: self->target,
        }
    }

    /// Whether the operation may be polled with `outcome`: it is active, and
    /// a read cannot have placed more bytes than its window holds.
    pub open spec fn accepts<E>(self, outcome: Option<ReadOutcome<E>>) -> bool {
        &&& self is Active
        &&& outcome matches Some(ReadOutcome::Placed(k)) ==> k <= self->target - self->cursor
    }

    /// Where the cursor stands once `outcome` has been taken in.
    pub open spec fn advanced<E>(self, outcome: Option<ReadOutcome<E>>) -> nat
        recommends
            self is Active,
    {
        match outcome {
            Some(ReadOutcome::Placed(k)) => self->cursor + k as nat,
            _ => self->cursor,
        }
    }

    /// What a poll answers. `None` stands for a fresh poll, before any read
    /// was attempted in it; `Some` carries what the read that the previous
    /// step asked for reported.
    ///
    /// A failure aborts. A stream that is not ready suspends. End of input
    /// completes the operation where the cursor stands, short of the target
    /// or not. Otherwise the operation asks for another read as long as the
    /// cursor is short of the target, and completes when it has reached it.
    pub open spec fn verdict<E>(self, outcome: Option<ReadOutcome<E>>) -> Step<Completed<A>, E>
        recommends
            self is Active,
    {
        let done = Completed {
            stream: self->stream,
            buf: self->buf,
            count: self.advanced(outcome),
        };
        match outcome {
            Some(ReadOutcome::Failed(e)) => Step::Failed(e),
            Some(ReadOutcome::NotReady) => Step::NotReady,
            Some(ReadOutcome::Placed(k)) if k == 0 => Step::Ready(done),
            _ => if self.advanced(outcome) < self->target {
                Step::Read
            } else {
                Step::Ready(done)
            },
        }
    }

    /// The state a poll leaves behind. Asking for a read keeps the operation
    /// active with the cursor moved past the bytes just placed; not-ready
    /// changes nothing; completion and failure consume the operation.
    pub open spec fn next<E>(self, outcome: Option<ReadOutcome<E>>) -> Transfer<A>
        recommends
            self is Active,
    {
        match self.verdict(outcome) {
            Step::Read => Transfer::Active {
                stream: self->stream,
                buf: self->buf,
                cursor: self.advanced(outcome),
                target: self->target,
            },
            Step::NotReady => self,
            Step::Ready(_) => Transfer::Consumed,
            Step::Failed(_) => Transfer::Consumed,
        }
    }
}

} // verus!
