//! The vocabulary shared by an operation and its driver.

use vstd::prelude::*;

verus! {

/// What one read attempt on the stream reported.
#[derive(Debug)]
pub enum ReadOutcome<E> {
    /// The stream placed this many bytes at the front of the window it was
    /// given. Zero bytes mean end of input: nothing more will ever arrive.
    Placed(usize),
    /// The stream has nothing to give right now; the attempt must be
    /// repeated later.
    NotReady,
    /// The stream failed.
    Failed(E),
}

/// What an operation asks of its driver after a poll.
#[derive(Debug)]
pub enum Step<T, E> {
    /// More bytes are wanted: attempt one read into the window and poll
    /// again with its outcome.
    Read,
    /// The stream was not ready. The operation is suspended, unchanged, until
    /// it is polled afresh.
    NotReady,
    /// The operation is complete and hands back what it owned.
    Ready(T),
    /// The operation was aborted by a stream failure; what it owned is gone.
    Failed(E),
}

} // verus!
