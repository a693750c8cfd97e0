//! Resumable reads into a caller-supplied buffer.
//!
//! Two operations are provided. [`read_n`] fills the first `n` bytes of a
//! buffer, [`try_read_full`] fills as much of a buffer as the stream can
//! supply and reports how much that was. Both stop early, without an error,
//! when the stream reaches end of input.
//!
//! Neither operation touches the stream itself. An operation owns the stream
//! handle and the buffer, decides what has to happen next, and is told what
//! each read attempt reported: the driver lends the handle and the unfilled
//! part of the buffer through `window`, performs one read, and passes the
//! outcome to `poll`. A stream that is not ready suspends the operation
//! without losing a byte; the next `poll` resumes it where it stopped.

pub mod protocol;
pub mod read_lim;
pub mod trace;
pub mod transfer;
pub mod try_read_full;
mod window;

pub use protocol::{ReadOutcome, Step};
pub use read_lim::{read_n, ReadN};
pub use transfer::{Completed, Transfer};
pub use try_read_full::{try_read_full, TryReadFull};
