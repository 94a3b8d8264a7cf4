//! One read from standard input, retried when a signal interrupts it.
use vstd::prelude::*;

verus! {

/// What one attempt to read gave.
pub enum ReadOutcome {
    /// This many bytes (none at the end of input).
    Bytes(usize),
    /// The read was interrupted by a signal before any byte came.
    Interrupted,
    /// Any other failure.
    Failed,
}

/// What to do with the outcome of an attempt.
pub enum ReadNext {
    /// Try the same read again.
    Retry,
    /// Hand the outcome to the caller as it is.
    Deliver,
}

/// A single read that transparently retries on EINTR: an interrupted
/// attempt is tried again; any other outcome, bytes or error, is the
/// result.
pub fn read_once(outcome: &ReadOutcome) -> (next: ReadNext)
    ensures
        next is Retry <==> outcome is Interrupted,
{
    match outcome {
        ReadOutcome::Interrupted => ReadNext::Retry,
        _ => ReadNext::Deliver,
    }
}

} // verus!
