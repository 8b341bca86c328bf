//! Failures of the event loop.
use vstd::prelude::*;

verus! {

/// The kind of a failure.
#[derive(Clone, Copy, Debug, PartialEq, Eq, Structural, Hash)]
pub enum LoopError {
    BrokenPipe,
    ConnectionReset,
    ConnectionAborted,
    UnexpectedEof,
    Other,
}

/// Whether a failure is reported. A client that goes away is none of the compositor's failures;
/// the loop goes on after every failure.
pub fn is_reported(error: LoopError) -> (reported: bool)
    ensures
        reported == (error == LoopError::Other),
{
    match error {
        LoopError::BrokenPipe
        | LoopError::ConnectionReset
        | LoopError::ConnectionAborted
        | LoopError::UnexpectedEof => false,
        LoopError::Other => true,
    }
}

} // verus!
