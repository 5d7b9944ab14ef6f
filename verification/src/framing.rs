//! The decisions of a loop that reads frames from a byte stream into a
//! buffer.  The loop itself, with its reads, belongs to the caller.

use vstd::prelude::*;

verus! {

/// What a reading loop does after a read from the stream.
#[derive(Clone, Copy, Debug, PartialEq, Eq, Structural)]
pub enum ReadStep {
    /// Bytes arrived: try again to take a frame from the buffer.
    Parse,
    /// The peer closed the stream between two frames: there is no further
    /// frame, and nothing is wrong.
    Closed,
    /// The peer closed the stream in the middle of a frame.
    Reset,
}

/// How the end of a stream shows: a read that returns no byte.  It is clean
/// if nothing is left in the buffer, and a reset if part of a frame is.
pub open spec fn read_step(received: usize, buffered: usize) -> ReadStep {
    if received > 0 {
        ReadStep::Parse
    } else if buffered == 0 {
        ReadStep::Closed
    } else {
        ReadStep::Reset
    }
}

/// Decides how a reading loop goes on after a read that returned `received`
/// bytes and left `buffered` bytes in the buffer.
pub fn after_read(received: usize, buffered: usize) -> (step: ReadStep)
    ensures
        step == read_step(received, buffered),
{
    if received > 0 {
        ReadStep::Parse
    } else if buffered == 0 {
        ReadStep::Closed
    } else {
        ReadStep::Reset
    }
}

} // verus!
