use vstd::prelude::*;

verus! {

/// Failure taxonomy of the client.
///
/// Construction- and connect-time failures propagate to the caller;
/// malformed inbound frames are recovered from locally (the frame is
/// skipped) and never surface as an `Error` value during the receive loop.
#[derive(Clone, Copy, Debug, PartialEq, Eq, Structural)]
pub enum Error {
    /// Transport-level connect, send or read failure.
    ConnectionError,
    /// Malformed URL at socket construction.
    ParseError,
    /// Inbound text that is not a structured wire frame.
    DecodeError,
    /// Unsubscribe for an event with no matching listener.
    NotFoundError,
}

} // verus!
