//! The ways in which decoding or the handshake can fail.

use vstd::prelude::*;

verus! {

/// Why an operation of this library gave up.
///
/// Every failure is final for the call that reports it: nothing in the
/// library retries, and after any of them the connection or snapshot at hand
/// should be treated as unusable.
#[derive(Debug, Clone, Copy, PartialEq, Eq, Structural)]
pub enum RedisSyncError {
    /// The byte source ended, or the transport failed, before the value was complete.
    Disconnect,
    /// The bytes on the wire do not follow the request/response grammar:
    /// an unknown type tag, a missing CR LF, a number or text that does not parse.
    Framing,
    /// The peer refused the handshake or answered it with the wrong kind of value.
    Handshake,
    /// A snapshot entry is malformed: a back-reference out of bounds, an
    /// unsupported integer width, or compact-encoding data that stops short.
    Encoding,
    /// A byte count was asked for although no measurement had been started.
    NotMarked,
    /// The replication offset would leave the range of a signed 64-bit number.
    Overflow,
}

impl RedisSyncError {
    /// A short, fixed description of the failure.
    pub fn message(&self) -> (text: &'static str)
        ensures
            text@ == match *self {
                RedisSyncError::Disconnect => "disconnected"@,
                RedisSyncError::Framing => "malformed frame"@,
                RedisSyncError::Handshake => "handshake rejected"@,
                RedisSyncError::Encoding => "malformed snapshot entry"@,
                RedisSyncError::NotMarked => "not marked"@,
                RedisSyncError::Overflow => "replication offset out of range"@,
            },
    {
        match self {
            RedisSyncError::Disconnect => "disconnected",
            RedisSyncError::Framing => "malformed frame",
            RedisSyncError::Handshake => "handshake rejected",
            RedisSyncError::Encoding => "malformed snapshot entry",
            RedisSyncError::NotMarked => "not marked",
            RedisSyncError::Overflow => "replication offset out of range",
        }
    }
}

/// Whether an executable outcome `got` is the outcome `want`: the same
/// failure, or a value that stands for the same thing.
pub open spec fn same<T: View>(got: Result<T, RedisSyncError>, want: Result<T::V, RedisSyncError>) -> bool {
    match (got, want) {
        (Ok(value), Ok(model)) => value@ == model,
        (Err(e), Err(w)) => e == w,
        _ => false,
    }
}

} // verus!
