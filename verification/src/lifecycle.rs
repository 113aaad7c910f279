//! Error taxonomy of the connection lifecycle, and the policy that
//! classifies each failure before the caller decides to retry, skip, or
//! give up. The transport work itself — connecting, writing, reading —
//! belongs to the I/O shell; only the classification is core logic.

use vstd::prelude::*;

use crate::network::Reason;

verus! {

/// Every failure a session or frame-sync exchange can surface.
#[derive(Clone, Copy, Debug, PartialEq, Eq, Structural)]
pub enum SyncError {
    /// Decode-time structural failure: the connection that carried the
    /// bytes can no longer be trusted.
    MalformedMessage,
    /// An expected application-level outcome of a session request.
    Rejected(Reason),
    /// The blocking connect could not reach the server.
    ConnectFailed,
    /// A write on the stream failed.
    WriteFailed,
    /// A read on the stream failed or returned zero bytes.
    ReadFailed,
    /// A round trip exceeded its configured deadline.
    TimedOut,
}

/// What the client does about a failure.
#[derive(Clone, Copy, Debug, PartialEq, Eq, Structural)]
pub enum Recovery {
    /// Discard the connection, connect anew, and retry the same exchange.
    ReconnectAndRetry,
    /// Surface the server's explanation to the user, then replace the
    /// connection before any further request.
    SurfaceToUser,
    /// Skip this frame's round trip and carry on with the next frame.
    SkipFrame,
    /// Give up and report to the operator.
    Fatal,
}

/// How each failure is recovered from. A torn or untrustworthy connection
/// is replaced and the exchange retried; a rejection is the user's to see;
/// a timeout costs one frame, never the whole client; only an unreachable
/// server ends the run.
pub open spec fn spec_classify(e: SyncError) -> Recovery {
    match e {
        SyncError::MalformedMessage => Recovery::ReconnectAndRetry,
        SyncError::Rejected(_) => Recovery::SurfaceToUser,
        SyncError::ConnectFailed => Recovery::Fatal,
        SyncError::WriteFailed => Recovery::ReconnectAndRetry,
        SyncError::ReadFailed => Recovery::ReconnectAndRetry,
        SyncError::TimedOut => Recovery::SkipFrame,
    }
}

/// Classifies a failure exactly as [`spec_classify`] says.
pub fn classify(e: SyncError) -> (r: Recovery)
    ensures
        r == spec_classify(e),
{
    match e {
        SyncError::MalformedMessage => Recovery::ReconnectAndRetry,
        SyncError::Rejected(_) => Recovery::SurfaceToUser,
        SyncError::ConnectFailed => Recovery::Fatal,
        SyncError::WriteFailed => Recovery::ReconnectAndRetry,
        SyncError::ReadFailed => Recovery::ReconnectAndRetry,
        SyncError::TimedOut => Recovery::SkipFrame,
    }
}

} // verus!
