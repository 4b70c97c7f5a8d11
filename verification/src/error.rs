//! The error kinds a protocol operation can surface.

use vstd::prelude::*;

verus! {

/// Every failure of a protocol operation is one of these kinds. All errors are
/// local and synchronous: the operation that returns one has made no change to
/// the bridge state.
#[derive(Clone, Copy, Debug, PartialEq, Eq, Structural)]
pub enum ErrorCode {
    /// The bridge is paused; no new outbound transfer may start.
    ProgramPaused,
    /// The asset already has an open outbound transfer.
    NftAlreadyLocked,
    /// The caller is not the configured authority.
    UnauthorizedAccess,
    /// An inbound callback came from a principal other than the configured
    /// gateway.
    InvalidCaller,
    /// The message payload is malformed, or a message could not be formed.
    InvalidMessage,
    /// The sender does not hold exactly one unit of the local token.
    InsufficientBalance,
    /// No outbound transfer exists for the given asset and initiator.
    NotFound,
    /// The outbound transfer was already completed or reverted.
    AlreadyCompleted,
}

} // verus!
