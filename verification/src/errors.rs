//! Error taxonomy of the manager.

use vstd::prelude::*;

use crate::htlc::HtlcRef;

verus! {

/// Everything that can go wrong while tracking reputation and resources.
///
/// Instants are carried as nanosecond counts, amounts as millisatoshis.
#[derive(Clone, Debug, PartialEq, Eq)]
pub enum ReputationError {
    /// The library has encountered an unrecoverable internal error.
    ErrUnrecoverable(String),
    /// The incoming channel was not found.
    ErrIncomingNotFound(u64),
    /// The outgoing channel was not found.
    ErrOutgoingNotFound(u64),
    /// The htlc reference provided was not found on the channel given.
    ErrForwardNotFound(u64, HtlcRef),
    /// A decaying average was queried with an instant before its last update;
    /// carries the last-updated instant and the instant given.
    ErrUpdateInPast(u64, u64),
    /// The htlc has been added twice.
    ErrDuplicateHtlc(HtlcRef),
    /// The multiplier on the revenue window is invalid.
    ErrInvalidMultiplier,
    /// The htlc amount exceeds the bitcoin supply cap.
    ErrAmountExceedsSupply(u64),
    /// The htlc has a negative fee; carries the incoming and outgoing amounts.
    ErrNegativeFee(u64, u64),
    /// The htlc has a negative cltv delta; carries the incoming and outgoing
    /// expiry heights.
    ErrNegativeCltvDelta(u32, u32),
    /// The channel has already been added.
    ErrChannelExists(u64),
    /// The channel has already been removed or was never tracked.
    ErrChannelNotFound(u64),
    /// A bucket was asked to free more liquidity than it holds; carries the
    /// amount whose removal was requested.
    ErrBucketTooEmpty(u64),
}

} // verus!
