//! Resource and reputation manager for a payment-channel routing node.
//!
//! For each proposed HTLC forward the library decides whether to forward it,
//! into which of three bounded resource buckets it should be admitted on the
//! outgoing channel, and with what accountability signal it should be
//! propagated downstream. Channel state is kept in per-channel buckets whose
//! slot accounting is verified to stay consistent.
//!
//! Time is represented throughout as a plain number of nanoseconds, so that
//! a wall clock, a monotonic clock, or a simulated clock can all drive the
//! library through the same interface.

pub mod allocation;
pub mod bucket;
pub mod errors;
pub mod history;
pub mod htlc;
pub mod inflight;
pub mod manager;
pub mod params;
pub mod records;
pub mod stats;

pub use allocation::{
    AllocationCheck, BucketResources, FailureReason, ForwardingOutcome, Reputation,
    ReputationCheck, ReputationValues, ResourceBucketType, ResourceCheck,
    MINIMUM_CONGESTION_SLOT_LIQUIDITY,
};
pub use bucket::{BucketParameters, GeneralBucket, IncomingChannel, ASSIGNED_SLOTS};
pub use errors::ReputationError;
pub use history::{filter_history, BootstrapForward};
pub use inflight::{resolution_deltas, InFlightHtlc, InFlightTracker};
pub use manager::{ChannelSnapshot, InstantClock, NetworkReputation, ReputationManager};
pub use params::ReputationParams;
pub use records::{
    accountable_from_records, records_from_signal, upgradable_from_records, ACCOUNTABLE_TYPE,
    UPGRADABLE_TYPE,
};
pub use stats::{forward_outcome_str, OutcomeCounts, StatsWriter};
pub use htlc::{
    validate_msat, EndorsementSignal, ForwardResolution, HtlcRef, ProposedForward,
    SUPPLY_CAP_MSAT,
};
