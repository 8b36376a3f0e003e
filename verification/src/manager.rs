//! The boundary interfaces of the manager: channel snapshots, the clock
//! capability and the reputation-manager capability that surrounding code
//! consumes. Instants are nanosecond counts.

use vstd::prelude::*;

use std::collections::HashMap;

use crate::allocation::AllocationCheck;
use crate::errors::ReputationError;
use crate::htlc::{ForwardResolution, HtlcRef, ProposedForward};

verus! {

/// Provides a snapshot of the reputation and revenue values tracked for a
/// channel.
#[derive(Clone, Copy, Debug, Eq, PartialEq, Structural)]
pub struct ChannelSnapshot {
    pub capacity_msat: u64,
    pub incoming_reputation: i64,
    pub outgoing_reputation: i64,
    pub bidirectional_revenue: i64,
}

/// Counts of channel pairs that have sufficient reputation, for the target
/// node and for the attacking nodes of a simulated network.
#[derive(Clone, Copy, Debug, Eq, PartialEq, Structural)]
pub struct NetworkReputation {
    pub target_reputation: usize,
    pub target_pair_count: usize,
    pub attacker_reputation: usize,
    pub attacker_pair_count: usize,
}

/// A clock capability: anything that can give the present instant, as a
/// nanosecond count. Real deployments read a monotonic clock; simulations
/// scale one.
pub trait InstantClock {
    fn now(&self) -> u64;
}

/// The reputation-manager capability that external collaborators consume.
pub trait ReputationManager {
    /// Should be called to add a channel to the manager to track its
    /// reputation and revenue; must be called before any other call
    /// references the channel.
    fn add_channel(
        &mut self,
        channel_id: u64,
        capacity_msat: u64,
        add_ins: u64,
        channel_reputation: Option<ChannelSnapshot>,
    ) -> Result<(), ReputationError>;

    /// Called to clean up a channel once it has been closed and is no longer
    /// usable for htlc forwards.
    fn remove_channel(&mut self, channel_id: u64) -> Result<(), ReputationError>;

    /// Returns a forwarding assessment for the proposed htlc based on its
    /// endorsement status and the reputation of the channel pair, without
    /// admitting it.
    fn get_forwarding_outcome(&mut self, forward: &ProposedForward) -> Result<
        AllocationCheck,
        ReputationError,
    >;

    /// Assesses a proposed forward and, when the decision is to forward it,
    /// admits it to the manager's state; it must then be cleared out with
    /// `resolve_htlc`.
    fn add_htlc(&mut self, forward: &ProposedForward) -> Result<AllocationCheck, ReputationError>;

    /// Resolves a htlc previously admitted by `add_htlc`.
    fn resolve_htlc(
        &mut self,
        outgoing_channel: u64,
        incoming_ref: HtlcRef,
        resolution: ForwardResolution,
        resolved_instant: u64,
    ) -> Result<(), ReputationError>;

    /// Provides a snapshot of each channel at the instant provided.
    fn list_channels(&mut self, access_ins: u64) -> Result<
        HashMap<u64, ChannelSnapshot>,
        ReputationError,
    >;
}

} // verus!
