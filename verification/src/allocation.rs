//! The forwarding-outcome decision: given a snapshot of reputation and
//! resource state, classify a proposed htlc into a resource bucket or a
//! failure reason.

use vstd::prelude::*;

use crate::htlc::EndorsementSignal;

verus! {

/// The minimum size of the liquidity limit placed on htlcs that use
/// congestion resources. This is in place to prevent smaller channels from
/// having unusably small liquidity limits.
pub const MINIMUM_CONGESTION_SLOT_LIQUIDITY: u64 = 15_000_000;

/// Which side's reputation a forwarding decision takes into account.
#[derive(Clone, Copy, Debug, Eq, PartialEq, Structural)]
pub enum Reputation {
    Incoming,
    Outgoing,
    Bidirectional,
}

/// The recommended action for a htlc forward.
#[derive(Clone, Copy, Debug, Eq, PartialEq, Structural)]
pub enum ForwardingOutcome {
    /// Forward the outgoing htlc with the endorsement signal provided.
    Forward(EndorsementSignal),
    /// Fail the incoming htlc back with the reason provided.
    Fail(FailureReason),
}

/// Why a htlc is failed back rather than forwarded.
#[derive(Clone, Copy, Debug, Eq, PartialEq, Structural)]
pub enum FailureReason {
    /// There is no space in the general resource bucket, so the htlc should
    /// be failed back. It may be retried with endorsement set to gain access
    /// to protected resources.
    NoResources,
    /// The peer has insufficient reputation for the htlc to occupy protected
    /// resources.
    NoReputation,
    /// The upgradable signal has been tampered with so we should fail back
    /// the htlc.
    UpgradableSignalModified,
}

/// The different resource buckets that htlcs can be assigned to.
#[derive(Clone, Copy, Debug, Eq, PartialEq, Structural)]
pub enum ResourceBucketType {
    Protected,
    Congestion,
    General,
}

/// A snapshot of a reputation check for a htlc forward.
#[derive(Clone, Copy, Debug, Eq, PartialEq, Structural)]
pub struct ReputationValues {
    pub reputation: i64,
    pub revenue_threshold: i64,
    pub in_flight_total_risk: u64,
    pub htlc_risk: u64,
}

/// The reputation values used to check both sides of a channel pair.
#[derive(Clone, Copy, Debug, Eq, PartialEq, Structural)]
pub struct ReputationCheck {
    /// Values used to check incoming reputation for the channel pair.
    pub incoming_reputation: ReputationValues,
    /// Values used to check outgoing reputation for the channel pair.
    pub outgoing_reputation: ReputationValues,
}

/// Describes the resources currently used in a bucket.
#[derive(Clone, Copy, Debug, Eq, PartialEq, Structural)]
pub struct BucketResources {
    pub slots_used: u16,
    pub slots_available: u16,
    pub liquidity_used_msat: u64,
    pub liquidity_available_msat: u64,
}

/// A snapshot of the resource values to do a check on a htlc forward.
#[derive(Clone, Copy, Debug, Eq, PartialEq, Structural)]
pub struct ResourceCheck {
    pub general_bucket: BucketResources,
    pub congestion_bucket: BucketResources,
}

/// A snapshot of the incoming and outgoing reputation and resources available
/// for a forward.
#[derive(Clone, Copy, Debug, Eq, PartialEq, Structural)]
pub struct AllocationCheck {
    /// The reputation values used to check the incoming and outgoing
    /// reputation for the htlc proposed.
    pub reputation_check: ReputationCheck,
    /// Indicates whether the incoming channel is eligible to consume
    /// congestion resources.
    pub congestion_eligible: bool,
    /// The resources available on the outgoing channel.
    pub resource_check: ResourceCheck,
}

/// A u64 clamped into the non-negative range of an i64.
pub open spec fn clamp_to_i64(v: u64) -> i64 {
    if v > i64::MAX as u64 {
        i64::MAX
    } else {
        v as i64
    }
}

/// Subtraction on i64 that saturates at the type's bounds.
pub open spec fn sat_sub_i64(a: i64, b: i64) -> i64 {
    if a - b > i64::MAX {
        i64::MAX
    } else if a - b < i64::MIN {
        i64::MIN
    } else {
        (a - b) as i64
    }
}

/// Saturating i64 subtraction, the executable twin of [`sat_sub_i64`].
fn saturating_sub_i64(a: i64, b: i64) -> (r: i64)
    ensures
        r == sat_sub_i64(a, b),
{
    match a.checked_sub(b) {
        Some(v) => v,
        None => {
            if b >= 0 {
                i64::MIN
            } else {
                i64::MAX
            }
        },
    }
}

/// Whether reputation, less the risk already in flight and the risk of the
/// proposed htlc, strictly exceeds the revenue threshold. All subtractions
/// saturate.
pub open spec fn sufficient_reputation_spec(v: ReputationValues) -> bool {
    sat_sub_i64(
        sat_sub_i64(v.reputation, clamp_to_i64(v.in_flight_total_risk)),
        clamp_to_i64(v.htlc_risk),
    ) > v.revenue_threshold
}

impl ReputationValues {
    /// Returns a boolean indicating whether the channel has sufficient
    /// reputation for this htlc to be forwarded.
    pub fn sufficient_reputation(&self) -> (r: bool)
        ensures
            r == sufficient_reputation_spec(*self),
    {
        let in_flight = if self.in_flight_total_risk > i64::MAX as u64 {
            i64::MAX
        } else {
            self.in_flight_total_risk as i64
        };
        let risk = if self.htlc_risk > i64::MAX as u64 {
            i64::MAX
        } else {
            self.htlc_risk as i64
        };
        saturating_sub_i64(saturating_sub_i64(self.reputation, in_flight), risk)
            > self.revenue_threshold
    }
}

/// Whether the side (or sides) of the pair that the scheme selects have
/// sufficient reputation.
pub open spec fn scheme_sufficient_spec(scheme: Reputation, check: AllocationCheck) -> bool {
    match scheme {
        Reputation::Incoming => sufficient_reputation_spec(
            check.reputation_check.incoming_reputation,
        ),
        Reputation::Outgoing => sufficient_reputation_spec(
            check.reputation_check.outgoing_reputation,
        ),
        Reputation::Bidirectional => sufficient_reputation_spec(
            check.reputation_check.incoming_reputation,
        ) && sufficient_reputation_spec(check.reputation_check.outgoing_reputation),
    }
}

impl Reputation {
    /// Applies the scheme to an allocation snapshot: incoming looks at the
    /// incoming side only, outgoing at the outgoing side only, bidirectional
    /// requires both.
    pub fn sufficient_reputation(&self, check: &AllocationCheck) -> (r: bool)
        ensures
            r == scheme_sufficient_spec(*self, *check),
    {
        match self {
            Reputation::Incoming => check.reputation_check.incoming_reputation
                .sufficient_reputation(),
            Reputation::Outgoing => check.reputation_check.outgoing_reputation
                .sufficient_reputation(),
            Reputation::Bidirectional => check.reputation_check.incoming_reputation
                .sufficient_reputation()
                && check.reputation_check.outgoing_reputation.sufficient_reputation(),
        }
    }
}

/// Whether a bucket can take one more htlc of the given amount: the liquidity
/// it already uses plus the htlc may not exceed what is available, and one
/// more slot must be free.
pub open spec fn resources_available_spec(b: BucketResources, htlc_amt_msat: u64) -> bool {
    &&& b.liquidity_used_msat + htlc_amt_msat <= b.liquidity_available_msat
    &&& b.slots_used + 1 <= b.slots_available
}

impl BucketResources {
    /// Checks whether the bucket has a free slot and enough liquidity
    /// headroom for the htlc.
    pub fn resources_available(&self, htlc_amt_msat: u64) -> (r: bool)
        ensures
            r == resources_available_spec(*self, htlc_amt_msat),
    {
        if self.liquidity_used_msat > self.liquidity_available_msat {
            return false;
        }
        if htlc_amt_msat > self.liquidity_available_msat - self.liquidity_used_msat {
            return false;
        }
        if self.slots_used >= self.slots_available {
            return false;
        }
        true
    }
}

/// The per-htlc liquidity limit inside the congestion bucket: available
/// liquidity shared equally between slots, floored at
/// [`MINIMUM_CONGESTION_SLOT_LIQUIDITY`]. Only meaningful when a slot is
/// available.
pub open spec fn congestion_slot_limit_spec(c: AllocationCheck) -> int {
    let per_slot = c.resource_check.congestion_bucket.liquidity_available_msat as int
        / c.resource_check.congestion_bucket.slots_available as int;
    if per_slot > MINIMUM_CONGESTION_SLOT_LIQUIDITY {
        per_slot
    } else {
        MINIMUM_CONGESTION_SLOT_LIQUIDITY as int
    }
}

/// When the congestion bucket may take the htlc: the bucket is enabled, the
/// general bucket is full, the incoming channel is eligible, the bucket has
/// aggregate headroom, and the amount fits the equal-share-per-slot limit.
pub open spec fn congestion_available_spec(c: AllocationCheck, htlc_amt_msat: u64) -> bool {
    &&& c.resource_check.congestion_bucket.slots_available != 0
    &&& c.resource_check.congestion_bucket.liquidity_available_msat != 0
    &&& !resources_available_spec(c.resource_check.general_bucket, htlc_amt_msat)
    &&& c.congestion_eligible
    &&& resources_available_spec(c.resource_check.congestion_bucket, htlc_amt_msat)
    &&& htlc_amt_msat <= congestion_slot_limit_spec(c)
}

/// The bucket assignment or failure reason for a htlc, as a function of the
/// snapshot: the decision table of the manager.
pub open spec fn decision_spec(
    c: AllocationCheck,
    htlc_amt_msat: u64,
    endorsed: EndorsementSignal,
    upgradable: bool,
    scheme: Reputation,
) -> Result<ResourceBucketType, FailureReason> {
    if endorsed == EndorsementSignal::Endorsed && !upgradable {
        Err(FailureReason::UpgradableSignalModified)
    } else if endorsed == EndorsementSignal::Endorsed {
        if scheme_sufficient_spec(scheme, c) {
            Ok(ResourceBucketType::Protected)
        } else if congestion_available_spec(c, htlc_amt_msat) {
            Ok(ResourceBucketType::Congestion)
        } else if scheme == Reputation::Incoming {
            if resources_available_spec(c.resource_check.general_bucket, htlc_amt_msat) {
                Ok(ResourceBucketType::General)
            } else {
                Err(FailureReason::NoResources)
            }
        } else {
            Err(FailureReason::NoReputation)
        }
    } else {
        if scheme_sufficient_spec(scheme, c) && upgradable {
            Ok(ResourceBucketType::Protected)
        } else if resources_available_spec(c.resource_check.general_bucket, htlc_amt_msat) {
            Ok(ResourceBucketType::General)
        } else {
            Err(FailureReason::NoResources)
        }
    }
}

/// The signal a bucket decision is forwarded with: protected traffic is
/// endorsed downstream, general and congestion traffic is not.
pub open spec fn outcome_spec(
    c: AllocationCheck,
    htlc_amt_msat: u64,
    endorsed: EndorsementSignal,
    upgradable: bool,
    scheme: Reputation,
) -> ForwardingOutcome {
    match decision_spec(c, htlc_amt_msat, endorsed, upgradable, scheme) {
        Ok(ResourceBucketType::Protected) => ForwardingOutcome::Forward(
            EndorsementSignal::Endorsed,
        ),
        Ok(_) => ForwardingOutcome::Forward(EndorsementSignal::Unendorsed),
        Err(reason) => ForwardingOutcome::Fail(reason),
    }
}

impl AllocationCheck {
    /// The recommended action to be taken for the htlc forward.
    pub fn forwarding_outcome(
        &self,
        htlc_amt_msat: u64,
        incoming_endorsed: EndorsementSignal,
        incoming_upgradable: bool,
        reputation_check: Reputation,
    ) -> (r: ForwardingOutcome)
        ensures
            r == outcome_spec(
                *self,
                htlc_amt_msat,
                incoming_endorsed,
                incoming_upgradable,
                reputation_check,
            ),
    {
        match self.inner_forwarding_outcome(
            htlc_amt_msat,
            incoming_endorsed,
            incoming_upgradable,
            reputation_check,
        ) {
            Ok(bucket) => match bucket {
                ResourceBucketType::General => ForwardingOutcome::Forward(
                    EndorsementSignal::Unendorsed,
                ),
                ResourceBucketType::Congestion => ForwardingOutcome::Forward(
                    EndorsementSignal::Unendorsed,
                ),
                ResourceBucketType::Protected => ForwardingOutcome::Forward(
                    EndorsementSignal::Endorsed,
                ),
            },
            Err(fail_reason) => ForwardingOutcome::Fail(fail_reason),
        }
    }

    /// Returns the bucket assignment or failure reason for a htlc, evaluating
    /// the decision table in order.
    pub fn inner_forwarding_outcome(
        &self,
        htlc_amt_msat: u64,
        incoming_endorsed: EndorsementSignal,
        incoming_upgradable: bool,
        reputation_check: Reputation,
    ) -> (r: Result<ResourceBucketType, FailureReason>)
        ensures
            r == decision_spec(
                *self,
                htlc_amt_msat,
                incoming_endorsed,
                incoming_upgradable,
                reputation_check,
            ),
    {
        if !incoming_upgradable && incoming_endorsed == EndorsementSignal::Endorsed {
            return Err(FailureReason::UpgradableSignalModified);
        }

        match incoming_endorsed {
            EndorsementSignal::Endorsed => {
                if reputation_check.sufficient_reputation(self) {
                    Ok(ResourceBucketType::Protected)
                } else {
                    // If the htlc was endorsed but the peer doesn't have reputation, we
                    // consider giving them a shot at our reserved congestion resources.
                    if self.congestion_resources_available(htlc_amt_msat) {
                        return Ok(ResourceBucketType::Congestion);
                    }

                    // If we are looking at incoming reputation only, we use our general
                    // resources if available because we are not held accountable for the
                    // behavior of downstream nodes. If we are looking at
                    // outgoing/bidirectional reputation, we drop the htlc to protect
                    // against downstream nodes possibly damaging our reputation with our
                    // upstream peer.
                    match reputation_check {
                        Reputation::Incoming => {
                            if self.resource_check.general_bucket.resources_available(
                                htlc_amt_msat,
                            ) {
                                Ok(ResourceBucketType::General)
                            } else {
                                Err(FailureReason::NoResources)
                            }
                        },
                        _ => Err(FailureReason::NoReputation),
                    }
                }
            },
            EndorsementSignal::Unendorsed => {
                if reputation_check.sufficient_reputation(self) && incoming_upgradable {
                    return Ok(ResourceBucketType::Protected);
                }

                if self.resource_check.general_bucket.resources_available(htlc_amt_msat) {
                    Ok(ResourceBucketType::General)
                } else {
                    Err(FailureReason::NoResources)
                }
            },
        }
    }

    /// If our general bucket is full, we'll consider a spot in our
    /// "congestion" bucket for the forward, because it's likely that we're
    /// under attack of some kind. This bucket is very strictly controlled --
    /// liquidity is equally shared between slots (and no htlc can use more
    /// than this allocation).
    pub fn congestion_resources_available(&self, htlc_amt_msat: u64) -> (r: bool)
        ensures
            r == congestion_available_spec(*self, htlc_amt_msat),
    {
        // If the congestion bucket is completely disabled by setting liquidity or
        // slots to zero, resources are not available.
        if self.resource_check.congestion_bucket.slots_available == 0
            || self.resource_check.congestion_bucket.liquidity_available_msat == 0 {
            return false;
        }

        if self.resource_check.general_bucket.resources_available(htlc_amt_msat)
            || !self.congestion_eligible
            || !self.resource_check.congestion_bucket.resources_available(htlc_amt_msat) {
            return false;
        }

        // Divide liquidity in congestion bucket evenly between slots, unless the
        // amount would be less than a reasonable minimum amount.
        let per_slot = self.resource_check.congestion_bucket.liquidity_available_msat
            / (self.resource_check.congestion_bucket.slots_available as u64);
        let liquidity_limit = if per_slot > MINIMUM_CONGESTION_SLOT_LIQUIDITY {
            per_slot
        } else {
            MINIMUM_CONGESTION_SLOT_LIQUIDITY
        };

        htlc_amt_msat <= liquidity_limit
    }
}

/// The signal rule for forwarded htlcs: whenever the decision is to forward,
/// the downstream signal is endorsed exactly when the htlc was admitted to
/// the protected bucket. Together with the record writer, which sets the
/// accountability record exactly for an endorsed signal, this is the wire
/// rule that the accountability TLV is set if and only if the forward uses
/// protected resources.
pub proof fn lemma_forwarded_signal(
    c: AllocationCheck,
    amt: u64,
    endorsed: EndorsementSignal,
    upgradable: bool,
    scheme: Reputation,
)
    ensures
        forall|bucket: ResourceBucketType|
            decision_spec(c, amt, endorsed, upgradable, scheme) == Ok::<
                ResourceBucketType,
                FailureReason,
            >(bucket) ==> (outcome_spec(c, amt, endorsed, upgradable, scheme)
                == ForwardingOutcome::Forward(EndorsementSignal::Endorsed) <==> bucket
                == ResourceBucketType::Protected),
{
}

/// The decision table, row by row: for every snapshot and htlc, the outcome
/// of [`decision_spec`] is exactly what the table of the manager prescribes,
/// and one row applies to every combination of signal, upgradability,
/// reputation and scheme.
pub proof fn lemma_decision_table(
    c: AllocationCheck,
    amt: u64,
    endorsed: EndorsementSignal,
    upgradable: bool,
    scheme: Reputation,
)
    ensures
// An endorsed htlc whose upgradable signal was stripped is failed back.

        endorsed == EndorsementSignal::Endorsed && !upgradable ==> decision_spec(
            c,
            amt,
            endorsed,
            upgradable,
            scheme,
        ) == Err::<ResourceBucketType, FailureReason>(FailureReason::UpgradableSignalModified),
        // An endorsed htlc from a peer with sufficient reputation is protected.
        endorsed == EndorsementSignal::Endorsed && upgradable && scheme_sufficient_spec(scheme, c)
            ==> decision_spec(c, amt, endorsed, upgradable, scheme) == Ok::<
            ResourceBucketType,
            FailureReason,
        >(ResourceBucketType::Protected),
        // An endorsed htlc without reputation takes a congestion slot when one is open to it.
        endorsed == EndorsementSignal::Endorsed && upgradable && !scheme_sufficient_spec(scheme, c)
            && congestion_available_spec(c, amt) ==> decision_spec(
            c,
            amt,
            endorsed,
            upgradable,
            scheme,
        ) == Ok::<ResourceBucketType, FailureReason>(ResourceBucketType::Congestion),
        // Under the incoming scheme it falls back to the general bucket when there is room.
        endorsed == EndorsementSignal::Endorsed && upgradable && !scheme_sufficient_spec(scheme, c)
            && !congestion_available_spec(c, amt) && scheme == Reputation::Incoming
            && resources_available_spec(c.resource_check.general_bucket, amt) ==> decision_spec(
            c,
            amt,
            endorsed,
            upgradable,
            scheme,
        ) == Ok::<ResourceBucketType, FailureReason>(ResourceBucketType::General),
        // Under the outgoing or bidirectional schemes it is dropped for lack of reputation.
        endorsed == EndorsementSignal::Endorsed && upgradable && !scheme_sufficient_spec(scheme, c)
            && !congestion_available_spec(c, amt) && scheme != Reputation::Incoming
            ==> decision_spec(c, amt, endorsed, upgradable, scheme) == Err::<
            ResourceBucketType,
            FailureReason,
        >(FailureReason::NoReputation),
        // Under the incoming scheme with the general bucket full it is failed for resources.
        endorsed == EndorsementSignal::Endorsed && upgradable && !scheme_sufficient_spec(scheme, c)
            && !congestion_available_spec(c, amt) && scheme == Reputation::Incoming
            && !resources_available_spec(c.resource_check.general_bucket, amt) ==> decision_spec(
            c,
            amt,
            endorsed,
            upgradable,
            scheme,
        ) == Err::<ResourceBucketType, FailureReason>(FailureReason::NoResources),
        // An unendorsed htlc from a reputable peer is opportunistically upgraded.
        endorsed == EndorsementSignal::Unendorsed && upgradable && scheme_sufficient_spec(
            scheme,
            c,
        ) ==> decision_spec(c, amt, endorsed, upgradable, scheme) == Ok::<
            ResourceBucketType,
            FailureReason,
        >(ResourceBucketType::Protected),
        // Otherwise an unendorsed htlc goes to the general bucket when there is room.
        endorsed == EndorsementSignal::Unendorsed && !(upgradable && scheme_sufficient_spec(
            scheme,
            c,
        )) && resources_available_spec(c.resource_check.general_bucket, amt) ==> decision_spec(
            c,
            amt,
            endorsed,
            upgradable,
            scheme,
        ) == Ok::<ResourceBucketType, FailureReason>(ResourceBucketType::General),
        // And is failed back for resources when the general bucket is full.
        endorsed == EndorsementSignal::Unendorsed && !(upgradable && scheme_sufficient_spec(
            scheme,
            c,
        )) && !resources_available_spec(c.resource_check.general_bucket, amt) ==> decision_spec(
            c,
            amt,
            endorsed,
            upgradable,
            scheme,
        ) == Err::<ResourceBucketType, FailureReason>(FailureReason::NoResources),
{
}

} // verus!
