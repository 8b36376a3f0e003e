use ln_resource_mgr::allocation::{
    AllocationCheck, BucketResources, FailureReason, ForwardingOutcome, Reputation,
    ReputationCheck, ReputationValues, ResourceBucketType, ResourceCheck,
    MINIMUM_CONGESTION_SLOT_LIQUIDITY,
};
use ln_resource_mgr::htlc::EndorsementSignal;

/// Returns an AllocationCheck which is eligible for congestion resources.
fn test_congestion_check() -> AllocationCheck {
    let reputation_values = ReputationValues {
        reputation: 0,
        revenue_threshold: 0,
        in_flight_total_risk: 0,
        htlc_risk: 0,
    };

    let check = AllocationCheck {
        reputation_check: ReputationCheck {
            incoming_reputation: reputation_values.clone(),
            outgoing_reputation: reputation_values,
        },
        congestion_eligible: true,
        resource_check: ResourceCheck {
            general_bucket: BucketResources {
                slots_used: 10,
                slots_available: 10,
                liquidity_used_msat: 0,
                liquidity_available_msat: 200_000,
            },
            congestion_bucket: BucketResources {
                slots_used: 0,
                slots_available: 10,
                liquidity_used_msat: 0,
                liquidity_available_msat: MINIMUM_CONGESTION_SLOT_LIQUIDITY * 20,
            },
        },
    };
    assert!(check.congestion_resources_available(10));
    check
}

#[test]
fn test_congestion_not_eligible() {
    let mut check = test_congestion_check();
    check.congestion_eligible = false;
    assert!(!check.congestion_resources_available(100));
}

#[test]
fn test_congestion_general_available() {
    let mut check = test_congestion_check();
    check.resource_check.general_bucket.slots_used = 0;
    assert!(!check.congestion_resources_available(100));
}

#[test]
fn test_congestion_bucket_full() {
    let mut check = test_congestion_check();
    check.resource_check.congestion_bucket.slots_used =
        check.resource_check.congestion_bucket.slots_available;
    assert!(!check.congestion_resources_available(100));
}

#[test]
fn test_congestion_htlc_amount() {
    let check = test_congestion_check();
    let htlc_limit = check.resource_check.congestion_bucket.liquidity_available_msat
        / check.resource_check.congestion_bucket.slots_available as u64;

    assert!(check.congestion_resources_available(htlc_limit));
    assert!(!check.congestion_resources_available(htlc_limit + 1));
}

#[test]
fn test_congestion_liquidity() {
    // Set liquidity such that we'll hit our minimum liquidity allowance.
    let mut check = test_congestion_check();
    check.resource_check.congestion_bucket.liquidity_available_msat =
        MINIMUM_CONGESTION_SLOT_LIQUIDITY
            * check.resource_check.congestion_bucket.slots_available as u64 / 2;

    assert!(check.congestion_resources_available(MINIMUM_CONGESTION_SLOT_LIQUIDITY));
    assert!(!check.congestion_resources_available(MINIMUM_CONGESTION_SLOT_LIQUIDITY + 1));
}

#[test]
fn test_inner_forwarding_outcome_congestion() {
    let check = test_congestion_check();

    for scheme in [Reputation::Incoming, Reputation::Outgoing, Reputation::Bidirectional] {
        // Endorsed htlc will be granted access to congestion resources.
        assert!(
            check.inner_forwarding_outcome(10, EndorsementSignal::Endorsed, true, scheme).unwrap()
                == ResourceBucketType::Congestion
        );

        // Unendorsed htlc will not be granted access to congestion resources.
        assert!(
            check
                .inner_forwarding_outcome(10, EndorsementSignal::Unendorsed, true, scheme)
                .err()
                .unwrap()
                == FailureReason::NoResources,
        );
    }
}

#[test]
fn test_inner_forwarding_outcome_reputation() {
    let mut check = test_congestion_check();
    check.reputation_check.outgoing_reputation.reputation = 1000;
    check.resource_check.general_bucket.slots_used = 0;
    check.reputation_check.incoming_reputation.reputation = 1000;

    // Sufficient reputation and endorsed will go in the protected bucket.
    for scheme in [Reputation::Incoming, Reputation::Outgoing, Reputation::Bidirectional] {
        assert!(
            check.inner_forwarding_outcome(10, EndorsementSignal::Endorsed, true, scheme).unwrap()
                == ResourceBucketType::Protected,
        );
    }

    // Unendorsed htlc with sufficient reputation gets upgraded so it goes in
    // the protected bucket.
    assert!(
        check
            .inner_forwarding_outcome(10, EndorsementSignal::Unendorsed, true, Reputation::Bidirectional)
            .unwrap()
            == ResourceBucketType::Protected,
    );
}

#[test]
fn test_inner_forwarding_outcome_partial_reputation() {
    let mut check = test_congestion_check();
    check.reputation_check.outgoing_reputation.reputation = 1000;
    check.resource_check.general_bucket.slots_available = 0;
    check.resource_check.congestion_bucket.slots_available = 0;

    // Require reputation in both directions but only has outgoing.
    assert!(
        check
            .inner_forwarding_outcome(10, EndorsementSignal::Endorsed, true, Reputation::Bidirectional)
            .err()
            .unwrap()
            == FailureReason::NoReputation
    );

    check.reputation_check.incoming_reputation.reputation = 1000;
    check.reputation_check.outgoing_reputation.reputation = 0;

    // Require reputation in both directions but only has incoming.
    assert!(
        check
            .inner_forwarding_outcome(10, EndorsementSignal::Endorsed, true, Reputation::Bidirectional)
            .err()
            .unwrap()
            == FailureReason::NoReputation
    );
}

#[test]
fn test_inner_forwarding_outcome_no_reputation() {
    let mut check = test_congestion_check();
    check.resource_check.general_bucket.slots_used = 0;

    // If the scheme is incoming and the peer does not have reputation the
    // htlc will go to the general bucket.
    assert!(
        check
            .inner_forwarding_outcome(10, EndorsementSignal::Endorsed, true, Reputation::Incoming)
            .unwrap()
            == ResourceBucketType::General
    );

    // If insufficient outgoing/bidirectional reputation and no congestion
    // resources the htlc will fail.
    for scheme in [Reputation::Outgoing, Reputation::Bidirectional] {
        assert!(
            check.inner_forwarding_outcome(10, EndorsementSignal::Endorsed, true, scheme)
                .err()
                .unwrap()
                == FailureReason::NoReputation,
        );
    }

    // Unendorsed htlc with no reputation and available resources goes into
    // the general bucket.
    assert!(
        check
            .inner_forwarding_outcome(10, EndorsementSignal::Unendorsed, true, Reputation::Bidirectional)
            .unwrap()
            == ResourceBucketType::General
    );
}

#[test]
fn test_inner_forwarding_outcome_modified_signal() {
    let check = test_congestion_check();

    // Return an error if the htlc has an endorsement signal but is not
    // marked as upgradable.
    assert!(
        check
            .inner_forwarding_outcome(10, EndorsementSignal::Endorsed, false, Reputation::Bidirectional)
            .err()
            .unwrap()
            == FailureReason::UpgradableSignalModified
    );
}

/// Endorsed forward without reputation under the bidirectional scheme: it is
/// admitted to the congestion bucket while the incoming channel is eligible,
/// and dropped for lack of reputation once it is not.
#[test]
fn test_endorsed_no_reputation_bidirectional() {
    let mut check = test_congestion_check();
    assert_eq!(
        check.inner_forwarding_outcome(10, EndorsementSignal::Endorsed, true, Reputation::Bidirectional),
        Ok(ResourceBucketType::Congestion)
    );
    check.congestion_eligible = false;
    assert_eq!(
        check.inner_forwarding_outcome(10, EndorsementSignal::Endorsed, true, Reputation::Bidirectional),
        Err(FailureReason::NoReputation)
    );
}

/// An unendorsed forward from a reputable peer is upgraded to the protected
/// bucket when the upgradable signal allows it, and goes to the general
/// bucket when it does not.
#[test]
fn test_unendorsed_upgrade() {
    let mut check = test_congestion_check();
    check.reputation_check.incoming_reputation.reputation = 1000;
    check.reputation_check.outgoing_reputation.reputation = 1000;
    check.resource_check.general_bucket.slots_used = 0;

    assert_eq!(
        check.inner_forwarding_outcome(10, EndorsementSignal::Unendorsed, true, Reputation::Bidirectional),
        Ok(ResourceBucketType::Protected)
    );
    assert_eq!(
        check.inner_forwarding_outcome(10, EndorsementSignal::Unendorsed, false, Reputation::Bidirectional),
        Ok(ResourceBucketType::General)
    );
}

/// The forwarding outcome wraps the bucket decision in the signal to send
/// downstream: protected traffic is endorsed, the rest is not.
#[test]
fn test_forwarding_outcome_signals() {
    let mut check = test_congestion_check();
    check.reputation_check.incoming_reputation.reputation = 1000;
    check.reputation_check.outgoing_reputation.reputation = 1000;

    assert_eq!(
        check.forwarding_outcome(10, EndorsementSignal::Endorsed, true, Reputation::Bidirectional),
        ForwardingOutcome::Forward(EndorsementSignal::Endorsed)
    );
    assert_eq!(
        check.forwarding_outcome(10, EndorsementSignal::Endorsed, false, Reputation::Bidirectional),
        ForwardingOutcome::Fail(FailureReason::UpgradableSignalModified)
    );

    let mut no_rep = test_congestion_check();
    no_rep.resource_check.general_bucket.slots_used = 0;
    assert_eq!(
        no_rep.forwarding_outcome(10, EndorsementSignal::Unendorsed, true, Reputation::Bidirectional),
        ForwardingOutcome::Forward(EndorsementSignal::Unendorsed)
    );
}

/// The reputation predicate subtracts in-flight and proposed risk with
/// saturation and compares strictly against the revenue threshold.
#[test]
fn test_sufficient_reputation_arithmetic() {
    let values = ReputationValues {
        reputation: 100,
        revenue_threshold: 49,
        in_flight_total_risk: 30,
        htlc_risk: 20,
    };
    assert!(values.sufficient_reputation());

    let boundary = ReputationValues { revenue_threshold: 50, ..values };
    assert!(!boundary.sufficient_reputation());

    // Risk larger than any i64 clamps to the maximum and wipes out even the
    // best possible reputation.
    let saturated = ReputationValues {
        reputation: i64::MAX,
        revenue_threshold: 0,
        in_flight_total_risk: u64::MAX,
        htlc_risk: u64::MAX,
    };
    assert!(!saturated.sufficient_reputation());
}
