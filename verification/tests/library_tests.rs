use ln_resource_mgr::errors::ReputationError;
use ln_resource_mgr::history::{filter_history, BootstrapForward};
use ln_resource_mgr::inflight::{resolution_deltas, InFlightHtlc, InFlightTracker};
use ln_resource_mgr::htlc::{
    validate_msat, EndorsementSignal, ForwardResolution, HtlcRef, ProposedForward,
    SUPPLY_CAP_MSAT,
};
use ln_resource_mgr::params::ReputationParams;
use ln_resource_mgr::records::{
    accountable_from_records, records_from_signal, upgradable_from_records, ACCOUNTABLE_TYPE,
    UPGRADABLE_TYPE,
};
use ln_resource_mgr::stats::{forward_outcome_str, StatsWriter};
use ln_resource_mgr::allocation::{
    AllocationCheck, BucketResources, FailureReason, ForwardingOutcome, Reputation,
    ReputationCheck, ReputationValues, ResourceBucketType, ResourceCheck,
};
use std::collections::HashMap;

fn test_forward(amount_in: u64, amount_out: u64, expiry_in: u32, expiry_out: u32) -> ProposedForward {
    ProposedForward {
        incoming_ref: HtlcRef { channel_id: 1, htlc_index: 0 },
        outgoing_channel_id: 2,
        amount_in_msat: amount_in,
        amount_out_msat: amount_out,
        expiry_in_height: expiry_in,
        expiry_out_height: expiry_out,
        added_at: 0,
        incoming_endorsed: EndorsementSignal::Endorsed,
        upgradable_endorsement: true,
    }
}

#[test]
fn test_validate_msat_bounds() {
    assert_eq!(validate_msat(0), Ok(0));
    assert_eq!(validate_msat(SUPPLY_CAP_MSAT), Ok(SUPPLY_CAP_MSAT as i64));
    assert_eq!(
        validate_msat(SUPPLY_CAP_MSAT + 1),
        Err(ReputationError::ErrAmountExceedsSupply(SUPPLY_CAP_MSAT + 1))
    );
}

#[test]
fn test_validate_forward() {
    assert_eq!(test_forward(1000, 990, 100, 90).validate(), Ok(()));
    assert_eq!(
        test_forward(990, 1000, 100, 90).validate(),
        Err(ReputationError::ErrNegativeFee(990, 1000))
    );
    assert_eq!(
        test_forward(1000, 990, 90, 100).validate(),
        Err(ReputationError::ErrNegativeCltvDelta(90, 100))
    );
    assert_eq!(
        test_forward(SUPPLY_CAP_MSAT + 2, SUPPLY_CAP_MSAT + 1, 100, 90).validate(),
        Err(ReputationError::ErrAmountExceedsSupply(SUPPLY_CAP_MSAT + 1))
    );
    assert_eq!(test_forward(1000, 990, 100, 90).fee_msat(), 10);
}

#[test]
fn test_forward_resolution_from_bool() {
    assert_eq!(ForwardResolution::from(true), ForwardResolution::Settled);
    assert_eq!(ForwardResolution::from(false), ForwardResolution::Failed);
}

#[test]
fn test_records_round_trip() {
    let endorsed = records_from_signal(EndorsementSignal::Endorsed);
    assert_eq!(accountable_from_records(&endorsed), EndorsementSignal::Endorsed);
    assert!(upgradable_from_records(&endorsed));

    let unendorsed = records_from_signal(EndorsementSignal::Unendorsed);
    assert_eq!(accountable_from_records(&unendorsed), EndorsementSignal::Unendorsed);
    assert!(upgradable_from_records(&unendorsed));
    assert!(!unendorsed.contains_key(&ACCOUNTABLE_TYPE));
}

#[test]
fn test_records_malformed_values() {
    let mut records: HashMap<u64, Vec<u8>> = HashMap::new();
    assert_eq!(accountable_from_records(&records), EndorsementSignal::Unendorsed);
    assert!(!upgradable_from_records(&records));

    records.insert(ACCOUNTABLE_TYPE, vec![0]);
    records.insert(UPGRADABLE_TYPE, vec![1, 1]);
    assert_eq!(accountable_from_records(&records), EndorsementSignal::Unendorsed);
    assert!(!upgradable_from_records(&records));

    records.insert(ACCOUNTABLE_TYPE, vec![1]);
    records.insert(UPGRADABLE_TYPE, vec![1]);
    assert_eq!(accountable_from_records(&records), EndorsementSignal::Endorsed);
    assert!(upgradable_from_records(&records));
}

#[test]
fn test_reputation_params() {
    let params = ReputationParams {
        revenue_window_secs: 60 * 60 * 24 * 14,
        reputation_multiplier: 12,
        resolution_period_blocks: 90,
    };
    assert_eq!(params.validate(), Ok(()));
    assert_eq!(params.reputation_window_secs(), 60 * 60 * 24 * 14 * 12);

    let invalid = ReputationParams { reputation_multiplier: 0, ..params };
    assert_eq!(invalid.validate(), Err(ReputationError::ErrInvalidMultiplier));
}

#[test]
fn test_opportunity_cost() {
    let params = ReputationParams {
        revenue_window_secs: 1,
        reputation_multiplier: 1,
        resolution_period_blocks: 90,
    };
    assert_eq!(params.opportunity_cost_from_blocks(1000, 90), 1000);
    assert_eq!(params.opportunity_cost_from_blocks(1000, 45), 500);
    assert_eq!(params.opportunity_cost_from_blocks(10, 9), 1);
    assert_eq!(params.opportunity_cost_from_blocks(0, 1000), 0);
    // A product past the representable range saturates.
    assert_eq!(params.opportunity_cost_from_blocks(u64::MAX, u32::MAX), u64::MAX);
}

fn history_record(added_ns: u64, settled_ns: u64) -> BootstrapForward {
    BootstrapForward {
        incoming_amt: 1000,
        outgoing_amt: 990,
        incoming_expiry: 100,
        outgoing_expiry: 90,
        added_ns,
        settled_ns,
        forwarding_node: vec![2u8; 33],
        channel_in_id: 1,
        channel_out_id: 2,
    }
}

#[test]
fn test_filter_history() {
    let history = vec![
        history_record(100, 150),
        history_record(120, 200),
        history_record(150, 260),
        history_record(300, 400),
    ];

    let unfiltered = filter_history(history, None);
    assert_eq!(unfiltered.len(), 4);

    // Cutoff at 100 + 100 = 200: the third record settles past it, and the
    // filter stops at the first record that is out.
    let filtered = filter_history(unfiltered, Some(100));
    assert_eq!(filtered.len(), 2);
    assert_eq!(filtered[0].added_ns, 100);
    assert_eq!(filtered[1].added_ns, 120);

    assert_eq!(filter_history(Vec::new(), Some(100)).len(), 0);
}

fn sample_check() -> AllocationCheck {
    let values = ReputationValues {
        reputation: 0,
        revenue_threshold: 0,
        in_flight_total_risk: 0,
        htlc_risk: 0,
    };
    AllocationCheck {
        reputation_check: ReputationCheck {
            incoming_reputation: values.clone(),
            outgoing_reputation: values,
        },
        congestion_eligible: false,
        resource_check: ResourceCheck {
            general_bucket: BucketResources {
                slots_used: 0,
                slots_available: 10,
                liquidity_used_msat: 0,
                liquidity_available_msat: 200_000,
            },
            congestion_bucket: BucketResources {
                slots_used: 0,
                slots_available: 10,
                liquidity_used_msat: 0,
                liquidity_available_msat: 200_000,
            },
        },
    }
}

#[test]
fn test_forward_outcome_str_labels() {
    assert_eq!(
        forward_outcome_str(ForwardingOutcome::Forward(EndorsementSignal::Endorsed)),
        "endorsed"
    );
    assert_eq!(
        forward_outcome_str(ForwardingOutcome::Forward(EndorsementSignal::Unendorsed)),
        "unendorsed"
    );
    assert_eq!(
        forward_outcome_str(ForwardingOutcome::Fail(FailureReason::NoResources)),
        "no_resources"
    );
    assert_eq!(
        forward_outcome_str(ForwardingOutcome::Fail(FailureReason::NoReputation)),
        "no_reputation"
    );
    assert_eq!(
        forward_outcome_str(ForwardingOutcome::Fail(FailureReason::UpgradableSignalModified)),
        "upgradable_signal_has_been_modified"
    );
}

#[test]
fn test_stats_writer_counts() {
    let mut writer = StatsWriter::new("stats".to_string());
    let check = sample_check();

    // An unendorsed forward with room in the general bucket.
    let forward = ProposedForward {
        incoming_endorsed: EndorsementSignal::Unendorsed,
        ..test_forward(1000, 990, 100, 90)
    };
    writer.record_forward(&check, &forward, Reputation::Bidirectional);
    assert_eq!(writer.outcome_statistics.forward_unendorsed, 1);

    // An endorsed forward whose upgradable signal was stripped.
    let tampered = ProposedForward {
        incoming_endorsed: EndorsementSignal::Endorsed,
        upgradable_endorsement: false,
        ..test_forward(1000, 990, 100, 90)
    };
    writer.record_forward(&check, &tampered, Reputation::Bidirectional);
    assert_eq!(writer.outcome_statistics.fail_upgradable_signal_modified, 1);

    let rows = writer.rows();
    assert_eq!(rows.len(), 5);
    assert_eq!(rows[1], ("unendorsed".to_string(), 1));
    assert_eq!(rows[4], ("upgradable_signal_has_been_modified".to_string(), 1));
}

fn inflight(outgoing: u64, index: u64, fee: u64, risk: u64, protected: bool) -> InFlightHtlc {
    InFlightHtlc {
        outgoing_channel_id: outgoing,
        incoming_ref: HtlcRef { channel_id: 1, htlc_index: index },
        fee_msat: fee,
        amount_out_msat: 1000,
        cltv_delta: 40,
        added_at: 0,
        bucket: if protected { ResourceBucketType::Protected } else { ResourceBucketType::General },
        htlc_risk: risk,
    }
}

#[test]
fn test_inflight_duplicate_and_risk() {
    let mut tracker = InFlightTracker::new();
    assert_eq!(tracker.add_htlc(inflight(9, 0, 100, 40, true)), Ok(()));
    assert_eq!(tracker.add_htlc(inflight(9, 1, 100, 25, true)), Ok(()));
    // General-bucket htlcs carry no protected risk.
    assert_eq!(tracker.add_htlc(inflight(9, 2, 100, 99, false)), Ok(()));
    // Risk on another channel is counted separately.
    assert_eq!(tracker.add_htlc(inflight(8, 0, 100, 7, true)), Ok(()));

    assert_eq!(
        tracker.add_htlc(inflight(9, 1, 100, 25, true)),
        Err(ReputationError::ErrDuplicateHtlc(HtlcRef { channel_id: 1, htlc_index: 1 }))
    );

    assert_eq!(tracker.in_flight_total_risk(9), 65);
    assert_eq!(tracker.in_flight_total_risk(8), 7);
    assert_eq!(tracker.in_flight_total_risk(7), 0);
}

#[test]
fn test_inflight_resolve_conserves_risk() {
    let mut tracker = InFlightTracker::new();
    tracker.add_htlc(inflight(9, 0, 100, 40, true)).unwrap();
    let before = tracker.in_flight_total_risk(9);

    tracker.add_htlc(inflight(9, 1, 100, 25, true)).unwrap();
    assert_eq!(tracker.in_flight_total_risk(9), before + 25);

    let resolved = tracker
        .resolve_htlc(9, HtlcRef { channel_id: 1, htlc_index: 1 })
        .unwrap();
    assert_eq!(resolved.htlc_risk, 25);
    assert_eq!(tracker.in_flight_total_risk(9), before);

    assert_eq!(
        tracker.resolve_htlc(9, HtlcRef { channel_id: 1, htlc_index: 1 }),
        Err(ReputationError::ErrForwardNotFound(9, HtlcRef { channel_id: 1, htlc_index: 1 }))
    );
}

#[test]
fn test_resolution_deltas() {
    let settled = inflight(9, 0, 100, 40, true);
    // A settled htlc earns its fee and contributes fee less risk to
    // reputation.
    assert_eq!(
        resolution_deltas(&settled, ForwardResolution::Settled),
        (60, 100)
    );
    // An underwater htlc contributes a negative effective fee.
    let underwater = inflight(9, 1, 10, 40, true);
    assert_eq!(
        resolution_deltas(&underwater, ForwardResolution::Settled),
        (-30, 10)
    );
    // A failed htlc costs its risk and earns nothing.
    assert_eq!(
        resolution_deltas(&settled, ForwardResolution::Failed),
        (-40, 0)
    );
}
