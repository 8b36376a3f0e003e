use ln_resource_mgr::bucket::{BucketParameters, GeneralBucket, IncomingChannel, ASSIGNED_SLOTS};
use ln_resource_mgr::errors::ReputationError;
use std::collections::HashSet;

fn test_bucket_params() -> BucketParameters {
    BucketParameters { slot_count: 100, liquidity_msat: 1_000_000 }
}

fn test_salt() -> Vec<u8> {
    vec![7u8; 32]
}

fn occupied_count(bucket: &GeneralBucket) -> usize {
    bucket.htlc_slots.iter().filter(|b| **b).count()
}

#[test]
fn test_new_bucket() {
    let bucket = GeneralBucket::new(123, test_bucket_params()).unwrap();
    assert_eq!(bucket.slot_size_msat, 10_000);
    assert_eq!(bucket.htlc_slots.len(), 100);
    assert!(bucket.htlc_slots.iter().all(|b| !*b));
}

#[test]
fn test_channel_already_removed() {
    let scid = 456;
    let mut bucket = GeneralBucket::new(123, test_bucket_params()).unwrap();
    bucket.add_htlc(scid, 1).unwrap();
    assert!(bucket.remove_channel(scid));
    assert!(!bucket.remove_channel(scid));
}

#[test]
fn test_new_bucket_zero_slot_size() {
    let result = GeneralBucket::new(123, BucketParameters { slot_count: 200, liquidity_msat: 100 });
    assert!(matches!(result, Err(ReputationError::ErrUnrecoverable(_))));
}

#[test]
fn test_candidate_slots_existing() {
    let mut bucket = GeneralBucket::new(123, test_bucket_params()).unwrap();
    let scid = 456;
    let slots_vec: Vec<u16> = vec![1, 2, 3, 4, 5];
    bucket.set_candidate_slots(scid, slots_vec.clone()).unwrap();
    let mut expected = slots_vec.clone();
    expected.sort_unstable();
    let mut got = bucket.get_candidate_slots(scid).unwrap();
    got.sort_unstable();
    assert_eq!(expected, got);
}

#[test]
fn test_candidate_slots_self() {
    let bucket_scid = 123;
    let mut bucket = GeneralBucket::new(bucket_scid, test_bucket_params()).unwrap();
    assert!(matches!(
        bucket.get_candidate_slots(bucket_scid),
        Err(ReputationError::ErrUnrecoverable(_))
    ));
}

#[test]
fn test_get_candidate_slots_consistency() {
    let mut bucket = GeneralBucket::new(123, test_bucket_params()).unwrap();
    let scid = 789;
    let slots1 = bucket.get_candidate_slots(scid).unwrap();
    let slots2 = bucket.get_candidate_slots(scid).unwrap();
    assert_eq!(slots1, slots2);
}

#[test]
fn test_get_candidate_slots_within_bounds_and_unique() {
    let mut bucket = GeneralBucket::new(123, test_bucket_params()).unwrap();
    let scid = 789;
    let slots = bucket.get_candidate_slots(scid).unwrap();
    for &slot in &slots {
        assert!((slot as usize) < bucket.htlc_slots.len());
    }
    let unique: HashSet<u16> = slots.into_iter().collect();
    assert!(unique.len() <= ASSIGNED_SLOTS);
}

#[test]
fn test_add_htlc_successful_allocation() {
    let mut bucket = GeneralBucket::new(123, test_bucket_params()).unwrap();
    let scid = 456;
    let htlc_amt = 1000;

    for _ in 0..ASSIGNED_SLOTS {
        assert!(bucket.add_htlc(scid, htlc_amt).unwrap());
    }

    assert!(!bucket.add_htlc(scid, 100_000).unwrap());

    for _ in 0..ASSIGNED_SLOTS {
        bucket.remove_htlc(scid, htlc_amt).unwrap();
    }

    assert!(bucket.remove_htlc(scid, htlc_amt).is_err());
}

/// Tests that a single HTLC is allowed to take up all liquidity for all slots.
#[test]
fn test_liquidity_one_htlc() {
    let mut bucket = GeneralBucket::new(123, test_bucket_params()).unwrap();
    let scid = 345;

    let max_htlc = bucket.slot_size_msat * ASSIGNED_SLOTS as u64;
    assert!(bucket.add_htlc(scid, max_htlc).unwrap());
    assert!(!bucket.add_htlc(scid, 1).unwrap());

    bucket.remove_htlc(scid, max_htlc).unwrap();
    assert!(bucket.add_htlc(scid, max_htlc).unwrap());
}

/// Tests that when a HTLC takes up a portion of a bucket, another HTLC is not
/// allowed to share that liquidity.
#[test]
fn test_partial_liquidity_usage() {
    let mut bucket = GeneralBucket::new(123, test_bucket_params()).unwrap();
    let scid = 345;

    let half_allocation = bucket.slot_size_msat * ASSIGNED_SLOTS as u64 / 2;
    assert!(bucket.add_htlc(scid, half_allocation).unwrap());

    // Reject a HTLC that needs 2.5 slots worth of liquidity, because the
    // previous htlc used up 3.
    assert!(!bucket.add_htlc(scid, half_allocation).unwrap());

    // Accept a HTLC that only needs 2 slots worth of liquidity.
    assert!(bucket.add_htlc(scid, bucket.slot_size_msat * 2).unwrap());

    // Finally, remove one half-liquidity HTLC and assert we can add another
    // in its place.
    bucket.remove_htlc(scid, half_allocation).unwrap();
    assert!(bucket.add_htlc(scid, half_allocation).unwrap());
}

#[test]
fn test_insufficient_liquidity() {
    let mut bucket = GeneralBucket::new(123, test_bucket_params()).unwrap();
    let scid = 345;
    let htlc_too_big = bucket.slot_size_msat * ASSIGNED_SLOTS as u64 * 2;

    assert!(!bucket.add_htlc(scid, htlc_too_big).unwrap());
}

/// Demonstrates that adding htlcs which share a common slot and then removing
/// them in the reverse order is handled.
#[test]
fn test_duplicate_remove_bug_addressed() {
    let mut bucket = GeneralBucket::new(123, test_bucket_params()).unwrap();
    let scid_1 = 345;
    let scid_2 = 678;

    bucket.set_candidate_slots(scid_1, vec![0, 3, 4, 5, 7]).unwrap();
    bucket.set_candidate_slots(scid_2, vec![0, 1, 2, 6, 7]).unwrap();

    let htlc_amt = bucket.slot_size_msat * 2;
    assert!(bucket.add_htlc(scid_1, htlc_amt).unwrap());
    assert!(bucket.add_htlc(scid_2, htlc_amt).unwrap());

    bucket.remove_htlc(scid_2, htlc_amt).unwrap();
    bucket.remove_htlc(scid_1, htlc_amt).unwrap();
}

/// Slot assignment is deterministic given a fixed salt: two buckets built
/// alike assign a candidate the same slots.
#[test]
fn test_assignment_deterministic_with_salt() {
    let mut bucket1 = GeneralBucket::new_with_salt(123, test_bucket_params(), test_salt()).unwrap();
    let mut bucket2 = GeneralBucket::new_with_salt(123, test_bucket_params(), test_salt()).unwrap();
    let slots1 = bucket1.get_candidate_slots(456).unwrap();
    let slots2 = bucket2.get_candidate_slots(456).unwrap();
    assert_eq!(slots1, slots2);
}

/// Different candidate channels hash to different slot sets under one salt;
/// a degenerate hash would hand every candidate the same slots, or too few.
#[test]
fn test_assignment_differs_between_candidates() {
    let mut bucket = GeneralBucket::new_with_salt(123, test_bucket_params(), test_salt()).unwrap();
    let mut slots1 = bucket.get_candidate_slots(456).unwrap();
    let mut slots2 = bucket.get_candidate_slots(789).unwrap();
    assert_eq!(slots1.len(), ASSIGNED_SLOTS);
    assert_eq!(slots2.len(), ASSIGNED_SLOTS);
    slots1.sort_unstable();
    slots2.sort_unstable();
    assert_ne!(slots1, slots2);
}

/// Adding a htlc and then removing one of the same amount restores the
/// global occupancy counters to the pre-add state.
#[test]
fn test_add_remove_conserves_counts() {
    let mut bucket = GeneralBucket::new(123, test_bucket_params()).unwrap();
    let scid = 456;
    assert!(bucket.add_htlc(scid, 12_345).unwrap());
    let before = occupied_count(&bucket);
    let amount = 23_456;
    assert!(bucket.add_htlc(scid, amount).unwrap());
    assert_eq!(occupied_count(&bucket), before + 3);
    bucket.remove_htlc(scid, amount).unwrap();
    assert_eq!(occupied_count(&bucket), before);
}

/// An unknown channel cannot have htlcs removed.
#[test]
fn test_remove_unknown_channel() {
    let mut bucket = GeneralBucket::new(123, test_bucket_params()).unwrap();
    assert_eq!(
        bucket.remove_htlc(456, 1),
        Err(ReputationError::ErrChannelNotFound(456))
    );
}

/// Jamming a channel zeroes the advertised parameters of its general bucket
/// but keeps the slot state for htlcs already in flight.
#[test]
fn test_general_jam_channel() {
    let congestion = BucketParameters { slot_count: 10, liquidity_msat: 100_000 };
    let protected = BucketParameters { slot_count: 20, liquidity_msat: 200_000 };
    let mut channel = IncomingChannel::new(123, test_bucket_params(), congestion, protected)
        .unwrap();
    assert!(channel.general_bucket.add_htlc(456, 1).unwrap());
    channel.general_jam_channel();
    assert_eq!(channel.general_bucket.params.slot_count, 0);
    assert_eq!(channel.general_bucket.params.liquidity_msat, 0);
    assert_eq!(occupied_count(&channel.general_bucket), 1);
    channel.general_bucket.remove_htlc(456, 1).unwrap();
    assert_eq!(occupied_count(&channel.general_bucket), 0);
}

/// Full occupancy by one peer: five 1 msat htlcs exhaust the candidate's
/// slots, a sixth admission is refused, and removing more than was added
/// reports an empty bucket.
#[test]
fn test_full_occupancy_single_peer() {
    let mut bucket = GeneralBucket::new(123, test_bucket_params()).unwrap();
    let scid = 456;

    for _ in 0..ASSIGNED_SLOTS {
        assert!(bucket.add_htlc(scid, 1).unwrap());
    }
    assert!(!bucket.add_htlc(scid, 100_000).unwrap());

    for _ in 0..ASSIGNED_SLOTS {
        bucket.remove_htlc(scid, 1).unwrap();
    }
    assert_eq!(
        bucket.remove_htlc(scid, 1),
        Err(ReputationError::ErrBucketTooEmpty(1))
    );
}

/// Asks for more slots back than the candidate occupies.
#[test]
fn test_remove_more_than_occupied() {
    let mut bucket = GeneralBucket::new(123, test_bucket_params()).unwrap();
    let scid = 456;
    assert!(bucket.add_htlc(scid, 1).unwrap());
    let two_slots = bucket.slot_size_msat * 2;
    assert_eq!(
        bucket.remove_htlc(scid, two_slots),
        Err(ReputationError::ErrBucketTooEmpty(two_slots))
    );
}

/// Slot consistency observed at runtime: after a mix of adds and removes,
/// each global slot is occupied exactly when some candidate occupies it.
#[test]
fn test_slot_consistency_observed() {
    let mut bucket = GeneralBucket::new(123, test_bucket_params()).unwrap();
    assert!(bucket.add_htlc(456, 25_000).unwrap());
    assert!(bucket.add_htlc(789, 12_000).unwrap());
    assert!(bucket.add_htlc(456, 1).unwrap());
    bucket.remove_htlc(456, 12_000).unwrap();

    for (k, global) in bucket.htlc_slots.iter().enumerate() {
        let owned = bucket.candidates.iter().any(|c| {
            c.slots.iter().any(|e| e.index as usize == k && e.occupied)
        });
        assert_eq!(*global, owned);
    }
}
