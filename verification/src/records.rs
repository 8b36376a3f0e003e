//! The endorsement wire signal: custom TLV records carried on a htlc's
//! update_add message, and their reading and writing.

use vstd::prelude::*;

use std::collections::HashMap;

use crate::htlc::EndorsementSignal;

verus! {

broadcast use vstd::std_specs::hash::group_hash_axioms;

/// The TLV type used to represent experimental accountability signals.
pub const ACCOUNTABLE_TYPE: u64 = 106823;

/// The TLV type used to represent the upgradable endorsement signal.
pub const UPGRADABLE_TYPE: u64 = 106825;

/// Whether a TLV value carries the positive signal: a single byte holding
/// one. Any other encoding, like absence, reads as negative.
pub open spec fn signal_set(v: Seq<u8>) -> bool {
    v.len() == 1 && v[0] == 1u8
}

/// The endorsement signal a record set carries.
pub open spec fn endorsed_of(records: Map<u64, Vec<u8>>) -> EndorsementSignal {
    if records.contains_key(ACCOUNTABLE_TYPE) && signal_set(records[ACCOUNTABLE_TYPE]@) {
        EndorsementSignal::Endorsed
    } else {
        EndorsementSignal::Unendorsed
    }
}

/// Whether a record set marks the endorsement signal as upgradable.
pub open spec fn upgradable_of(records: Map<u64, Vec<u8>>) -> bool {
    records.contains_key(UPGRADABLE_TYPE) && signal_set(records[UPGRADABLE_TYPE]@)
}

/// Converts a set of custom tlv records to an endorsement signal.
pub fn accountable_from_records(records: &HashMap<u64, Vec<u8>>) -> (r: EndorsementSignal)
    ensures
        r == endorsed_of(records@),
{
    match records.get(&ACCOUNTABLE_TYPE) {
        Some(endorsed) => {
            if endorsed.len() == 1 && endorsed[0] == 1 {
                EndorsementSignal::Endorsed
            } else {
                EndorsementSignal::Unendorsed
            }
        },
        None => EndorsementSignal::Unendorsed,
    }
}

/// Converts a set of custom tlv records to a bool signaling if the
/// endorsement signal is upgradable.
pub fn upgradable_from_records(records: &HashMap<u64, Vec<u8>>) -> (r: bool)
    ensures
        r == upgradable_of(records@),
{
    match records.get(&UPGRADABLE_TYPE) {
        Some(upgradable) => upgradable.len() == 1 && upgradable[0] == 1,
        None => false,
    }
}

/// Converts an endorsement signal to custom records. Note that we add by
/// default the upgradable signal to the custom records returned; the
/// endorsement record is set only for an endorsed htlc.
pub fn records_from_signal(signal: EndorsementSignal) -> (r: HashMap<u64, Vec<u8>>)
    ensures
        upgradable_of(r@),
        endorsed_of(r@) == signal,
        r@.contains_key(ACCOUNTABLE_TYPE) <==> signal == EndorsementSignal::Endorsed,
        r@.contains_key(UPGRADABLE_TYPE),
        forall|t: u64|
            r@.contains_key(t) ==> t == ACCOUNTABLE_TYPE || t == UPGRADABLE_TYPE,
{
    let mut one: Vec<u8> = Vec::new();
    one.push(1);
    assert(one@ =~= seq![1u8]);
    let mut records: HashMap<u64, Vec<u8>> = HashMap::new();
    records.insert(UPGRADABLE_TYPE, one);
    match signal {
        EndorsementSignal::Unendorsed => records,
        EndorsementSignal::Endorsed => {
            let mut one_more: Vec<u8> = Vec::new();
            one_more.push(1);
            assert(one_more@ =~= seq![1u8]);
            records.insert(ACCOUNTABLE_TYPE, one_more);
            records
        },
    }
}

} // verus!
