//! Bootstrap history: forwards read from a prior run, and the cutoff filter
//! that limits them to a fixed duration from the first record.

use vstd::prelude::*;

verus! {

/// One forward of the bootstrap history. Timestamps are nanosecond counts;
/// the forwarding node is its serialized public key.
pub struct BootstrapForward {
    pub incoming_amt: u64,
    pub outgoing_amt: u64,
    pub incoming_expiry: u32,
    pub outgoing_expiry: u32,
    pub added_ns: u64,
    pub settled_ns: u64,
    pub forwarding_node: Vec<u8>,
    pub channel_in_id: u64,
    pub channel_out_id: u64,
}

/// Whether a forward was fully resolved by the cutoff instant.
pub open spec fn within_cutoff(f: BootstrapForward, cutoff: int) -> bool {
    f.added_ns <= cutoff && f.settled_ns <= cutoff
}

/// The cutoff instant of a history: the first record's add time plus the
/// filter duration.
pub open spec fn cutoff_of(forwards: Seq<BootstrapForward>, duration_ns: u64) -> int {
    forwards[0].added_ns + duration_ns
}

/// Limits a history to the forwards wholly inside `filter_duration_ns` of its
/// first record: the result is the longest prefix whose records were all
/// added and settled by the cutoff. Without a filter the history is returned
/// unchanged.
pub fn filter_history(forwards: Vec<BootstrapForward>, filter_duration_ns: Option<u64>) -> (r: Vec<
    BootstrapForward,
>)
    ensures
        filter_duration_ns is None ==> r@ == forwards@,
        filter_duration_ns matches Some(d) ==> {
            &&& r@.len() <= forwards@.len()
            &&& forall|i: int| 0 <= i < r@.len() ==> r@[i] == forwards@[i]
            &&& forall|i: int|
                0 <= i < r@.len() ==> within_cutoff(#[trigger] forwards@[i], cutoff_of(forwards@, d))
            &&& r@.len() < forwards@.len() ==> !within_cutoff(
                forwards@[r@.len() as int],
                cutoff_of(forwards@, d),
            )
        },
{
    let duration_ns = match filter_duration_ns {
        Some(d) => d,
        None => {
            return forwards;
        },
    };
    let mut forwards = forwards;
    if forwards.len() == 0 {
        return forwards;
    }

    let cutoff: u128 = (forwards[0].added_ns as u128) + (duration_ns as u128);
    let mut k: usize = 0;
    let n = forwards.len();
    while k < n && (forwards[k].added_ns as u128) <= cutoff && (forwards[k].settled_ns as u128)
        <= cutoff
        invariant
            n == forwards@.len(),
            n >= 1,
            0 <= k <= n,
            cutoff == cutoff_of(forwards@, duration_ns),
            forall|i: int|
                0 <= i < k ==> within_cutoff(
                    #[trigger] forwards@[i],
                    cutoff_of(forwards@, duration_ns),
                ),
        decreases n - k,
    {
        k = k + 1;
    }
    let ghost pre = forwards@;
    forwards.truncate(k);
    proof {
        assert(forwards@ == pre.subrange(0, k as int));
    }
    forwards
}

} // verus!
