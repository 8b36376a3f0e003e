//! In-flight htlc accounting: the live forwards admitted on each outgoing
//! channel, the rule that no key may be live twice, and the risk that
//! protected htlcs put on a channel while they are unresolved.

use vstd::prelude::*;

use crate::allocation::{clamp_to_i64, sat_sub_i64, ResourceBucketType};
use crate::errors::ReputationError;
use crate::htlc::{ForwardResolution, HtlcRef, SUPPLY_CAP_MSAT};

verus! {

/// One live forward: keyed by its outgoing channel and incoming reference,
/// carrying what the reputation update at resolve time needs.
#[derive(Clone, Copy, Debug, Eq, PartialEq, Structural)]
pub struct InFlightHtlc {
    /// The channel the htlc was forwarded out on.
    pub outgoing_channel_id: u64,
    /// The htlc's unique reference on the incoming link.
    pub incoming_ref: HtlcRef,
    /// The fee the forward pays.
    pub fee_msat: u64,
    /// The amount forwarded out.
    pub amount_out_msat: u64,
    /// The difference between the incoming and outgoing expiry heights.
    pub cltv_delta: u32,
    /// The instant the htlc was added, as a nanosecond count.
    pub added_at: u64,
    /// The bucket the htlc was admitted to.
    pub bucket: ResourceBucketType,
    /// The opportunity cost of holding the htlc, fixed at admission.
    pub htlc_risk: u64,
}

/// Whether a record carries the key given.
pub open spec fn same_key(h: InFlightHtlc, outgoing_channel: u64, incoming_ref: HtlcRef) -> bool {
    h.outgoing_channel_id == outgoing_channel && h.incoming_ref == incoming_ref
}

/// Whether some record in the list carries the key given.
pub open spec fn has_htlc(s: Seq<InFlightHtlc>, outgoing_channel: u64, incoming_ref: HtlcRef) -> bool {
    exists|i: int| 0 <= i < s.len() && same_key(#[trigger] s[i], outgoing_channel, incoming_ref)
}

/// The risk one record puts on a channel: its opportunity cost, when it is a
/// protected htlc on that channel.
pub open spec fn risk_contribution(h: InFlightHtlc, outgoing_channel: u64) -> int {
    if h.outgoing_channel_id == outgoing_channel && h.bucket == ResourceBucketType::Protected {
        h.htlc_risk as int
    } else {
        0
    }
}

/// The total risk the live protected htlcs put on one outgoing channel.
pub open spec fn channel_risk(s: Seq<InFlightHtlc>, outgoing_channel: u64) -> int
    decreases s.len(),
{
    if s.len() == 0 {
        0
    } else {
        channel_risk(s.drop_last(), outgoing_channel) + risk_contribution(
            s.last(),
            outgoing_channel,
        )
    }
}

/// Appending a record raises a channel's risk by the record's contribution.
pub proof fn lemma_channel_risk_push(s: Seq<InFlightHtlc>, h: InFlightHtlc, c: u64)
    ensures
        channel_risk(s.push(h), c) == channel_risk(s, c) + risk_contribution(h, c),
{
    assert(s.push(h).drop_last() =~= s);
    assert(s.push(h).last() == h);
}

/// Removing a record lowers a channel's risk by the record's contribution.
pub proof fn lemma_channel_risk_remove(s: Seq<InFlightHtlc>, i: int, c: u64)
    requires
        0 <= i < s.len(),
    ensures
        channel_risk(s.remove(i), c) == channel_risk(s, c) - risk_contribution(s[i], c),
    decreases s.len(),
{
    if i == s.len() - 1 {
        assert(s.remove(i) =~= s.drop_last());
    } else {
        assert(s.remove(i).drop_last() =~= s.drop_last().remove(i));
        assert(s.remove(i).last() == s.last());
        lemma_channel_risk_remove(s.drop_last(), i, c);
    }
}

/// The risk of a channel is never negative.
pub proof fn lemma_channel_risk_nonnegative(s: Seq<InFlightHtlc>, c: u64)
    ensures
        channel_risk(s, c) >= 0,
    decreases s.len(),
{
    if s.len() > 0 {
        lemma_channel_risk_nonnegative(s.drop_last(), c);
    }
}

/// The reputation and revenue contributions of one resolved htlc: a settled
/// htlc adds its effective fee — the fee less the htlc's risk, possibly
/// negative — to reputation and its fee to revenue; a failed htlc only costs
/// its risk, and earns nothing.
pub open spec fn resolution_deltas_spec(h: InFlightHtlc, resolution: ForwardResolution) -> (
    i64,
    i64,
) {
    match resolution {
        ForwardResolution::Settled => (
            sat_sub_i64(h.fee_msat as i64, clamp_to_i64(h.htlc_risk)),
            h.fee_msat as i64,
        ),
        ForwardResolution::Failed => (sat_sub_i64(0, clamp_to_i64(h.htlc_risk)), 0),
    }
}

/// Computes the reputation delta (first) and revenue delta (second) that a
/// resolved htlc contributes to its outgoing channel's decaying averages.
pub fn resolution_deltas(htlc: &InFlightHtlc, resolution: ForwardResolution) -> (r: (i64, i64))
    requires
        htlc.fee_msat <= SUPPLY_CAP_MSAT,
    ensures
        r == resolution_deltas_spec(*htlc, resolution),
{
    let risk = if htlc.htlc_risk > i64::MAX as u64 {
        i64::MAX
    } else {
        htlc.htlc_risk as i64
    };
    match resolution {
        ForwardResolution::Settled => {
            let fee = htlc.fee_msat as i64;
            let effective_fee = match fee.checked_sub(risk) {
                Some(v) => v,
                None => i64::MIN,
            };
            (effective_fee, fee)
        },
        ForwardResolution::Failed => {
            let cost = match 0i64.checked_sub(risk) {
                Some(v) => v,
                None => i64::MIN,
            };
            (cost, 0)
        },
    }
}

/// The live forwards of a manager, no key among them twice.
pub struct InFlightTracker {
    pub htlcs: Vec<InFlightHtlc>,
}

impl InFlightTracker {
    /// No two live records carry the same key.
    pub open spec fn wf(self) -> bool {
        forall|i1: int, i2: int|
            0 <= i1 < i2 < self.htlcs@.len() ==> !same_key(
                #[trigger] self.htlcs@[i1],
                (#[trigger] self.htlcs@[i2]).outgoing_channel_id,
                self.htlcs@[i2].incoming_ref,
            )
    }

    /// An empty tracker.
    pub fn new() -> (r: InFlightTracker)
        ensures
            r.wf(),
            r.htlcs@.len() == 0,
    {
        InFlightTracker { htlcs: Vec::new() }
    }

    /// The position of the record with the key given, if one is live.
    fn find_pos(&self, outgoing_channel: u64, incoming_ref: HtlcRef) -> (r: Option<usize>)
        ensures
            match r {
                Some(i) => i < self.htlcs@.len() && same_key(
                    self.htlcs@[i as int],
                    outgoing_channel,
                    incoming_ref,
                ),
                None => !has_htlc(self.htlcs@, outgoing_channel, incoming_ref),
            },
    {
        let mut i: usize = 0;
        let n = self.htlcs.len();
        while i < n
            invariant
                n == self.htlcs@.len(),
                0 <= i <= n,
                forall|ii: int|
                    0 <= ii < i ==> !same_key(
                        #[trigger] self.htlcs@[ii],
                        outgoing_channel,
                        incoming_ref,
                    ),
            decreases n - i,
        {
            let h = &self.htlcs[i];
            if h.outgoing_channel_id == outgoing_channel
                && h.incoming_ref.channel_id == incoming_ref.channel_id
                && h.incoming_ref.htlc_index == incoming_ref.htlc_index {
                return Some(i);
            }
            i = i + 1;
        }
        None
    }

    /// Records a forward as live. Rejects, changing nothing, a key that is
    /// already live: adding a htlc twice is the caller's replay to refuse.
    pub fn add_htlc(&mut self, htlc: InFlightHtlc) -> (r: Result<(), ReputationError>)
        requires
            old(self).wf(),
        ensures
            final(self).wf(),
            r is Ok <==> !has_htlc(
                old(self).htlcs@,
                htlc.outgoing_channel_id,
                htlc.incoming_ref,
            ),
            r matches Err(e) ==> {
                &&& e == ReputationError::ErrDuplicateHtlc(htlc.incoming_ref)
                &&& *final(self) == *old(self)
            },
            r is Ok ==> final(self).htlcs@ == old(self).htlcs@.push(htlc),
    {
        if self.find_pos(htlc.outgoing_channel_id, htlc.incoming_ref).is_some() {
            return Err(ReputationError::ErrDuplicateHtlc(htlc.incoming_ref));
        }
        self.htlcs.push(htlc);
        Ok(())
    }

    /// Takes a live forward out of the tracker, handing its record back so
    /// the caller can settle its contributions.
    pub fn resolve_htlc(&mut self, outgoing_channel: u64, incoming_ref: HtlcRef) -> (r: Result<
        InFlightHtlc,
        ReputationError,
    >)
        requires
            old(self).wf(),
        ensures
            final(self).wf(),
            r is Ok <==> has_htlc(old(self).htlcs@, outgoing_channel, incoming_ref),
            r matches Err(e) ==> {
                &&& e == ReputationError::ErrForwardNotFound(outgoing_channel, incoming_ref)
                &&& *final(self) == *old(self)
            },
            r matches Ok(h) ==> {
                &&& same_key(h, outgoing_channel, incoming_ref)
                &&& exists|i: int|
                    0 <= i < old(self).htlcs@.len() && old(self).htlcs@[i] == h && final(self).htlcs@
                        == old(self).htlcs@.remove(i)
                &&& forall|c: u64|
                    channel_risk(final(self).htlcs@, c) == channel_risk(old(self).htlcs@, c)
                        - risk_contribution(h, c)
            },
    {
        let i = match self.find_pos(outgoing_channel, incoming_ref) {
            Some(i) => i,
            None => {
                return Err(ReputationError::ErrForwardNotFound(outgoing_channel, incoming_ref));
            },
        };
        let ghost pre = self.htlcs@;
        let h = self.htlcs.remove(i);
        proof {
            assert(self.htlcs@ == pre.remove(i as int));
            pre.remove_ensures(i as int);
            assert forall|c: u64|
                channel_risk(self.htlcs@, c) == channel_risk(pre, c) - risk_contribution(
                    h,
                    c,
                ) by {
                lemma_channel_risk_remove(pre, i as int, c);
            }
            assert forall|i1: int, i2: int|
                0 <= i1 < i2 < self.htlcs@.len() implies !same_key(
                #[trigger] self.htlcs@[i1],
                (#[trigger] self.htlcs@[i2]).outgoing_channel_id,
                self.htlcs@[i2].incoming_ref,
            ) by {
                let o1 = if i1 < i as int {
                    i1
                } else {
                    i1 + 1
                };
                let o2 = if i2 < i as int {
                    i2
                } else {
                    i2 + 1
                };
                assert(self.htlcs@[i1] == pre[o1]);
                assert(self.htlcs@[i2] == pre[o2]);
            }
        }
        Ok(h)
    }

    /// The total risk of the live protected htlcs on one outgoing channel,
    /// saturated at the largest representable value.
    pub fn in_flight_total_risk(&self, outgoing_channel: u64) -> (r: u64)
        ensures
            r == (if channel_risk(self.htlcs@, outgoing_channel) > u64::MAX {
                u64::MAX as int
            } else {
                channel_risk(self.htlcs@, outgoing_channel)
            }),
    {
        let mut acc: u64 = 0;
        let mut i: usize = 0;
        let n = self.htlcs.len();
        proof {
            assert(self.htlcs@.take(0) =~= Seq::<InFlightHtlc>::empty());
        }
        while i < n
            invariant
                n == self.htlcs@.len(),
                0 <= i <= n,
                acc == (if channel_risk(self.htlcs@.take(i as int), outgoing_channel) > u64::MAX {
                    u64::MAX as int
                } else {
                    channel_risk(self.htlcs@.take(i as int), outgoing_channel)
                }),
            decreases n - i,
        {
            let h = &self.htlcs[i];
            proof {
                assert(self.htlcs@.take(i + 1).drop_last() =~= self.htlcs@.take(i as int));
                assert(self.htlcs@.take(i + 1).last() == self.htlcs@[i as int]);
                lemma_channel_risk_nonnegative(self.htlcs@.take(i as int), outgoing_channel);
            }
            if h.outgoing_channel_id == outgoing_channel
                && matches!(h.bucket, ResourceBucketType::Protected) {
                acc = acc.saturating_add(h.htlc_risk);
            }
            i = i + 1;
        }
        proof {
            assert(self.htlcs@.take(n as int) =~= self.htlcs@);
        }
        acc
    }
}

/// Conservation of in-flight risk: admitting a htlc and then resolving it
/// leaves every channel's in-flight risk where it stood before the admission.
/// The hypotheses are what `add_htlc` and a successful `resolve_htlc` of the
/// same record ensure.
pub proof fn lemma_add_resolve_conserves_risk(
    s0: Seq<InFlightHtlc>,
    s1: Seq<InFlightHtlc>,
    s2: Seq<InFlightHtlc>,
    h: InFlightHtlc,
    c: u64,
)
    requires
        s1 == s0.push(h),
        channel_risk(s2, c) == channel_risk(s1, c) - risk_contribution(h, c),
    ensures
        channel_risk(s2, c) == channel_risk(s0, c),
{
    lemma_channel_risk_push(s0, h, c);
}

} // verus!
