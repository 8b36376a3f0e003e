//! Counting forwarding outcomes for reporting. The counts are kept here; an
//! unverified caller turns them into whatever output it needs.

use vstd::prelude::*;

use crate::allocation::{AllocationCheck, ForwardingOutcome, FailureReason, Reputation, outcome_spec};
use crate::htlc::{EndorsementSignal, ProposedForward};

verus! {

/// How often each forwarding outcome has been seen, saturating at the
/// largest representable count.
#[derive(Clone, Copy, Debug, Eq, PartialEq, Structural)]
pub struct OutcomeCounts {
    pub forward_endorsed: u64,
    pub forward_unendorsed: u64,
    pub fail_no_resources: u64,
    pub fail_no_reputation: u64,
    pub fail_upgradable_signal_modified: u64,
}

/// A count raised by one, saturating.
pub open spec fn bumped(c: u64) -> u64 {
    if c == u64::MAX {
        c
    } else {
        (c + 1) as u64
    }
}

/// The counts after one more outcome has been seen.
pub open spec fn counts_after(c: OutcomeCounts, outcome: ForwardingOutcome) -> OutcomeCounts {
    match outcome {
        ForwardingOutcome::Forward(EndorsementSignal::Endorsed) => OutcomeCounts {
            forward_endorsed: bumped(c.forward_endorsed),
            ..c
        },
        ForwardingOutcome::Forward(EndorsementSignal::Unendorsed) => OutcomeCounts {
            forward_unendorsed: bumped(c.forward_unendorsed),
            ..c
        },
        ForwardingOutcome::Fail(FailureReason::NoResources) => OutcomeCounts {
            fail_no_resources: bumped(c.fail_no_resources),
            ..c
        },
        ForwardingOutcome::Fail(FailureReason::NoReputation) => OutcomeCounts {
            fail_no_reputation: bumped(c.fail_no_reputation),
            ..c
        },
        ForwardingOutcome::Fail(FailureReason::UpgradableSignalModified) => OutcomeCounts {
            fail_upgradable_signal_modified: bumped(c.fail_upgradable_signal_modified),
            ..c
        },
    }
}

/// The label an outcome is reported under.
pub open spec fn outcome_label(outcome: ForwardingOutcome) -> Seq<char> {
    match outcome {
        ForwardingOutcome::Forward(EndorsementSignal::Endorsed) => "endorsed"@,
        ForwardingOutcome::Forward(EndorsementSignal::Unendorsed) => "unendorsed"@,
        ForwardingOutcome::Fail(FailureReason::NoResources) => "no_resources"@,
        ForwardingOutcome::Fail(FailureReason::NoReputation) => "no_reputation"@,
        ForwardingOutcome::Fail(FailureReason::UpgradableSignalModified) => "upgradable_signal_has_been_modified"@,
    }
}

/// Renders an outcome as the label its statistics are reported under.
pub fn forward_outcome_str(outcome: ForwardingOutcome) -> (r: String)
    ensures
        r@ == outcome_label(outcome),
{
    match outcome {
        ForwardingOutcome::Forward(EndorsementSignal::Endorsed) => "endorsed".to_string(),
        ForwardingOutcome::Forward(EndorsementSignal::Unendorsed) => "unendorsed".to_string(),
        ForwardingOutcome::Fail(FailureReason::NoResources) => "no_resources".to_string(),
        ForwardingOutcome::Fail(FailureReason::NoReputation) => "no_reputation".to_string(),
        ForwardingOutcome::Fail(FailureReason::UpgradableSignalModified) =>
            "upgradable_signal_has_been_modified".to_string(),
    }
}

/// Tracks summary statistics of the forwarding outcomes of a run. The path
/// names where a report should be written; writing it is the caller's
/// business.
pub struct StatsWriter {
    pub path: String,
    pub outcome_statistics: OutcomeCounts,
}

impl StatsWriter {
    /// A fresh tracker with all counts at zero.
    pub fn new(path: String) -> (r: StatsWriter)
        ensures
            r.path == path,
            r.outcome_statistics == (OutcomeCounts {
                forward_endorsed: 0,
                forward_unendorsed: 0,
                fail_no_resources: 0,
                fail_no_reputation: 0,
                fail_upgradable_signal_modified: 0,
            }),
    {
        StatsWriter {
            path,
            outcome_statistics: OutcomeCounts {
                forward_endorsed: 0,
                forward_unendorsed: 0,
                fail_no_resources: 0,
                fail_no_reputation: 0,
                fail_upgradable_signal_modified: 0,
            },
        }
    }

    /// Counts the outcome the decision engine reaches for one forward.
    pub fn record_forward(
        &mut self,
        decision: &AllocationCheck,
        forward: &ProposedForward,
        scheme: Reputation,
    )
        ensures
            final(self).path == old(self).path,
            final(self).outcome_statistics == counts_after(
                old(self).outcome_statistics,
                outcome_spec(
                    *decision,
                    forward.amount_in_msat,
                    forward.incoming_endorsed,
                    forward.upgradable_endorsement,
                    scheme,
                ),
            ),
    {
        let outcome = decision.forwarding_outcome(
            forward.amount_in_msat,
            forward.incoming_endorsed,
            forward.upgradable_endorsement,
            scheme,
        );
        match outcome {
            ForwardingOutcome::Forward(EndorsementSignal::Endorsed) => {
                self.outcome_statistics.forward_endorsed =
                    self.outcome_statistics.forward_endorsed.saturating_add(1);
            },
            ForwardingOutcome::Forward(EndorsementSignal::Unendorsed) => {
                self.outcome_statistics.forward_unendorsed =
                    self.outcome_statistics.forward_unendorsed.saturating_add(1);
            },
            ForwardingOutcome::Fail(FailureReason::NoResources) => {
                self.outcome_statistics.fail_no_resources =
                    self.outcome_statistics.fail_no_resources.saturating_add(1);
            },
            ForwardingOutcome::Fail(FailureReason::NoReputation) => {
                self.outcome_statistics.fail_no_reputation =
                    self.outcome_statistics.fail_no_reputation.saturating_add(1);
            },
            ForwardingOutcome::Fail(FailureReason::UpgradableSignalModified) => {
                self.outcome_statistics.fail_upgradable_signal_modified =
                    self.outcome_statistics.fail_upgradable_signal_modified.saturating_add(1);
            },
        }
    }

    /// The report rows: each outcome label with its count.
    pub fn rows(&self) -> (r: Vec<(String, u64)>)
        ensures
            r@.len() == 5,
            r@[0].0@ == outcome_label(
                ForwardingOutcome::Forward(EndorsementSignal::Endorsed),
            ) && r@[0].1 == self.outcome_statistics.forward_endorsed,
            r@[1].0@ == outcome_label(
                ForwardingOutcome::Forward(EndorsementSignal::Unendorsed),
            ) && r@[1].1 == self.outcome_statistics.forward_unendorsed,
            r@[2].0@ == outcome_label(
                ForwardingOutcome::Fail(FailureReason::NoResources),
            ) && r@[2].1 == self.outcome_statistics.fail_no_resources,
            r@[3].0@ == outcome_label(
                ForwardingOutcome::Fail(FailureReason::NoReputation),
            ) && r@[3].1 == self.outcome_statistics.fail_no_reputation,
            r@[4].0@ == outcome_label(
                ForwardingOutcome::Fail(FailureReason::UpgradableSignalModified),
            ) && r@[4].1 == self.outcome_statistics.fail_upgradable_signal_modified,
    {
        let mut r: Vec<(String, u64)> = Vec::new();
        r.push(
            (
                forward_outcome_str(ForwardingOutcome::Forward(EndorsementSignal::Endorsed)),
                self.outcome_statistics.forward_endorsed,
            ),
        );
        r.push(
            (
                forward_outcome_str(ForwardingOutcome::Forward(EndorsementSignal::Unendorsed)),
                self.outcome_statistics.forward_unendorsed,
            ),
        );
        r.push(
            (
                forward_outcome_str(ForwardingOutcome::Fail(FailureReason::NoResources)),
                self.outcome_statistics.fail_no_resources,
            ),
        );
        r.push(
            (
                forward_outcome_str(ForwardingOutcome::Fail(FailureReason::NoReputation)),
                self.outcome_statistics.fail_no_reputation,
            ),
        );
        r.push(
            (
                forward_outcome_str(
                    ForwardingOutcome::Fail(FailureReason::UpgradableSignalModified),
                ),
                self.outcome_statistics.fail_upgradable_signal_modified,
            ),
        );
        r
    }
}

} // verus!
