//! Configuration of the reputation tracker, and the opportunity cost of
//! holding a htlc.

use vstd::prelude::*;

use crate::errors::ReputationError;

verus! {

/// Parameters the reputation tracker is configured with. Durations are
/// carried as plain second counts.
#[derive(Clone, Copy, Debug, Eq, PartialEq, Structural)]
pub struct ReputationParams {
    /// The half-life of the revenue decaying average, in seconds.
    pub revenue_window_secs: u64,
    /// Multiplier applied to the revenue window to get the reputation
    /// window; rejected when zero.
    pub reputation_multiplier: u32,
    /// The number of blocks the opportunity cost of a htlc is normalised
    /// over.
    pub resolution_period_blocks: u32,
}

/// The fee-normalised cost of holding a htlc for a number of blocks:
/// `fee * blocks / resolution_period`.
pub open spec fn opportunity_cost_value(fee_msat: u64, blocks: u32, resolution_period: u32) -> int {
    fee_msat * blocks / (resolution_period as int)
}

impl ReputationParams {
    /// Rejects a configuration whose reputation multiplier is zero.
    pub fn validate(&self) -> (r: Result<(), ReputationError>)
        ensures
            r == (if self.reputation_multiplier == 0 {
                Err::<(), ReputationError>(ReputationError::ErrInvalidMultiplier)
            } else {
                Ok::<(), ReputationError>(())
            }),
    {
        if self.reputation_multiplier == 0 {
            return Err(ReputationError::ErrInvalidMultiplier);
        }
        Ok(())
    }

    /// The half-life of the reputation decaying average: the revenue window
    /// scaled by the multiplier.
    pub fn reputation_window_secs(&self) -> (r: u64)
        requires
            self.revenue_window_secs * self.reputation_multiplier <= u64::MAX,
        ensures
            r == self.revenue_window_secs * self.reputation_multiplier,
    {
        self.revenue_window_secs * (self.reputation_multiplier as u64)
    }

    /// The opportunity cost of holding a htlc paying `fee_msat` for `blocks`
    /// blocks, saturated at the largest representable value.
    pub fn opportunity_cost_from_blocks(&self, fee_msat: u64, blocks: u32) -> (r: u64)
        requires
            self.resolution_period_blocks >= 1,
        ensures
            r == (if opportunity_cost_value(fee_msat, blocks, self.resolution_period_blocks)
                > u64::MAX {
                u64::MAX as int
            } else {
                opportunity_cost_value(fee_msat, blocks, self.resolution_period_blocks)
            }),
    {
        proof {
            assert((fee_msat as int) * (blocks as int) <= 0xffff_ffff_ffff_ffff * 0xffff_ffff)
                by (nonlinear_arith)
                requires
                    fee_msat <= 0xffff_ffff_ffff_ffff,
                    blocks <= 0xffff_ffff,
            ;
        }
        let product: u128 = (fee_msat as u128) * (blocks as u128);
        let quotient: u128 = product / (self.resolution_period_blocks as u128);
        if quotient > u64::MAX as u128 {
            u64::MAX
        } else {
            quotient as u64
        }
    }
}

} // verus!
