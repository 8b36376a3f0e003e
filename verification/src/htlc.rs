//! Proposed HTLC forwards and their validation.

use vstd::prelude::*;

use crate::errors::ReputationError;

verus! {

/// The total supply of bitcoin expressed in millisatoshis.
pub const SUPPLY_CAP_MSAT: u64 = 21_000_000 * 100_000_000 * 1_000;

/// The accountability signal carried on a htlc's update_add message.
#[derive(Clone, Copy, Debug, Eq, PartialEq, Structural)]
pub enum EndorsementSignal {
    Unendorsed,
    Endorsed,
}

/// The resolution for a htlc received from the downstream peer (or decided
/// locally).
#[derive(Clone, Copy, Debug, Eq, PartialEq, Structural)]
pub enum ForwardResolution {
    Settled,
    Failed,
}

impl From<bool> for ForwardResolution {
    /// Reads `true` as a settled htlc and `false` as a failed one.
    fn from(settled: bool) -> (r: Self) {
        if settled {
            ForwardResolution::Settled
        } else {
            ForwardResolution::Failed
        }
    }
}

impl vstd::std_specs::convert::FromSpecImpl<bool> for ForwardResolution {
    open spec fn obeys_from_spec() -> bool {
        true
    }

    open spec fn from_spec(settled: bool) -> Self {
        if settled {
            ForwardResolution::Settled
        } else {
            ForwardResolution::Failed
        }
    }
}

/// A unique identifier for a htlc on a channel.
#[derive(Clone, Copy, Debug, Eq, Hash, PartialEq, Structural)]
pub struct HtlcRef {
    pub channel_id: u64,
    /// The unique index used to refer to the htlc in update_add_htlc.
    pub htlc_index: u64,
}

/// A htlc that has been locked in on the incoming link and is proposed for
/// outgoing forwarding. The instant it was added at is a nanosecond count.
#[derive(Clone, Copy, Debug, Eq, PartialEq, Structural)]
pub struct ProposedForward {
    pub incoming_ref: HtlcRef,
    pub outgoing_channel_id: u64,
    pub amount_in_msat: u64,
    pub amount_out_msat: u64,
    pub expiry_in_height: u32,
    pub expiry_out_height: u32,
    pub added_at: u64,
    pub incoming_endorsed: EndorsementSignal,
    pub upgradable_endorsement: bool,
}

/// What `validate` decides for a proposed forward, stated over its fields.
pub open spec fn validate_spec(f: ProposedForward) -> Result<(), ReputationError> {
    if f.amount_out_msat > SUPPLY_CAP_MSAT {
        Err(ReputationError::ErrAmountExceedsSupply(f.amount_out_msat))
    } else if f.amount_in_msat > SUPPLY_CAP_MSAT {
        Err(ReputationError::ErrAmountExceedsSupply(f.amount_in_msat))
    } else if f.amount_out_msat > f.amount_in_msat {
        Err(ReputationError::ErrNegativeFee(f.amount_in_msat, f.amount_out_msat))
    } else if f.expiry_in_height < f.expiry_out_height {
        Err(ReputationError::ErrNegativeCltvDelta(f.expiry_in_height, f.expiry_out_height))
    } else {
        Ok(())
    }
}

impl ProposedForward {
    /// A forward is well formed when both amounts respect the supply cap, the
    /// fee is non-negative and the cltv delta is non-negative.
    pub open spec fn is_valid(self) -> bool {
        &&& self.amount_out_msat <= SUPPLY_CAP_MSAT
        &&& self.amount_in_msat <= SUPPLY_CAP_MSAT
        &&& self.amount_out_msat <= self.amount_in_msat
        &&& self.expiry_out_height <= self.expiry_in_height
    }

    /// Checks the forward against the supply cap, non-negative fee and
    /// non-negative cltv delta rules, reporting the first rule broken.
    pub fn validate(&self) -> (r: Result<(), ReputationError>)
        ensures
            r == validate_spec(*self),
            r is Ok <==> self.is_valid(),
    {
        if self.amount_out_msat > SUPPLY_CAP_MSAT {
            return Err(ReputationError::ErrAmountExceedsSupply(self.amount_out_msat));
        }
        if self.amount_in_msat > SUPPLY_CAP_MSAT {
            return Err(ReputationError::ErrAmountExceedsSupply(self.amount_in_msat));
        }
        if self.amount_out_msat > self.amount_in_msat {
            return Err(ReputationError::ErrNegativeFee(self.amount_in_msat, self.amount_out_msat));
        }
        if self.expiry_in_height < self.expiry_out_height {
            return Err(ReputationError::ErrNegativeCltvDelta(
                self.expiry_in_height,
                self.expiry_out_height,
            ));
        }
        Ok(())
    }

    /// The fee earned by forwarding; only meaningful on a validated forward.
    pub fn fee_msat(&self) -> (r: u64)
        requires
            self.amount_out_msat <= self.amount_in_msat,
        ensures
            r == self.amount_in_msat - self.amount_out_msat,
    {
        self.amount_in_msat - self.amount_out_msat
    }
}

/// Validates that an msat amount doesn't exceed the total supply cap of
/// bitcoin and casts to i64 to be used in places where we're dealing with
/// negative numbers. Amounts below the supply cap always fit an i64.
pub fn validate_msat(amount_msat: u64) -> (r: Result<i64, ReputationError>)
    ensures
        amount_msat <= SUPPLY_CAP_MSAT ==> r == Ok::<i64, ReputationError>(amount_msat as i64),
        amount_msat > SUPPLY_CAP_MSAT ==> r == Err::<i64, ReputationError>(
            ReputationError::ErrAmountExceedsSupply(amount_msat),
        ),
{
    if amount_msat > SUPPLY_CAP_MSAT {
        return Err(ReputationError::ErrAmountExceedsSupply(amount_msat));
    }
    Ok(amount_msat as i64)
}

} // verus!
