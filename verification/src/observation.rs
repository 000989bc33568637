use vstd::prelude::*;

use crate::decimal::Dec;

verus! {

/// One sampled instantaneous price together with the simple moving average
/// as of that sample. Immutable once appended to the observation history.
#[derive(Clone, Copy, Debug, PartialEq, Eq, Structural)]
pub struct Observation {
    /// Timestamp of the observation, in seconds.
    pub ts: u64,
    /// Observed price at this point.
    pub price: Dec,
    /// Price simple moving average as of this observation.
    pub price_sma: Dec,
}

/// The single-slot record of the most recent not-yet-finalized swap sample.
/// It is overwritten in place by the swap path and consumed by the
/// accumulator; at most one unconsumed precommit exists at any time.
#[derive(Clone, Copy, Debug, PartialEq, Eq, Structural)]
pub struct PrecommitObservation {
    /// Base asset amount of the precommitted swap.
    pub base_amount: u128,
    /// Quote asset amount of the precommitted swap.
    pub quote_amount: u128,
    /// Timestamp at which the swap was precommitted, in seconds.
    pub precommit_ts: u64,
}

} // verus!
