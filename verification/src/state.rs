use vstd::prelude::*;

verus! {

/// The slice of the pool's order-book state that the accumulator owns:
/// the one-way readiness gate and its immutable threshold, plus the
/// identifier of the sub-account bound to the pool on the order-book venue.
#[derive(Clone, Debug)]
pub struct OrderbookState {
    /// Identifier of the pool's sub-account on the order-book venue.
    pub subaccount: String,
    /// How many observations must exist before readiness may flip to true.
    pub min_trades_to_avg: u32,
    /// Whether the order-book integration is trusted; flips false to true
    /// exactly once and is never reset.
    pub ready: bool,
}

} // verus!
