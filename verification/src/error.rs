use vstd::prelude::*;

verus! {

/// Errors surfaced by the pricing-support core. Every failure aborts the
/// whole accumulation or reconciliation call; no partial result is returned
/// and no error is downgraded to a default value.
#[derive(Clone, Copy, Debug, PartialEq, Eq, Structural)]
pub enum ContractError {
    /// The precision lookup found no entry for the asset with this identifier.
    UnknownAsset(u64),
    /// A precommit carried a zero quote amount, so no price can be formed.
    DivisionByZero,
    /// A decimal operation exceeded the representable range.
    Overflow,
    /// A decimal subtraction fell below zero.
    Underflow,
}

} // verus!
