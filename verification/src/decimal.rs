use vstd::arithmetic::div_mod::{lemma_basic_div, lemma_fundamental_div_mod};
use vstd::prelude::*;

use crate::error::ContractError;

verus! {

/// Number of atomic units in one whole unit: the decimal types used here
/// carry eighteen fractional digits.
pub const DECIMAL_FRACTIONAL: u128 = 1_000_000_000_000_000_000;

/// Fixed-point decimal with eighteen fractional digits, stored as a count of
/// atomic units (multiples of 10^-18). It mirrors the on-chain decimal
/// representation used for prices and reserve amounts.
#[derive(Clone, Copy, Debug, PartialEq, Eq, Structural)]
pub struct Dec {
    pub atomics: u128,
}

impl Dec {
    /// Builds a decimal directly from a count of atomic units.
    pub fn raw(value: u128) -> (r: Dec)
        ensures
            r.atomics == value,
    {
        Dec { atomics: value }
    }

    /// The zero amount.
    pub fn zero() -> (r: Dec)
        ensures
            r.atomics == 0,
    {
        Dec { atomics: 0 }
    }

    /// Checked addition over atomic units.
    pub fn checked_add(self, other: Dec) -> (r: Option<Dec>)
        ensures
            r == (if self.atomics as int + other.atomics as int > u128::MAX as int {
                None::<Dec>
            } else {
                Some(Dec { atomics: (self.atomics + other.atomics) as u128 })
            }),
    {
        if self.atomics <= u128::MAX - other.atomics {
            Some(Dec { atomics: self.atomics + other.atomics })
        } else {
            None
        }
    }
}

/// The price encoded by a pair of swap amounts, in atomic units:
/// floor(base * 10^18 / quote).
pub open spec fn ratio_atomics(base: int, quote: int) -> int
    recommends
        quote > 0,
{
    (base * (DECIMAL_FRACTIONAL as int)) / quote
}

/// Cumulative-mean update used while the observation buffer is still
/// filling: floor((sma * count + new_price) / (count + 1)), over atomic
/// units.
pub open spec fn sma_partial_atomics(sma: int, count: int, new_price: int) -> int {
    (sma * count + new_price) / (count + 1)
}

/// Sliding-window update used once the observation buffer has wrapped:
/// floor((sma * count + new_price - oldest_price) / count), over atomic
/// units.
pub open spec fn sma_wrapped_atomics(sma: int, oldest_price: int, count: int, new_price: int) -> int {
    (sma * count + new_price - oldest_price) / count
}

/// Relies on cosmwasm_std::Decimal::checked_from_ratio: it returns the
/// decimal whose atomic units are floor(base * 10^18 / quote), and an error
/// exactly when quote is zero or that quotient exceeds u128::MAX.
#[verifier::external_body]
pub(crate) fn checked_price_from_ratio(base: u128, quote: u128) -> (r: Option<Dec>)
    ensures
        r == (if quote == 0 || ratio_atomics(base as int, quote as int) > u128::MAX as int {
            None::<Dec>
        } else {
            Some(Dec { atomics: ratio_atomics(base as int, quote as int) as u128 })
        }),
{
    let num = cosmwasm_std::Uint128::new(base);
    let den = cosmwasm_std::Uint128::new(quote);
    match cosmwasm_std::Decimal::checked_from_ratio(num, den) {
        Ok(d) => Some(Dec { atomics: d.atomics().u128() }),
        Err(_) => None,
    }
}

/// Relies on astroport::observation::safe_sma_buffer_not_full: over 256-bit
/// intermediates it computes floor((sma * count + new_price) / (count + 1))
/// in atomic units, and errs exactly when that quotient exceeds u128::MAX.
/// Its count + 1 increment panics on u32 overflow, hence the bound on count.
#[verifier::external_body]
pub(crate) fn sma_buffer_not_full(sma: Dec, count: u32, new_price: Dec) -> (r: Option<Dec>)
    requires
        count < u32::MAX,
    ensures
        r == (if sma_partial_atomics(sma.atomics as int, count as int, new_price.atomics as int)
                > u128::MAX as int {
            None::<Dec>
        } else {
            Some(Dec {
                atomics: sma_partial_atomics(
                    sma.atomics as int, count as int, new_price.atomics as int) as u128,
            })
        }),
{
    let res = astroport::observation::safe_sma_buffer_not_full(
        cosmwasm_std::Decimal::raw(sma.atomics),
        count,
        cosmwasm_std::Decimal::raw(new_price.atomics),
    );
    match res {
        Ok(d) => Some(Dec { atomics: d.atomics().u128() }),
        Err(_) => None,
    }
}

/// Relies on astroport::observation::safe_sma_calculation: over 256-bit
/// intermediates it computes
/// floor((sma * count + new_price - oldest_price) / count) in atomic units,
/// and errs exactly when that quotient exceeds u128::MAX. Its 256-bit
/// subtraction panics when sma * count + new_price < oldest_price and its
/// denominator is zero when count is zero, hence the preconditions.
#[verifier::external_body]
pub(crate) fn sma_wrapped(sma: Dec, oldest_price: Dec, count: u32, new_price: Dec) -> (r: Option<
    Dec,
>)
    requires
        count >= 1,
        (sma.atomics as int) * (count as int) + new_price.atomics as int
            >= oldest_price.atomics as int,
    ensures
        r == (if sma_wrapped_atomics(
            sma.atomics as int, oldest_price.atomics as int, count as int,
            new_price.atomics as int) > u128::MAX as int {
            None::<Dec>
        } else {
            Some(Dec {
                atomics: sma_wrapped_atomics(
                    sma.atomics as int, oldest_price.atomics as int, count as int,
                    new_price.atomics as int) as u128,
            })
        }),
{
    let res = astroport::observation::safe_sma_calculation(
        cosmwasm_std::Decimal::raw(sma.atomics),
        cosmwasm_std::Decimal::raw(oldest_price.atomics),
        count,
        cosmwasm_std::Decimal::raw(new_price.atomics),
    );
    match res {
        Ok(d) => Some(Dec { atomics: d.atomics().u128() }),
        Err(_) => None,
    }
}

/// Ten to the given power.
pub open spec fn pow10(n: nat) -> nat
    decreases n,
{
    if n == 0 {
        1
    } else {
        10 * pow10((n - 1) as nat)
    }
}

/// Powers of ten are positive.
pub proof fn lemma_pow10_pos(n: nat)
    ensures
        pow10(n) >= 1,
    decreases n,
{
    if n > 0 {
        lemma_pow10_pos((n - 1) as nat);
    }
}

/// Powers of ten never shrink as the exponent grows.
pub proof fn lemma_pow10_grows(m: nat, n: nat)
    requires
        m <= n,
    ensures
        pow10(m) <= pow10(n),
    decreases n - m,
{
    lemma_pow10_pos(m);
    if m < n {
        lemma_pow10_grows(m, (n - 1) as nat);
        lemma_pow10_pos((n - 1) as nat);
    }
}

/// For a positive factor, staying at or under the floored quotient is the
/// same as the product staying in range.
pub proof fn lemma_mul_overflow_check(a: int, f: int, max: int)
    requires
        a >= 0,
        f >= 1,
        max >= 0,
    ensures
        (a <= max / f) <==> (a * f <= max),
{
    lemma_fundamental_div_mod(max, f);
    if a <= max / f {
        assert(a * f <= (max / f) * f) by (nonlinear_arith)
            requires
                a <= max / f,
                f >= 1,
                a >= 0,
        ;
        assert((max / f) * f <= max) by (nonlinear_arith)
            requires
                max == f * (max / f) + max % f,
                max % f >= 0,
        ;
    } else {
        assert(a * f >= (max / f + 1) * f) by (nonlinear_arith)
            requires
                a >= max / f + 1,
                f >= 1,
        ;
        assert((max / f + 1) * f > max) by (nonlinear_arith)
            requires
                max == f * (max / f) + max % f,
                max % f < f,
        ;
    }
}

/// Ten to the given power as a u128, or None when it does not fit.
pub fn pow10_checked(n: u32) -> (r: Option<u128>)
    ensures
        r == (if pow10(n as nat) > u128::MAX as int {
            None::<u128>
        } else {
            Some(pow10(n as nat) as u128)
        }),
{
    let mut acc: u128 = 1;
    let mut i: u32 = 0;
    while i < n
        invariant
            i <= n,
            acc == pow10(i as nat),
        decreases n - i,
    {
        proof {
            lemma_mul_overflow_check(acc as int, 10, u128::MAX as int);
            assert(pow10((i + 1) as nat) == 10 * pow10(i as nat));
        }
        if acc > u128::MAX / 10 {
            proof {
                lemma_pow10_grows((i + 1) as nat, n as nat);
            }
            return None;
        }
        acc = acc * 10;
        i = i + 1;
    }
    Some(acc)
}

/// A raw integer balance converted to atomic units using the asset's own
/// decimal precision: scaled up when the precision is below eighteen digits,
/// floored down when it is above.
pub open spec fn dec_from_units(amount: int, precision: int) -> int
    recommends
        amount >= 0,
        precision >= 0,
{
    if precision <= 18 {
        amount * pow10((18 - precision) as nat)
    } else {
        amount / pow10((precision - 18) as nat) as int
    }
}

/// Converted balances are never negative.
pub proof fn lemma_dec_from_units_nonneg(amount: int, precision: int)
    requires
        amount >= 0,
        precision >= 0,
    ensures
        dec_from_units(amount, precision) >= 0,
{
    if precision <= 18 {
        lemma_pow10_pos((18 - precision) as nat);
        assert(amount * pow10((18 - precision) as nat) >= 0) by (nonlinear_arith)
            requires
                amount >= 0,
                pow10((18 - precision) as nat) >= 0,
        ;
    } else {
        lemma_pow10_pos((precision - 18) as nat);
        assert(amount / (pow10((precision - 18) as nat) as int) >= 0) by (nonlinear_arith)
            requires
                amount >= 0,
                pow10((precision - 18) as nat) >= 1,
        ;
    }
}

/// Eighteen is exactly the exponent of one whole unit.
pub proof fn lemma_pow10_18()
    ensures
        pow10(18) == DECIMAL_FRACTIONAL,
{
    reveal_with_fuel(pow10, 19);
}

/// Converts a raw integer balance into the shared decimal representation
/// using the given precision; overflow of the representable range is fatal.
pub fn to_decimal(amount: u128, precision: u32) -> (r: Result<Dec, ContractError>)
    ensures
        r == (if dec_from_units(amount as int, precision as int) > u128::MAX as int {
            Err::<Dec, ContractError>(ContractError::Overflow)
        } else {
            Ok::<Dec, ContractError>(Dec {
                atomics: dec_from_units(amount as int, precision as int) as u128,
            })
        }),
{
    if precision <= 18 {
        proof {
            lemma_pow10_grows((18 - precision) as nat, 18);
            lemma_pow10_18();
            lemma_pow10_pos((18 - precision) as nat);
        }
        let factor = match pow10_checked(18 - precision) {
            Some(f) => f,
            None => 1,  // never taken: a power of ten at or below 10^18 fits
        };
        proof {
            lemma_mul_overflow_check(amount as int, factor as int, u128::MAX as int);
        }
        if amount > u128::MAX / factor {
            Err(ContractError::Overflow)
        } else {
            Ok(Dec { atomics: amount * factor })
        }
    } else {
        match pow10_checked(precision - 18) {
            Some(f) => {
                proof {
                    lemma_pow10_pos((precision - 18) as nat);
                }
                Ok(Dec { atomics: amount / f })
            },
            None => {
                proof {
                    lemma_basic_div(amount as int, pow10((precision - 18) as nat) as int);
                }
                Ok(Dec { atomics: 0 })
            },
        }
    }
}

} // verus!
