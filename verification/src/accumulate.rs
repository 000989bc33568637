use vstd::arithmetic::div_mod::lemma_fundamental_div_mod;
use vstd::prelude::*;

use crate::buffer::{appended, ObservationBuffer};
use crate::decimal::{
    checked_price_from_ratio, ratio_atomics, sma_buffer_not_full, sma_partial_atomics, sma_wrapped,
    sma_wrapped_atomics, Dec,
};
use crate::error::ContractError;
use crate::observation::{Observation, PrecommitObservation};
use crate::state::OrderbookState;

verus! {

/// The outcome of one accumulation run over the in-memory state: the window
/// and append count of the observation history, the readiness flag, and the
/// result handed back to the caller.
pub struct AccumStep {
    pub window: Seq<Observation>,
    pub total: int,
    pub ready: bool,
    pub result: Result<(), ContractError>,
}

/// The readiness gate after an append: once open it stays open, and it opens
/// as soon as the number of entries now present reaches the threshold.
pub open spec fn gate(ready: bool, min_trades: int, count: int) -> bool {
    ready || count >= min_trades
}

/// Appends the new observation and re-evaluates the readiness gate over the
/// count of entries now present, counting the just-appended one.
pub open spec fn commit_model(
    window: Seq<Observation>,
    total: int,
    cap: int,
    ready: bool,
    min_trades: int,
    obs: Observation,
) -> AccumStep {
    let w2 = appended(window, cap, obs);
    AccumStep {
        window: w2,
        total: total + 1,
        ready: gate(ready, min_trades, w2.len() as int),
        result: Ok(()),
    }
}

/// What one accumulation run does, as a function of the precommit slot, the
/// buffer contents, the readiness state and the current block time.
///
/// A missing precommit, a precommit no newer than the last stored
/// observation, and a first-ever sample within the current block are
/// no-ops; a zero quote amount or an out-of-range decimal operation is a
/// fatal error that leaves all state unchanged; anything else appends one
/// observation with the freshly observed price and the updated simple
/// moving average, and re-evaluates the readiness gate.
pub open spec fn accumulate_model(
    precommit: Option<PrecommitObservation>,
    window: Seq<Observation>,
    total: int,
    cap: int,
    ready: bool,
    min_trades: int,
    now: int,
) -> AccumStep {
    match precommit {
        None => AccumStep { window, total, ready, result: Ok(()) },
        Some(pc) => {
            if window.len() > 0 && window.last().ts >= pc.precommit_ts {
                AccumStep { window, total, ready, result: Ok(()) }
            } else if pc.quote_amount == 0 {
                AccumStep { window, total, ready, result: Err(ContractError::DivisionByZero) }
            } else if ratio_atomics(pc.base_amount as int, pc.quote_amount as int)
                    > u128::MAX as int {
                AccumStep { window, total, ready, result: Err(ContractError::Overflow) }
            } else {
                let price = Dec {
                    atomics: ratio_atomics(pc.base_amount as int, pc.quote_amount as int) as u128,
                };
                if window.len() == 0 {
                    if now > pc.precommit_ts {
                        commit_model(window, total, cap, ready, min_trades,
                            Observation { ts: pc.precommit_ts, price: price, price_sma: price })
                    } else {
                        AccumStep { window, total, ready, result: Ok(()) }
                    }
                } else if window.len() < cap {
                    let v = sma_partial_atomics(window.last().price_sma.atomics as int,
                        window.len() as int, price.atomics as int);
                    if v > u128::MAX as int {
                        AccumStep { window, total, ready, result: Err(ContractError::Overflow) }
                    } else {
                        commit_model(window, total, cap, ready, min_trades,
                            Observation {
                                ts: pc.precommit_ts,
                                price: price,
                                price_sma: Dec { atomics: v as u128 },
                            })
                    }
                } else {
                    let s = window.last().price_sma.atomics as int;
                    let o = window[0].price.atomics as int;
                    if s * cap + (price.atomics as int) < o {
                        AccumStep { window, total, ready, result: Err(ContractError::Underflow) }
                    } else {
                        let v = sma_wrapped_atomics(s, o, cap, price.atomics as int);
                        if v > u128::MAX as int {
                            AccumStep { window, total, ready, result: Err(ContractError::Overflow) }
                        } else {
                            commit_model(window, total, cap, ready, min_trades,
                                Observation {
                                    ts: pc.precommit_ts,
                                    price: price,
                                    price_sma: Dec { atomics: v as u128 },
                                })
                        }
                    }
                }
            }
        },
    }
}

/// For a positive count, comparing against the floored quotient decides
/// whether the product reaches the target.
proof fn lemma_div_decides_mul_ge(s: int, c: int, need: int)
    requires
        s >= 0,
        c >= 1,
        need >= 0,
    ensures
        (s * c >= need) <==> (s > need / c || (s == need / c && need % c == 0)),
{
    lemma_fundamental_div_mod(need, c);
    let q = need / c;
    let rem = need % c;
    if s > q {
        assert(s * c >= need) by (nonlinear_arith)
            requires
                s >= q + 1,
                c >= 1,
                need == c * q + rem,
                rem < c,
        ;
    } else if s == q {
        assert(s * c == c * q) by (nonlinear_arith)
            requires
                s == q,
        ;
    } else {
        assert(s * c < need) by (nonlinear_arith)
            requires
                s <= q - 1,
                c >= 1,
                need == c * q + rem,
                rem >= 0,
        ;
    }
}

/// Decides whether sma * count + new_price stays at or above oldest, the
/// condition under which the sliding-window numerator does not go negative,
/// without leaving 128-bit arithmetic.
fn no_underflow(sma: u128, oldest: u128, count: u32, new_price: u128) -> (r: bool)
    requires
        count >= 1,
    ensures
        r == ((sma as int) * (count as int) + new_price as int >= oldest as int),
{
    if new_price >= oldest {
        proof {
            assert((sma as int) * (count as int) >= 0) by (nonlinear_arith)
                requires
                    sma as int >= 0,
                    count as int >= 0,
            ;
        }
        true
    } else {
        let need = oldest - new_price;
        let q = need / (count as u128);
        let rem = need % (count as u128);
        proof {
            lemma_div_decides_mul_ge(sma as int, count as int, need as int);
        }
        sma > q || (sma == q && rem == 0)
    }
}

/// Runs one accumulation step over the in-memory state.
///
/// If a precommit is present and strictly newer than the last stored
/// observation, the observed price base / quote is appended together with
/// the updated simple moving average, and the readiness gate opens once the
/// entries now present reach the configured threshold; the very first
/// observation is only seeded once a full block has elapsed since the
/// precommit. Running the step again against the same precommit changes
/// nothing. A zero quote amount or a decimal out-of-range condition is a
/// fatal error that leaves the buffer and the readiness flag untouched.
pub fn accumulate_swap_sizes(
    precommit: Option<PrecommitObservation>,
    buffer: &mut ObservationBuffer,
    ob_state: &mut OrderbookState,
    now: u64,
) -> (r: Result<(), ContractError>)
    requires
        old(buffer).wf(),
        old(buffer).total_count() < u64::MAX,
    ensures
        final(buffer).wf(),
        final(buffer).cap() == old(buffer).cap(),
        final(ob_state).min_trades_to_avg == old(ob_state).min_trades_to_avg,
        final(ob_state).subaccount@ == old(ob_state).subaccount@,
        ({
            let step = accumulate_model(precommit, old(buffer).window(),
                old(buffer).total_count(), old(buffer).cap(), old(ob_state).ready,
                old(ob_state).min_trades_to_avg as int, now as int);
            &&& final(buffer).window() == step.window
            &&& final(buffer).total_count() == step.total
            &&& final(ob_state).ready == step.ready
            &&& r == step.result
        }),
{
    let pc = match precommit {
        Some(pc) => pc,
        None => {
            return Ok(());
        },
    };
    let last_opt = buffer.read_last();
    match last_opt {
        Some(last) => {
            if last.ts >= pc.precommit_ts {
                return Ok(());
            }
        },
        None => {},
    }
    if pc.quote_amount == 0 {
        return Err(ContractError::DivisionByZero);
    }
    let price = match checked_price_from_ratio(pc.base_amount, pc.quote_amount) {
        Some(p) => p,
        None => {
            return Err(ContractError::Overflow);
        },
    };
    let new_obs: Observation;
    match last_opt {
        None => {
            if now <= pc.precommit_ts {
                return Ok(());
            }
            new_obs = Observation { ts: pc.precommit_ts, price: price, price_sma: price };
        },
        Some(last) => {
            if buffer.is_full() {
                let oldest = match buffer.read_oldest() {
                    Some(o) => o,
                    None => last,  // never taken: the window is not empty here
                };
                let cap = buffer.capacity();
                if !no_underflow(last.price_sma.atomics, oldest.price.atomics, cap,
                        price.atomics) {
                    return Err(ContractError::Underflow);
                }
                match sma_wrapped(last.price_sma, oldest.price, cap, price) {
                    Some(sma) => {
                        new_obs = Observation {
                            ts: pc.precommit_ts,
                            price: price,
                            price_sma: sma,
                        };
                    },
                    None => {
                        return Err(ContractError::Overflow);
                    },
                }
            } else {
                let count = buffer.count();
                proof {
                    assert(buffer.window().len() < buffer.cap());
                    assert(buffer.cap() <= u32::MAX as int);
                }
                match sma_buffer_not_full(last.price_sma, count, price) {
                    Some(sma) => {
                        new_obs = Observation {
                            ts: pc.precommit_ts,
                            price: price,
                            price_sma: sma,
                        };
                    },
                    None => {
                        return Err(ContractError::Overflow);
                    },
                }
            }
        },
    }
    buffer.push(new_obs);
    let count_now = buffer.count();
    if !ob_state.ready && count_now >= ob_state.min_trades_to_avg {
        ob_state.ready = true;
    }
    Ok(())
}

} // verus!
