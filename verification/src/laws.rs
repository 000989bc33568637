use vstd::arithmetic::div_mod::{lemma_fundamental_div_mod, lemma_mod_bound};
use vstd::prelude::*;

use crate::accumulate::{accumulate_model, AccumStep};
use crate::decimal::{dec_from_units, ratio_atomics, Dec};
use crate::error::ContractError;
use crate::observation::{Observation, PrecommitObservation};
use crate::reconcile::{
    convert_model, lookup_precision, merge_model, query_pools_model,
};

verus! {

/// One accumulation call as the model sees it: the contents of the
/// precommit slot and the block time at which the call runs.
pub struct AccumCall {
    pub precommit: Option<PrecommitObservation>,
    pub now: int,
}

/// Runs the accumulation model over a sequence of calls, earliest first.
pub open spec fn run_accumulate(
    calls: Seq<AccumCall>,
    window: Seq<Observation>,
    total: int,
    cap: int,
    ready: bool,
    min_trades: int,
) -> AccumStep
    decreases calls.len(),
{
    if calls.len() == 0 {
        AccumStep { window, total, ready, result: Ok(()) }
    } else {
        let st = accumulate_model(calls[0].precommit, window, total, cap, ready, min_trades,
            calls[0].now);
        run_accumulate(calls.skip(1), st.window, st.total, cap, st.ready, min_trades)
    }
}

/// Law (monotonic readiness): once the readiness flag is true, no sequence
/// of further accumulation calls can set it false.
pub proof fn lemma_ready_monotonic(
    calls: Seq<AccumCall>,
    window: Seq<Observation>,
    total: int,
    cap: int,
    min_trades: int,
)
    ensures
        run_accumulate(calls, window, total, cap, true, min_trades).ready,
    decreases calls.len(),
{
    if calls.len() > 0 {
        let st = accumulate_model(calls[0].precommit, window, total, cap, true, min_trades,
            calls[0].now);
        assert(st.ready);
        lemma_ready_monotonic(calls.skip(1), st.window, st.total, cap, min_trades);
    }
}

/// Law (idempotence): running the accumulation step a second time against
/// the same precommit leaves the observation history and the readiness flag
/// exactly as the first run left them. The one input left out is the
/// first-ever sample held back by the same-block guard on the first run and
/// released by a later block time on the second: there the precommit is
/// still unconsumed, and consuming it then is the intended behavior.
pub proof fn lemma_accumulate_idempotent(
    pc: PrecommitObservation,
    window: Seq<Observation>,
    total: int,
    cap: int,
    ready: bool,
    min_trades: int,
    now1: int,
    now2: int,
)
    requires
        cap >= 1,
        window.len() <= cap,
        !(window.len() == 0 && now1 <= pc.precommit_ts && now2 > pc.precommit_ts),
    ensures
        ({
            let st1 = accumulate_model(Some(pc), window, total, cap, ready, min_trades, now1);
            let st2 = accumulate_model(Some(pc), st1.window, st1.total, cap, st1.ready,
                min_trades, now2);
            st2.window == st1.window && st2.total == st1.total && st2.ready == st1.ready
        }),
{
    let st1 = accumulate_model(Some(pc), window, total, cap, ready, min_trades, now1);
    if st1.window != window {
        assert(st1.window.len() > 0);
        assert(st1.window.last().ts == pc.precommit_ts);
    }
}

/// Every observation in the window carries this price and this SMA.
pub open spec fn all_at_price(window: Seq<Observation>, p: u128) -> bool {
    forall|j: int|
        0 <= j < window.len() ==> (#[trigger] window[j]).price.atomics == p
            && window[j].price_sma.atomics == p
}

/// The call carries a precommit whose observed price, if one can be formed,
/// is exactly p.
pub open spec fn constant_price_call(call: AccumCall, p: u128) -> bool {
    match call.precommit {
        None => true,
        Some(pc) => pc.quote_amount != 0
            ==> ratio_atomics(pc.base_amount as int, pc.quote_amount as int) == p as int,
    }
}

proof fn lemma_constant_price_step(
    pc_opt: Option<PrecommitObservation>,
    window: Seq<Observation>,
    total: int,
    cap: int,
    ready: bool,
    min_trades: int,
    now: int,
    p: u128,
)
    requires
        cap >= 1,
        window.len() <= cap,
        all_at_price(window, p),
        constant_price_call(AccumCall { precommit: pc_opt, now }, p),
    ensures
        ({
            let st = accumulate_model(pc_opt, window, total, cap, ready, min_trades, now);
            all_at_price(st.window, p) && st.window.len() <= cap
        }),
{
    let st = accumulate_model(pc_opt, window, total, cap, ready, min_trades, now);
    if st.window != window {
        let pcv = pc_opt.unwrap();
        let price = Dec {
            atomics: ratio_atomics(pcv.base_amount as int, pcv.quote_amount as int) as u128,
        };
        assert(price.atomics == p);
        if window.len() == 0 {
            assert(all_at_price(st.window, p));
        } else if window.len() < cap {
            let n = window.len() as int;
            let s = window.last().price_sma.atomics as int;
            assert(s == p) by {
                assert(window[n - 1].price_sma.atomics == p);
            }
            assert((p as int) * n + p == (p as int) * (n + 1)) by (nonlinear_arith);
            assert(((p as int) * (n + 1)) / (n + 1) == p) by (nonlinear_arith)
                requires
                    n >= 0,
            ;
            assert(all_at_price(st.window, p));
        } else {
            let s = window.last().price_sma.atomics as int;
            let o = window[0].price.atomics as int;
            assert(s == p) by {
                assert(window[window.len() - 1].price_sma.atomics == p);
            }
            assert(o == p);
            assert((p as int) * cap + p - p == (p as int) * cap);
            assert(((p as int) * cap) / cap == p) by (nonlinear_arith)
                requires
                    cap >= 1,
            ;
            window.remove_ensures(0);
            assert(all_at_price(st.window, p));
        }
    }
}

/// Law (SMA of a constant price): starting from an empty history, any
/// sequence of accumulation calls whose observable price is always p leaves
/// every stored observation, and with it the SMA after each step, at
/// exactly p.
pub proof fn lemma_sma_constant_price(
    calls: Seq<AccumCall>,
    window: Seq<Observation>,
    total: int,
    cap: int,
    ready: bool,
    min_trades: int,
    p: u128,
)
    requires
        cap >= 1,
        window.len() <= cap,
        all_at_price(window, p),
        forall|i: int|
            0 <= i < calls.len() ==> constant_price_call(#[trigger] calls[i], p),
    ensures
        all_at_price(run_accumulate(calls, window, total, cap, ready, min_trades).window, p),
    decreases calls.len(),
{
    if calls.len() > 0 {
        let st = accumulate_model(calls[0].precommit, window, total, cap, ready, min_trades,
            calls[0].now);
        lemma_constant_price_step(calls[0].precommit, window, total, cap, ready, min_trades,
            calls[0].now, p);
        assert(forall|i: int|
            0 <= i < calls.skip(1).len() ==> constant_price_call(#[trigger] calls.skip(1)[i], p));
        lemma_sma_constant_price(calls.skip(1), st.window, st.total, cap, st.ready, min_trades, p);
    }
}

/// Sum of the stored prices, in atomic units.
pub open spec fn sum_prices(window: Seq<Observation>) -> int
    decreases window.len(),
{
    if window.len() == 0 {
        0
    } else {
        window[0].price.atomics + sum_prices(window.skip(1))
    }
}

proof fn lemma_sum_push(window: Seq<Observation>, obs: Observation)
    ensures
        sum_prices(window.push(obs)) == sum_prices(window) + obs.price.atomics,
    decreases window.len(),
{
    if window.len() == 0 {
        assert(window.push(obs)[0] == obs);
        assert(window.push(obs).skip(1) =~= Seq::<Observation>::empty());
        assert(sum_prices(window.push(obs))
            == obs.price.atomics + sum_prices(Seq::<Observation>::empty()));
        assert(sum_prices(Seq::<Observation>::empty()) == 0);
        assert(sum_prices(window) == 0);
    } else {
        assert(window.push(obs)[0] == window[0]);
        assert(window.push(obs).skip(1) =~= window.skip(1).push(obs));
        lemma_sum_push(window.skip(1), obs);
        assert(sum_prices(window.push(obs))
            == window[0].price.atomics + sum_prices(window.skip(1).push(obs)));
        assert(sum_prices(window) == window[0].price.atomics + sum_prices(window.skip(1)));
    }
}

/// The last stored SMA times the entry count never overshoots the sum of
/// the stored prices, and undershoots it by less than one atomic unit per
/// append made so far, per entry.
pub open spec fn sma_tracks(window: Seq<Observation>, steps: int) -> bool {
    window.len() > 0 ==> {
        let s = window.last().price_sma.atomics as int;
        let n = window.len() as int;
        n * s <= sum_prices(window) && n * s >= sum_prices(window) - n * (steps - 1)
    }
}

proof fn lemma_sma_tracks_step(
    pc_opt: Option<PrecommitObservation>,
    window: Seq<Observation>,
    total: int,
    cap: int,
    ready: bool,
    min_trades: int,
    now: int,
)
    requires
        cap >= 1,
        window.len() <= cap,
        total >= window.len(),
        sma_tracks(window, total),
    ensures
        ({
            let st = accumulate_model(pc_opt, window, total, cap, ready, min_trades, now);
            sma_tracks(st.window, st.total) && st.window.len() <= cap
                && st.total >= st.window.len()
        }),
{
    let st = accumulate_model(pc_opt, window, total, cap, ready, min_trades, now);
    if st.window != window {
        let pcv = pc_opt.unwrap();
        let pa = (ratio_atomics(pcv.base_amount as int, pcv.quote_amount as int) as u128) as int;
        if window.len() == 0 {
            let obs = st.window.last();
            assert(st.window =~= Seq::<Observation>::empty().push(obs));
            lemma_sum_push(Seq::<Observation>::empty(), obs);
        } else if window.len() < cap {
            let n = window.len() as int;
            let s = window.last().price_sma.atomics as int;
            let x = s * n + pa;
            let v = x / (n + 1);
            lemma_fundamental_div_mod(x, n + 1);
            lemma_mod_bound(x, n + 1);
            let obs = st.window.last();
            lemma_sum_push(window, obs);
            assert(sum_prices(st.window) == sum_prices(window) + pa);
            assert((n + 1) * v <= x && (n + 1) * v >= x - n) by (nonlinear_arith)
                requires
                    x == (n + 1) * v + x % (n + 1),
                    0 <= x % (n + 1) <= n,
            ;
            assert(n * s >= sum_prices(window) - n * (total - 1));
            assert((n + 1) * v >= sum_prices(st.window) - (n + 1) * total)
                by (nonlinear_arith)
                requires
                    (n + 1) * v >= x - n,
                    x == s * n + pa,
                    n * s >= sum_prices(window) - n * (total - 1),
                    sum_prices(st.window) == sum_prices(window) + pa,
                    n >= 1,
                    total >= 0,
            ;
        } else {
            let n = cap;
            let s = window.last().price_sma.atomics as int;
            let o = window[0].price.atomics as int;
            let x = s * n + pa - o;
            let v = x / n;
            lemma_fundamental_div_mod(x, n);
            lemma_mod_bound(x, n);
            let obs = st.window.last();
            assert(window.remove(0) =~= window.skip(1));
            assert(st.window =~= window.skip(1).push(obs));
            lemma_sum_push(window.skip(1), obs);
            assert(sum_prices(window) == o + sum_prices(window.skip(1)));
            assert(sum_prices(st.window) == sum_prices(window) - o + pa);
            assert(st.window.len() == n);
            assert(n * v <= x && n * v >= x - (n - 1)) by (nonlinear_arith)
                requires
                    x == n * (x / n) + x % n,
                    v == x / n,
                    0 <= x % n <= n - 1,
            ;
            assert(n * s >= sum_prices(window) - n * (total - 1));
            assert(n * v >= sum_prices(st.window) - n * total) by (nonlinear_arith)
                requires
                    n * v >= x - (n - 1),
                    x == s * n + pa - o,
                    n * s >= sum_prices(window) - n * (total - 1),
                    sum_prices(st.window) == sum_prices(window) - o + pa,
                    n >= 1,
            ;
        }
    }
}

/// The SMA tracking bound holds along any run of the model.
pub proof fn lemma_sma_tracks_run(
    calls: Seq<AccumCall>,
    window: Seq<Observation>,
    total: int,
    cap: int,
    ready: bool,
    min_trades: int,
)
    requires
        cap >= 1,
        window.len() <= cap,
        total >= window.len(),
        sma_tracks(window, total),
    ensures
        ({
            let end = run_accumulate(calls, window, total, cap, ready, min_trades);
            sma_tracks(end.window, end.total) && end.window.len() <= cap
                && end.total >= end.window.len()
        }),
    decreases calls.len(),
{
    if calls.len() > 0 {
        let st = accumulate_model(calls[0].precommit, window, total, cap, ready, min_trades,
            calls[0].now);
        lemma_sma_tracks_step(calls[0].precommit, window, total, cap, ready, min_trades,
            calls[0].now);
        lemma_sma_tracks_run(calls.skip(1), st.window, st.total, cap, st.ready, min_trades);
    }
}

/// Law (SMA over a wrapped buffer): run the model from an empty history of
/// capacity C; once C + 1 observations have been appended, the final SMA is
/// the arithmetic mean of the C prices still stored, within a fixed-point
/// rounding drift of at most C atomic units below the exact mean.
pub proof fn lemma_sma_wrapped_mean(
    calls: Seq<AccumCall>,
    cap: int,
    ready: bool,
    min_trades: int,
)
    requires
        cap >= 1,
        run_accumulate(calls, Seq::<Observation>::empty(), 0, cap, ready, min_trades).total
            == cap + 1,
        run_accumulate(calls, Seq::<Observation>::empty(), 0, cap, ready, min_trades)
            .window.len() == cap,
    ensures
        ({
            let end = run_accumulate(calls, Seq::<Observation>::empty(), 0, cap, ready,
                min_trades);
            let s = end.window.last().price_sma.atomics as int;
            cap * s <= sum_prices(end.window)
                && cap * s >= sum_prices(end.window) - cap * cap
        }),
{
    lemma_sma_tracks_run(calls, Seq::<Observation>::empty(), 0, cap, ready, min_trades);
}

/// The precision the resolver holds for the asset, defaulting to zero
/// digits where there is no entry.
pub open spec fn precision_digits(pairs: Seq<(u64, u32)>, asset_id: u64) -> int {
    match lookup_precision(pairs, asset_id) {
        Some(p) => p as int,
        None => 0,
    }
}

proof fn lemma_convert_model_ok(pairs: Seq<(u64, u32)>, ids: Seq<u64>, amounts: Seq<u128>)
    requires
        ids.len() == amounts.len(),
    ensures
        (match convert_model(pairs, ids, amounts) {
            Ok(v) => v.len() == ids.len() && forall|j: int|
                0 <= j < ids.len() ==> lookup_precision(pairs, #[trigger] ids[j]) is Some
                    && v[j].atomics == dec_from_units(amounts[j] as int,
                        precision_digits(pairs, ids[j])),
            Err(_) => true,
        }),
    decreases ids.len(),
{
    if ids.len() > 0 {
        lemma_convert_model_ok(pairs, ids.skip(1), amounts.skip(1));
        if convert_model(pairs, ids, amounts) is Ok {
            let v = convert_model(pairs, ids, amounts).unwrap();
            let rest = convert_model(pairs, ids.skip(1), amounts.skip(1)).unwrap();
            assert forall|j: int| 0 <= j < ids.len() implies
                lookup_precision(pairs, #[trigger] ids[j]) is Some
                    && v[j].atomics == dec_from_units(amounts[j] as int,
                        precision_digits(pairs, ids[j])) by {
                if j == 0 {
                    crate::decimal::lemma_dec_from_units_nonneg(amounts[0] as int,
                        precision_digits(pairs, ids[0]));
                } else {
                    assert(ids.skip(1)[j - 1] == ids[j]);
                    assert(amounts.skip(1)[j - 1] == amounts[j]);
                    assert(v[j] == rest[j - 1]);
                }
            }
        }
    }
}

proof fn lemma_merge_model_ok(a: Seq<Dec>, b: Seq<Dec>)
    requires
        a.len() == b.len(),
    ensures
        (match merge_model(a, b) {
            Ok(v) => v.len() == a.len() && forall|j: int|
                0 <= j < a.len() ==> (#[trigger] v[j]).atomics == a[j].atomics + b[j].atomics,
            Err(_) => true,
        }),
    decreases a.len(),
{
    if a.len() > 0 {
        lemma_merge_model_ok(a.skip(1), b.skip(1));
    }
}

/// Law (reserve-vector alignment): for a configured asset list of length k,
/// a successful reconciliation returns exactly k decimal amounts, index by
/// index in the order of the asset list, each the sum of the converted
/// on-chain and off-chain balances of that asset.
pub proof fn lemma_reserve_vector_alignment(
    pairs: Seq<(u64, u32)>,
    ids: Seq<u64>,
    chain_amounts: Seq<u128>,
    subacc_amounts: Seq<u128>,
)
    requires
        ids.len() == chain_amounts.len(),
        ids.len() == subacc_amounts.len(),
    ensures
        (match query_pools_model(pairs, ids, chain_amounts, subacc_amounts) {
            Ok(v) => v.len() == ids.len() && forall|j: int|
                0 <= j < ids.len() ==> (#[trigger] v[j]).atomics as int
                    == dec_from_units(chain_amounts[j] as int, precision_digits(pairs, ids[j]))
                        + dec_from_units(subacc_amounts[j] as int,
                            precision_digits(pairs, ids[j])),
            Err(_) => true,
        }),
{
    lemma_convert_model_ok(pairs, ids, chain_amounts);
    lemma_convert_model_ok(pairs, ids, subacc_amounts);
    if let Ok(ca) = convert_model(pairs, ids, chain_amounts) {
        if let Ok(oa) = convert_model(pairs, ids, subacc_amounts) {
            lemma_merge_model_ok(ca, oa);
        }
    }
}

/// Law (zero off-chain balances): when every off-chain balance is zero, the
/// reconciliation reduces to the converted on-chain balances alone.
pub proof fn lemma_zero_subaccount_reduces(
    pairs: Seq<(u64, u32)>,
    ids: Seq<u64>,
    chain_amounts: Seq<u128>,
    subacc_amounts: Seq<u128>,
)
    requires
        ids.len() == chain_amounts.len(),
        ids.len() == subacc_amounts.len(),
        forall|j: int| 0 <= j < subacc_amounts.len() ==> #[trigger] subacc_amounts[j] == 0,
        convert_model(pairs, ids, chain_amounts) is Ok,
    ensures
        query_pools_model(pairs, ids, chain_amounts, subacc_amounts)
            == convert_model(pairs, ids, chain_amounts),
{
    lemma_convert_model_ok(pairs, ids, chain_amounts);
    let ca = convert_model(pairs, ids, chain_amounts).unwrap();
    lemma_convert_zeros(pairs, ids, subacc_amounts);
    let za = convert_model(pairs, ids, subacc_amounts).unwrap();
    lemma_merge_zero(ca, za);
}

proof fn lemma_dec_from_units_zero(precision: int)
    requires
        precision >= 0,
    ensures
        dec_from_units(0, precision) == 0,
{
    if precision > 18 {
        crate::decimal::lemma_pow10_pos((precision - 18) as nat);
        vstd::arithmetic::div_mod::lemma_basic_div(0,
            crate::decimal::pow10((precision - 18) as nat) as int);
    }
}

proof fn lemma_convert_zeros(pairs: Seq<(u64, u32)>, ids: Seq<u64>, amounts: Seq<u128>)
    requires
        ids.len() == amounts.len(),
        forall|j: int| 0 <= j < amounts.len() ==> #[trigger] amounts[j] == 0,
        forall|j: int| 0 <= j < ids.len() ==> lookup_precision(pairs, #[trigger] ids[j]) is Some,
    ensures
        (match convert_model(pairs, ids, amounts) {
            Ok(v) => v.len() == ids.len() && forall|j: int|
                0 <= j < v.len() ==> (#[trigger] v[j]).atomics == 0,
            Err(_) => false,
        }),
    decreases ids.len(),
{
    if ids.len() > 0 {
        lemma_dec_from_units_zero(precision_digits(pairs, ids[0]));
        lemma_convert_zeros(pairs, ids.skip(1), amounts.skip(1));
    }
}

proof fn lemma_merge_zero(a: Seq<Dec>, z: Seq<Dec>)
    requires
        a.len() == z.len(),
        forall|j: int| 0 <= j < z.len() ==> (#[trigger] z[j]).atomics == 0,
    ensures
        merge_model(a, z) == Ok::<Seq<Dec>, ContractError>(a),
    decreases a.len(),
{
    if a.len() == 0 {
        assert(a =~= Seq::<Dec>::empty());
    } else {
        lemma_merge_zero(a.skip(1), z.skip(1));
        assert(Dec { atomics: (a[0].atomics + z[0].atomics) as u128 } == a[0]);
        assert(seq![a[0]] + a.skip(1) =~= a);
    }
}

} // verus!
