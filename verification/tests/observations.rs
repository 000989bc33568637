use pair_concentrated_inj::accumulate::accumulate_swap_sizes;
use pair_concentrated_inj::buffer::ObservationBuffer;
use pair_concentrated_inj::decimal::Dec;
use pair_concentrated_inj::error::ContractError;
use pair_concentrated_inj::observation::{Observation, PrecommitObservation};
use pair_concentrated_inj::state::OrderbookState;

fn test_state(min_trades_to_avg: u32) -> OrderbookState {
    OrderbookState {
        subaccount: "test".to_string(),
        min_trades_to_avg,
        ready: false,
    }
}

fn precommit(base_amount: u128, quote_amount: u128, precommit_ts: u64) -> PrecommitObservation {
    PrecommitObservation {
        base_amount,
        quote_amount,
        precommit_ts,
    }
}

#[test]
fn test_swap_observations() {
    let mut time: u64 = 1;
    let mut ob_state = test_state(10);
    let mut buffer = ObservationBuffer::new(10);
    let mut slot: Option<PrecommitObservation> = None;

    for _ in 0..=50 {
        accumulate_swap_sizes(slot, &mut buffer, &mut ob_state, time).unwrap();
        slot = Some(precommit(1000, 500, time));
        time += 1;
    }

    let obs = buffer.read_last().unwrap();
    assert_eq!(obs.ts, 50);
    assert_eq!(buffer.head(), 0);
    assert_eq!(obs.price, Dec::raw(2_000_000_000_000_000_000));
    assert_eq!(obs.price_sma, Dec::raw(2_000_000_000_000_000_000));
}

#[test]
fn test_contract_ready() {
    let mut time: u64 = 1_571_797_419;
    let min_trades_to_avg: u32 = 10;
    let mut ob_state = test_state(min_trades_to_avg);
    let mut buffer = ObservationBuffer::new(min_trades_to_avg);
    let mut slot: Option<PrecommitObservation> = None;

    for _ in 0..min_trades_to_avg {
        accumulate_swap_sizes(slot, &mut buffer, &mut ob_state, time).unwrap();
        slot = Some(precommit(1000, 500, time));
        time += 1;
    }
    assert!(!ob_state.ready, "Contract should not be ready yet");

    // last observation to make contract ready
    accumulate_swap_sizes(slot, &mut buffer, &mut ob_state, time).unwrap();

    assert!(ob_state.ready, "Contract should be ready");
}

#[test]
fn readiness_threshold_and_monotonicity() {
    let mut time: u64 = 100;
    let mut ob_state = test_state(10);
    let mut buffer = ObservationBuffer::new(10);

    // Nine successful accumulations: readiness stays off.
    for i in 0..9u64 {
        let slot = Some(precommit(1000, 500, time));
        time += 1;
        accumulate_swap_sizes(slot, &mut buffer, &mut ob_state, time).unwrap();
        assert_eq!(buffer.count(), (i + 1) as u32);
        assert!(!ob_state.ready);
    }

    // The tenth opens it.
    let slot = Some(precommit(1000, 500, time));
    time += 1;
    accumulate_swap_sizes(slot, &mut buffer, &mut ob_state, time).unwrap();
    assert_eq!(buffer.count(), 10);
    assert!(ob_state.ready);

    // And nothing closes it again.
    for _ in 0..5 {
        let slot = Some(precommit(3, 1, time));
        time += 1;
        accumulate_swap_sizes(slot, &mut buffer, &mut ob_state, time).unwrap();
        assert!(ob_state.ready);
    }
}

#[test]
fn skip_on_stale_precommit() {
    let mut ob_state = test_state(10);
    let mut buffer = ObservationBuffer::new(10);

    let slot = Some(precommit(1000, 500, 5));
    accumulate_swap_sizes(slot, &mut buffer, &mut ob_state, 6).unwrap();
    let head_before = buffer.head();
    let last_before = buffer.read_last().unwrap();

    // Re-running without a new precommit changes nothing.
    accumulate_swap_sizes(slot, &mut buffer, &mut ob_state, 7).unwrap();
    assert_eq!(buffer.head(), head_before);
    assert_eq!(buffer.read_last().unwrap().ts, last_before.ts);
    assert_eq!(buffer.read_last().unwrap(), last_before);
}

#[test]
fn empty_slot_is_a_noop() {
    let mut ob_state = test_state(10);
    let mut buffer = ObservationBuffer::new(10);
    accumulate_swap_sizes(None, &mut buffer, &mut ob_state, 42).unwrap();
    assert_eq!(buffer.count(), 0);
    assert!(buffer.read_last().is_none());
    assert!(!ob_state.ready);
}

#[test]
fn same_block_seed_is_held_back() {
    let mut ob_state = test_state(10);
    let mut buffer = ObservationBuffer::new(10);
    let slot = Some(precommit(1000, 500, 5));

    // Same block: the very first observation is not seeded yet.
    accumulate_swap_sizes(slot, &mut buffer, &mut ob_state, 5).unwrap();
    assert_eq!(buffer.count(), 0);

    // A block later it is.
    accumulate_swap_sizes(slot, &mut buffer, &mut ob_state, 6).unwrap();
    assert_eq!(buffer.count(), 1);
    let obs = buffer.read_last().unwrap();
    assert_eq!(obs.ts, 5);
    assert_eq!(obs.price, obs.price_sma);
}

#[test]
fn division_by_zero_preserves_state() {
    let mut ob_state = test_state(10);
    let mut buffer = ObservationBuffer::new(10);
    accumulate_swap_sizes(Some(precommit(1000, 500, 1)), &mut buffer, &mut ob_state, 2).unwrap();
    let head_before = buffer.head();
    let last_before = buffer.read_last().unwrap();

    let res = accumulate_swap_sizes(Some(precommit(7, 0, 3)), &mut buffer, &mut ob_state, 4);
    assert_eq!(res, Err(ContractError::DivisionByZero));
    assert_eq!(buffer.head(), head_before);
    assert_eq!(buffer.count(), 1);
    assert_eq!(buffer.read_last().unwrap(), last_before);
    assert!(!ob_state.ready);
}

#[test]
fn sma_wrapped_is_mean_of_live_window() {
    let mut ob_state = test_state(10);
    let mut buffer = ObservationBuffer::new(2);
    let one: u128 = 1_000_000_000_000_000_000;

    // Whole prices 1, 2 and 3 through a capacity-two buffer.
    accumulate_swap_sizes(Some(precommit(1, 1, 1)), &mut buffer, &mut ob_state, 2).unwrap();
    assert_eq!(buffer.read_last().unwrap().price_sma, Dec::raw(one));
    accumulate_swap_sizes(Some(precommit(2, 1, 2)), &mut buffer, &mut ob_state, 3).unwrap();
    // Cumulative mean of 1 and 2.
    assert_eq!(buffer.read_last().unwrap().price_sma, Dec::raw(one / 2 * 3));
    accumulate_swap_sizes(Some(precommit(3, 1, 3)), &mut buffer, &mut ob_state, 4).unwrap();
    // Sliding mean of the last two prices, 2 and 3.
    assert_eq!(buffer.read_last().unwrap().price_sma, Dec::raw(one / 2 * 5));
    assert_eq!(buffer.read_last().unwrap().price, Dec::raw(3 * one));
    assert_eq!(buffer.count(), 2);
}

#[test]
fn ratio_overflow_is_fatal() {
    let mut ob_state = test_state(10);
    let mut buffer = ObservationBuffer::new(10);
    let res = accumulate_swap_sizes(
        Some(precommit(u128::MAX, 1, 1)),
        &mut buffer,
        &mut ob_state,
        2,
    );
    assert_eq!(res, Err(ContractError::Overflow));
    assert_eq!(buffer.count(), 0);
}

#[test]
fn wrapped_overflow_is_fatal() {
    let mut ob_state = test_state(10);
    let mut buffer = ObservationBuffer::new(1);
    // A window whose stored average drifted far above its stored price.
    buffer.push(Observation {
        ts: 1,
        price: Dec::raw(0),
        price_sma: Dec::raw(u128::MAX),
    });
    let res = accumulate_swap_sizes(Some(precommit(5, 1, 2)), &mut buffer, &mut ob_state, 3);
    assert_eq!(res, Err(ContractError::Overflow));
    assert_eq!(buffer.count(), 1);
}

#[test]
fn wrapped_underflow_is_fatal() {
    let mut ob_state = test_state(10);
    let mut buffer = ObservationBuffer::new(2);
    let one: u128 = 1_000_000_000_000_000_000;

    // Atomic prices 3 then 0: the floored cumulative mean is 1, so the
    // sliding-window numerator 1 * 2 + 0 falls below the oldest price 3.
    accumulate_swap_sizes(Some(precommit(3, one, 1)), &mut buffer, &mut ob_state, 2).unwrap();
    accumulate_swap_sizes(Some(precommit(0, 1, 2)), &mut buffer, &mut ob_state, 3).unwrap();
    assert_eq!(buffer.read_last().unwrap().price_sma, Dec::raw(1));

    let res = accumulate_swap_sizes(Some(precommit(0, 1, 3)), &mut buffer, &mut ob_state, 4);
    assert_eq!(res, Err(ContractError::Underflow));
    assert_eq!(buffer.count(), 2);
}

#[test]
fn sma_floor_drift_stays_within_capacity() {
    let mut ob_state = test_state(10);
    let mut buffer = ObservationBuffer::new(2);
    let one: u128 = 1_000_000_000_000_000_000;

    // Atomic prices 1, 2, 4: the cumulative mean floors 1.5 down to 1, and
    // the sliding update then yields floor((1 * 2 + 4 - 1) / 2) = 2, one
    // atomic unit under the exact mean 3 of the live window [2, 4].
    accumulate_swap_sizes(Some(precommit(1, one, 1)), &mut buffer, &mut ob_state, 2).unwrap();
    accumulate_swap_sizes(Some(precommit(2, one, 2)), &mut buffer, &mut ob_state, 3).unwrap();
    assert_eq!(buffer.read_last().unwrap().price_sma, Dec::raw(1));
    accumulate_swap_sizes(Some(precommit(4, one, 3)), &mut buffer, &mut ob_state, 4).unwrap();
    assert_eq!(buffer.read_last().unwrap().price_sma, Dec::raw(2));
}
