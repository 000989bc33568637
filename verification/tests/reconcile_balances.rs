use pair_concentrated_inj::decimal::{to_decimal, Dec};
use pair_concentrated_inj::error::ContractError;
use pair_concentrated_inj::msg::MigrateMsg;
use pair_concentrated_inj::reconcile::{query_contract_balances, query_pools, Precisions};

fn table() -> Precisions {
    Precisions::new(vec![(1, 6), (2, 18), (3, 0)])
}

#[test]
fn reserve_vector_alignment_three_assets() {
    let precisions = table();
    let ids = vec![1u64, 2, 3];
    let chain = vec![5u128, 7, 2];
    let subacc = vec![1u128, 0, 3];

    let reserves = query_pools(&precisions, &ids, &chain, &subacc).unwrap();
    assert_eq!(reserves.len(), 3);
    assert_eq!(reserves[0], Dec::raw(6_000_000_000_000));
    assert_eq!(reserves[1], Dec::raw(7));
    assert_eq!(reserves[2], Dec::raw(5_000_000_000_000_000_000));
}

#[test]
fn zero_subaccount_reduces_to_chain_balances() {
    let precisions = table();
    let ids = vec![1u64, 2, 3];
    let chain = vec![41u128, 9, 1];
    let zeros = vec![0u128, 0, 0];

    let merged = query_pools(&precisions, &ids, &chain, &zeros).unwrap();
    let chain_only = query_contract_balances(&precisions, &ids, &chain).unwrap();
    assert_eq!(merged, chain_only);
    assert_eq!(merged.len(), 3);
}

#[test]
fn unknown_asset_aborts_reconciliation() {
    let precisions = table();
    let ids = vec![1u64, 9, 3];
    let chain = vec![1u128, 2, 3];
    let subacc = vec![0u128, 0, 0];

    let res = query_pools(&precisions, &ids, &chain, &subacc);
    assert_eq!(res, Err(ContractError::UnknownAsset(9)));
}

#[test]
fn conversion_overflow_aborts_reconciliation() {
    let precisions = table();
    // Asset 3 has zero decimal digits: its raw amounts scale by 10^18.
    let ids = vec![3u64];
    let chain = vec![1_000_000_000_000_000_000_000u128];
    let subacc = vec![0u128];

    let res = query_pools(&precisions, &ids, &chain, &subacc);
    assert_eq!(res, Err(ContractError::Overflow));
}

#[test]
fn merge_overflow_aborts_reconciliation() {
    let precisions = table();
    // Asset 2 converts one to one; the pairwise sum leaves the range.
    let ids = vec![2u64];
    let chain = vec![u128::MAX];
    let subacc = vec![1u128];

    let res = query_pools(&precisions, &ids, &chain, &subacc);
    assert_eq!(res, Err(ContractError::Overflow));
}

#[test]
fn precision_above_eighteen_floors() {
    assert_eq!(to_decimal(123_456, 20).unwrap(), Dec::raw(1_234));
    assert_eq!(to_decimal(5, 6).unwrap(), Dec::raw(5_000_000_000_000));
    assert_eq!(to_decimal(7, 18).unwrap(), Dec::raw(7));
}

#[test]
fn migrate_msg_exists() {
    let msg = MigrateMsg {};
    assert_eq!(msg, MigrateMsg {});
}
