use vstd::prelude::*;

use crate::decimal::{dec_from_units, to_decimal, Dec};
use crate::error::ContractError;

verus! {

/// First-match precision lookup over the configured asset table.
pub open spec fn lookup_precision(pairs: Seq<(u64, u32)>, asset_id: u64) -> Option<u32>
    decreases pairs.len(),
{
    if pairs.len() == 0 {
        None
    } else if pairs[0].0 == asset_id {
        Some(pairs[0].1)
    } else {
        lookup_precision(pairs.skip(1), asset_id)
    }
}

/// The asset/precision resolver: maps an asset identifier to the number of
/// decimal digits of that asset's native representation. A lookup miss is
/// the fatal UnknownAsset error.
pub struct Precisions {
    pairs: Vec<(u64, u32)>,
}

impl Precisions {
    /// The table of (asset identifier, precision) entries.
    pub closed spec fn table(self) -> Seq<(u64, u32)> {
        self.pairs@
    }

    /// Builds the resolver from its table.
    pub fn new(pairs: Vec<(u64, u32)>) -> (r: Precisions)
        ensures
            r.table() == pairs@,
    {
        Precisions { pairs }
    }

    /// Decimal precision configured for the given asset.
    pub fn get_precision(&self, asset_id: u64) -> (r: Result<u32, ContractError>)
        ensures
            r == (match lookup_precision(self.table(), asset_id) {
                Some(p) => Ok::<u32, ContractError>(p),
                None => Err::<u32, ContractError>(ContractError::UnknownAsset(asset_id)),
            }),
    {
        proof {
            assert(self.table().skip(0) =~= self.table());
        }
        let mut i: usize = 0;
        while i < self.pairs.len()
            invariant
                i <= self.pairs.len(),
                lookup_precision(self.table(), asset_id)
                    == lookup_precision(self.table().skip(i as int), asset_id),
                self.table() == self.pairs@,
            decreases self.pairs.len() - i,
        {
            if self.pairs[i].0 == asset_id {
                return Ok(self.pairs[i].1);
            }
            proof {
                assert(self.table().skip(i as int).skip(1) =~= self.table().skip(i as int + 1));
            }
            i = i + 1;
        }
        Err(ContractError::UnknownAsset(asset_id))
    }
}

/// Each raw balance converted to the shared decimal form using its asset's
/// configured precision, in asset-list order; the first lookup miss or
/// out-of-range conversion aborts the whole list.
pub open spec fn convert_model(
    pairs: Seq<(u64, u32)>,
    ids: Seq<u64>,
    amounts: Seq<u128>,
) -> Result<Seq<Dec>, ContractError>
    recommends
        ids.len() == amounts.len(),
    decreases ids.len(),
{
    if ids.len() == 0 {
        Ok(Seq::empty())
    } else {
        match lookup_precision(pairs, ids[0]) {
            None => Err(ContractError::UnknownAsset(ids[0])),
            Some(p) => {
                let v = dec_from_units(amounts[0] as int, p as int);
                if v > u128::MAX as int {
                    Err(ContractError::Overflow)
                } else {
                    match convert_model(pairs, ids.skip(1), amounts.skip(1)) {
                        Err(e) => Err(e),
                        Ok(rest) => Ok(seq![Dec { atomics: v as u128 }] + rest),
                    }
                }
            },
        }
    }
}

/// Pairwise checked sum of two aligned decimal vectors.
pub open spec fn merge_model(a: Seq<Dec>, b: Seq<Dec>) -> Result<Seq<Dec>, ContractError>
    recommends
        a.len() == b.len(),
    decreases a.len(),
{
    if a.len() == 0 {
        Ok(Seq::empty())
    } else if a[0].atomics as int + b[0].atomics as int > u128::MAX as int {
        Err(ContractError::Overflow)
    } else {
        match merge_model(a.skip(1), b.skip(1)) {
            Err(e) => Err(e),
            Ok(rest) => Ok(seq![Dec { atomics: (a[0].atomics + b[0].atomics) as u128 }] + rest),
        }
    }
}

/// The merged reserve vector: on-chain balances converted to decimal form,
/// off-chain sub-account balances converted the same way, then summed
/// index by index. The on-chain conversion runs first, so its errors take
/// precedence.
pub open spec fn query_pools_model(
    pairs: Seq<(u64, u32)>,
    ids: Seq<u64>,
    chain_amounts: Seq<u128>,
    subacc_amounts: Seq<u128>,
) -> Result<Seq<Dec>, ContractError> {
    match convert_model(pairs, ids, chain_amounts) {
        Err(e) => Err(e),
        Ok(chain_dec) => match convert_model(pairs, ids, subacc_amounts) {
            Err(e) => Err(e),
            Ok(subacc_dec) => merge_model(chain_dec, subacc_dec),
        },
    }
}

fn convert_from(
    precisions: &Precisions,
    ids: &Vec<u64>,
    amounts: &Vec<u128>,
    i: usize,
) -> (r: Result<Vec<Dec>, ContractError>)
    requires
        ids@.len() == amounts@.len(),
        i <= ids@.len(),
    ensures
        ({
            let m = convert_model(precisions.table(), ids@.skip(i as int),
                amounts@.skip(i as int));
            match r {
                Ok(v) => m == Ok::<Seq<Dec>, ContractError>(v@),
                Err(e) => m == Err::<Seq<Dec>, ContractError>(e),
            }
        }),
    decreases ids@.len() - i,
{
    if i == ids.len() {
        return Ok(Vec::new());
    }
    proof {
        assert(ids@.skip(i as int).skip(1) =~= ids@.skip(i as int + 1));
        assert(amounts@.skip(i as int).skip(1) =~= amounts@.skip(i as int + 1));
    }
    let p = match precisions.get_precision(ids[i]) {
        Ok(p) => p,
        Err(e) => {
            return Err(e);
        },
    };
    let d = match to_decimal(amounts[i], p) {
        Ok(d) => d,
        Err(e) => {
            return Err(e);
        },
    };
    let mut out = match convert_from(precisions, ids, amounts, i + 1) {
        Ok(v) => v,
        Err(e) => {
            return Err(e);
        },
    };
    let ghost rest = out@;
    out.insert(0, d);
    proof {
        assert(out@ =~= seq![d] + rest);
    }
    Ok(out)
}

/// Converts the pool's custodied on-chain balances, one per configured
/// asset in order, into the shared decimal representation.
pub fn query_contract_balances(
    precisions: &Precisions,
    asset_ids: &Vec<u64>,
    amounts: &Vec<u128>,
) -> (r: Result<Vec<Dec>, ContractError>)
    requires
        asset_ids@.len() == amounts@.len(),
    ensures
        ({
            let m = convert_model(precisions.table(), asset_ids@, amounts@);
            match r {
                Ok(v) => m == Ok::<Seq<Dec>, ContractError>(v@),
                Err(e) => m == Err::<Seq<Dec>, ContractError>(e),
            }
        }),
{
    proof {
        assert(asset_ids@.skip(0) =~= asset_ids@);
        assert(amounts@.skip(0) =~= amounts@);
    }
    convert_from(precisions, asset_ids, amounts, 0)
}

/// A successful conversion yields exactly one decimal per asset.
pub proof fn lemma_convert_model_len(pairs: Seq<(u64, u32)>, ids: Seq<u64>, amounts: Seq<u128>)
    requires
        ids.len() == amounts.len(),
    ensures
        (match convert_model(pairs, ids, amounts) {
            Ok(v) => v.len() == ids.len(),
            Err(_) => true,
        }),
    decreases ids.len(),
{
    if ids.len() > 0 {
        lemma_convert_model_len(pairs, ids.skip(1), amounts.skip(1));
    }
}

fn merge_from(a: &Vec<Dec>, b: &Vec<Dec>, i: usize) -> (r: Result<Vec<Dec>, ContractError>)
    requires
        a@.len() == b@.len(),
        i <= a@.len(),
    ensures
        ({
            let m = merge_model(a@.skip(i as int), b@.skip(i as int));
            match r {
                Ok(v) => m == Ok::<Seq<Dec>, ContractError>(v@),
                Err(e) => m == Err::<Seq<Dec>, ContractError>(e),
            }
        }),
    decreases a@.len() - i,
{
    if i == a.len() {
        return Ok(Vec::new());
    }
    proof {
        assert(a@.skip(i as int).skip(1) =~= a@.skip(i as int + 1));
        assert(b@.skip(i as int).skip(1) =~= b@.skip(i as int + 1));
    }
    let d = match a[i].checked_add(b[i]) {
        Some(d) => d,
        None => {
            return Err(ContractError::Overflow);
        },
    };
    let mut out = match merge_from(a, b, i + 1) {
        Ok(v) => v,
        Err(e) => {
            return Err(e);
        },
    };
    let ghost rest = out@;
    out.insert(0, d);
    proof {
        assert(out@ =~= seq![d] + rest);
    }
    Ok(out)
}

/// Computes the pool's effective tradable reserves: the custodied on-chain
/// balances and the order-book sub-account balances, each in the asset's
/// native precision, are converted to the shared decimal representation and
/// summed index by index over the configured asset list. No asset is
/// dropped, none is added, and any lookup miss or out-of-range value aborts
/// the whole reconciliation.
pub fn query_pools(
    precisions: &Precisions,
    asset_ids: &Vec<u64>,
    contract_amounts: &Vec<u128>,
    subacc_amounts: &Vec<u128>,
) -> (r: Result<Vec<Dec>, ContractError>)
    requires
        asset_ids@.len() == contract_amounts@.len(),
        asset_ids@.len() == subacc_amounts@.len(),
    ensures
        ({
            let m = query_pools_model(precisions.table(), asset_ids@, contract_amounts@,
                subacc_amounts@);
            match r {
                Ok(v) => m == Ok::<Seq<Dec>, ContractError>(v@),
                Err(e) => m == Err::<Seq<Dec>, ContractError>(e),
            }
        }),
{
    let chain_dec = match query_contract_balances(precisions, asset_ids, contract_amounts) {
        Ok(v) => v,
        Err(e) => {
            return Err(e);
        },
    };
    let subacc_dec = match query_contract_balances(precisions, asset_ids, subacc_amounts) {
        Ok(v) => v,
        Err(e) => {
            return Err(e);
        },
    };
    proof {
        lemma_convert_model_len(precisions.table(), asset_ids@, contract_amounts@);
        lemma_convert_model_len(precisions.table(), asset_ids@, subacc_amounts@);
        assert(chain_dec@.skip(0) =~= chain_dec@);
        assert(subacc_dec@.skip(0) =~= subacc_dec@);
    }
    merge_from(&chain_dec, &subacc_dec, 0)
}

} // verus!
