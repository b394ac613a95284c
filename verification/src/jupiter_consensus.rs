use crate::decimal::SignedDecimal256;
use crate::items::{lemma_consensus_unanimous, ConsensusItem, all_items_equal, consensus_on_items, consensus_on_items_u64, consensus_on_items_u8, consensus_on_items_uint128, consensus_on_items_dec256, consensus_safe, spec_consensus, values};
use crate::consensus::{ConsensusData, ConsensusError};
use crate::jupiter::{Config, CustodyAsset, SolanaBalance, SolanaTokenDecimals, SolanaTokenTotalSupply, CustodyAssetView, SolanaBalanceView, SolanaData, SolanaDataView, SolanaTokenDecimalsView, SolanaTokenTotalSupplyView};
use crate::jupiter_cleanup::cleanup_solana;
use crate::sequences::{lemma_filter_prefix, lemma_filter_step, views, Duplicate};
use std::collections::HashSet;
use std::hash::Hash;
use vstd::prelude::*;
use vstd::std_specs::cmp::PartialEqSpec;

verus! {

broadcast use vstd::std_specs::hash::group_hash_axioms;

/// The items that count in the group of value `v`: not filtered out, and equal to `v`.
pub open spec fn in_group<T: PartialEq>(out: Set<usize>, v: T) -> spec_fn((usize, T)) -> bool {
    |p: (usize, T)| !out.contains(p.0) && p.1.eq_spec(&v)
}

/// The size of the group of value `v`.
pub open spec fn group_size<T: PartialEq>(out: Set<usize>, items: Seq<(usize, T)>, v: T) -> nat {
    items.filter(in_group(out, v)).len()
}

/// Item `k` counts (it is not filtered out) and its group is smaller than `threshold`.
pub open spec fn in_minority<T: PartialEq>(
    out: Set<usize>,
    items: Seq<(usize, T)>,
    threshold: int,
    k: int,
) -> bool {
    !out.contains(items[k].0) && group_size(out, items, items[k].1) < threshold
}

/// Item `k` counts and its group reaches `threshold`.
pub open spec fn in_majority<T: PartialEq>(
    out: Set<usize>,
    items: Seq<(usize, T)>,
    threshold: int,
    k: int,
) -> bool {
    !out.contains(items[k].0) && group_size(out, items, items[k].1) >= threshold
}

/// The indices of the items among the first `m` that are in a minority group.
pub open spec fn minority_indices<T: PartialEq>(
    out: Set<usize>,
    items: Seq<(usize, T)>,
    threshold: int,
    m: int,
) -> Set<usize> {
    Set::new(
        |i: usize|
            exists|k: int| 0 <= k < m && #[trigger] items[k].0 == i && in_minority(out, items, threshold, k),
    )
}

/// The outcome of grouping: when some group reaches `threshold`, the filtered-out
/// indices together with those of every group below it; otherwise `None`.
pub open spec fn non_matching<T: PartialEq>(out: Set<usize>, items: Seq<(usize, T)>, threshold: int) -> Option<
    Set<usize>,
> {
    if exists|k: int| 0 <= k < items.len() && #[trigger] in_majority(out, items, threshold, k) {
        Some(out.union(minority_indices(out, items, threshold, items.len() as int)))
    } else {
        None
    }
}

/// The size of the group of item `k`.
fn group_count<T: Eq + Hash>(out: &HashSet<usize>, items: &[(usize, T)], k: usize) -> (r: usize)
    requires
        k < items@.len(),
    ensures
        T::obeys_eq_spec() ==> r == group_size(out@, items@, items@[k as int].1),
{
    let n = items.len();
    let ghost p = in_group(out@, items@[k as int].1);
    let mut count: usize = 0;
    let mut j: usize = 0;
    while j < n
        invariant
            j <= n,
            k < n,
            n == items@.len(),
            count <= j,
            p == in_group(out@, items@[k as int].1),
            T::obeys_eq_spec() ==> count == items@.subrange(0, j as int).filter(p).len(),
        decreases n - j,
    {
        proof {
            lemma_filter_step(items@, j as int, p);
        }
        if !out.contains(&items[j].0) && items[j].1 == items[k].1 {
            count += 1;
        }
        j += 1;
    }
    proof {
        assert(items@.subrange(0, n as int) =~= items@);
    }
    count
}

/// Groups the items that are not filtered out by value. When some group holds at
/// least `threshold` items, returns the filtered-out indices together with the
/// indices of the items of every smaller group; otherwise `None`.
pub fn find_indices_of_non_matching_items<T: Eq + Hash>(
    filtered_out_items: HashSet<usize>,
    items: &[(usize, T)],
    threshold: usize,
) -> (r: Option<HashSet<usize>>)
    ensures
        T::obeys_eq_spec() ==> match non_matching(filtered_out_items@, items@, threshold as int) {
            Some(s) => r matches Some(h) && h@ == s,
            None => r is None,
        },
{
    let ghost out = filtered_out_items@;
    let n = items.len();
    let mut add: Vec<usize> = Vec::new();
    let mut consensus_found = false;
    let mut k: usize = 0;
    while k < n
        invariant
            k <= n,
            n == items@.len(),
            out == filtered_out_items@,
            T::obeys_eq_spec() ==> add@.to_set() == minority_indices(
                out,
                items@,
                threshold as int,
                k as int,
            ),
            T::obeys_eq_spec() ==> (consensus_found <==> exists|m: int|
                0 <= m < k && #[trigger] in_majority(out, items@, threshold as int, m)),
        decreases n - k,
    {
        let ghost before = add@;
        if !filtered_out_items.contains(&items[k].0) {
            let count = group_count(&filtered_out_items, items, k);
            if count < threshold {
                add.push(items[k].0);
            } else {
                consensus_found = true;
            }
        }
        proof {
            if T::obeys_eq_spec() {
                let t = threshold as int;
                before.lemma_push_to_set_commute(items@[k as int].0);
                let prev = minority_indices(out, items@, t, k as int);
                let next = minority_indices(out, items@, t, k + 1);
                if in_majority(out, items@, t, k as int) {
                    assert(exists|m: int| 0 <= m < k + 1 && #[trigger] in_majority(out, items@, t, m));
                }
                if exists|m: int| 0 <= m < k + 1 && #[trigger] in_majority(out, items@, t, m) {
                    let m = choose|m: int| 0 <= m < k + 1 && #[trigger] in_majority(out, items@, t, m);
                    if m < k {
                        assert(exists|m: int| 0 <= m < k && #[trigger] in_majority(out, items@, t, m));
                    }
                }
                if in_minority(out, items@, t, k as int) {
                    assert(add@ == before.push(items@[k as int].0));
                    assert forall|i: usize| next.contains(i) == prev.insert(items@[k as int].0).contains(
                        i,
                    ) by {
                        if next.contains(i) {
                            let m = choose|m: int|
                                0 <= m < k + 1 && #[trigger] items@[m].0 == i && in_minority(
                                    out,
                                    items@,
                                    t,
                                    m,
                                );
                            if m < k {
                                assert(prev.contains(i));
                            }
                        }
                        if prev.contains(i) {
                            let m = choose|m: int|
                                0 <= m < k && #[trigger] items@[m].0 == i && in_minority(out, items@, t, m);
                            assert(next.contains(i));
                        }
                    }
                    assert(next =~= prev.insert(items@[k as int].0));
                } else {
                    assert forall|i: usize| next.contains(i) == prev.contains(i) by {
                        if next.contains(i) {
                            let m = choose|m: int|
                                0 <= m < k + 1 && #[trigger] items@[m].0 == i && in_minority(
                                    out,
                                    items@,
                                    t,
                                    m,
                                );
                            assert(m != k);
                        }
                        if prev.contains(i) {
                            let m = choose|m: int|
                                0 <= m < k && #[trigger] items@[m].0 == i && in_minority(out, items@, t, m);
                            assert(next.contains(i));
                        }
                    }
                    assert(next =~= prev);
                }
            }
        }
        k += 1;
    }
    let mut result = filtered_out_items;
    let mut a: usize = 0;
    while a < add.len()
        invariant
            a <= add@.len(),
            result@ == out.union(add@.subrange(0, a as int).to_set()),
        decreases add@.len() - a,
    {
        proof {
            assert(add@.subrange(0, a + 1) =~= add@.subrange(0, a as int).push(add@[a as int]));
            add@.subrange(0, a as int).lemma_push_to_set_commute(add@[a as int]);
        }
        result.insert(add[a]);
        proof {
            assert(result@ =~= out.union(add@.subrange(0, a + 1).to_set()));
        }
        a += 1;
    }
    proof {
        assert(add@.subrange(0, add@.len() as int) =~= add@);
    }
    if consensus_found {
        Some(result)
    } else {
        None
    }
}

/// The values paired with their positions.
pub open spec fn enumerate<T>(s: Seq<T>) -> Seq<(usize, T)> {
    Seq::new(s.len(), |k: int| (k as usize, s[k]))
}

/// Maps each datum with `f` and finds, as `find_indices_of_non_matching_items`
/// does, the indices of the data outside a group of at least `threshold` equal
/// mapped values (together with the filtered-out ones).
pub fn find_unequal_indices_mapped<T: Eq + Hash, F: Fn(&SolanaData) -> T>(
    filtered_out_items: HashSet<usize>,
    data: &[SolanaData],
    threshold: usize,
    f: F,
) -> (r: Option<HashSet<usize>>)
    requires
        forall|k: int| 0 <= k < data@.len() ==> f.requires((&data@[k],)),
    ensures
        exists|ys: Seq<T>|
            {
                &&& ys.len() == data@.len()
                &&& forall|k: int| 0 <= k < data@.len() ==> f.ensures((&data@[k],), #[trigger] ys[k])
                &&& T::obeys_eq_spec() ==> match non_matching(
                    filtered_out_items@,
                    enumerate(ys),
                    threshold as int,
                ) {
                    Some(s) => r matches Some(h) && h@ == s,
                    None => r is None,
                }
            },
{
    let n = data.len();
    let mut items: Vec<(usize, T)> = Vec::new();
    let mut k: usize = 0;
    while k < n
        invariant
            k <= n,
            n == data@.len(),
            items@.len() == k,
            forall|m: int| 0 <= m < data@.len() ==> f.requires((&data@[m],)),
            forall|m: int| 0 <= m < k ==> (#[trigger] items@[m]).0 == m,
            forall|m: int| 0 <= m < k ==> f.ensures((&data@[m],), (#[trigger] items@[m]).1),
        decreases n - k,
    {
        let y = f(&data[k]);
        items.push((k, y));
        k += 1;
    }
    let ghost ys = items@.map_values(|p: (usize, T)| p.1);
    proof {
        assert(enumerate(ys) =~= items@);
        assert forall|m: int| 0 <= m < data@.len() implies f.ensures((&data@[m],), #[trigger] ys[m]) by {
            assert(ys[m] == items@[m].1);
        }
    }
    find_indices_of_non_matching_items(filtered_out_items, items.as_slice(), threshold)
}

/// Consensus on one `u128` field of the data.
pub fn consensus_on_field_u128<F: Fn(&SolanaData) -> u128>(
    data: &[SolanaData],
    extract: F,
    threshold: usize,
    delta_ppm: u64,
) -> (r: Option<u128>)
    requires
        forall|k: int| 0 <= k < data@.len() ==> extract.requires((&data@[k],)),
        forall|ys: Seq<u128>|
            ys.len() == data@.len() && (forall|k: int|
                0 <= k < data@.len() ==> extract.ensures((&data@[k],), #[trigger] ys[k]))
                ==> consensus_safe::<u128>(values(ys), threshold as int, delta_ppm),
    ensures
        exists|ys: Seq<u128>|
            {
                &&& ys.len() == data@.len()
                &&& forall|k: int| 0 <= k < data@.len() ==> extract.ensures((&data@[k],), #[trigger] ys[k])
                &&& r is Some <==> spec_consensus::<u128>(values(ys), threshold as int, delta_ppm) is Some
                &&& r matches Some(x) ==> spec_consensus::<u128>(values(ys), threshold as int, delta_ppm)
                    == Some(x as int)
            },
{
    let n = data.len();
    let mut items: Vec<u128> = Vec::new();
    let mut k: usize = 0;
    while k < n
        invariant
            k <= n,
            n == data@.len(),
            items@.len() == k,
            forall|m: int| 0 <= m < data@.len() ==> extract.requires((&data@[m],)),
            forall|m: int| 0 <= m < k ==> extract.ensures((&data@[m],), #[trigger] items@[m]),
        decreases n - k,
    {
        let y = extract(&data[k]);
        items.push(y);
        k += 1;
    }
    consensus_on_items(items.as_slice(), threshold, delta_ppm)
}

/// Consensus on one `SignedDecimal256` field of the data.
pub fn consensus_on_field_dec_256<F: Fn(&SolanaData) -> SignedDecimal256>(
    data: &[SolanaData],
    extract: F,
    threshold: usize,
    delta_ppm: u64,
) -> (r: Option<SignedDecimal256>)
    requires
        forall|k: int| 0 <= k < data@.len() ==> extract.requires((&data@[k],)),
    ensures
        exists|ys: Seq<SignedDecimal256>|
            {
                &&& ys.len() == data@.len()
                &&& forall|k: int| 0 <= k < data@.len() ==> extract.ensures((&data@[k],), #[trigger] ys[k])
                &&& r is Some <==> spec_consensus::<SignedDecimal256>(
                    values(ys),
                    threshold as int,
                    delta_ppm,
                ) is Some
                &&& r matches Some(x) ==> spec_consensus::<SignedDecimal256>(
                    values(ys),
                    threshold as int,
                    delta_ppm,
                ) == Some(x.value())
            },
{
    let n = data.len();
    let mut items: Vec<SignedDecimal256> = Vec::new();
    let mut k: usize = 0;
    while k < n
        invariant
            k <= n,
            n == data@.len(),
            items@.len() == k,
            forall|m: int| 0 <= m < data@.len() ==> extract.requires((&data@[m],)),
            forall|m: int| 0 <= m < k ==> extract.ensures((&data@[m],), #[trigger] items@[m]),
        decreases n - k,
    {
        let y = extract(&data[k]);
        items.push(y);
        k += 1;
    }
    consensus_on_items_dec256(items.as_slice(), threshold, delta_ppm)
}

/// The decimals of custody asset `i` of each datum.
pub open spec fn custody_decimals(data: Seq<SolanaDataView>, i: int) -> Seq<u8> {
    data.map_values(|d: SolanaDataView| d.custody_assets[i].decimals)
}

/// The decimals of token `i` of each datum.
pub open spec fn token_decimals(data: Seq<SolanaDataView>, i: int) -> Seq<u8> {
    data.map_values(|d: SolanaDataView| d.solana_token_decimals[i].decimals)
}

/// The data excluded after grouping by the decimals of the first `n` custody assets.
pub open spec fn custody_exclusion(data: Seq<SolanaDataView>, t: int, n: nat) -> Option<Set<usize>>
    decreases n,
{
    if n == 0 {
        Some(Set::empty())
    } else {
        match custody_exclusion(data, t, (n - 1) as nat) {
            Some(e) => non_matching(e, enumerate(custody_decimals(data, n - 1)), t),
            None => None,
        }
    }
}

/// The data excluded after further grouping by the decimals of the first `n` tokens.
pub open spec fn token_exclusion(data: Seq<SolanaDataView>, t: int, start: Set<usize>, n: nat) -> Option<
    Set<usize>,
>
    decreases n,
{
    if n == 0 {
        Some(start)
    } else {
        match token_exclusion(data, t, start, (n - 1) as nat) {
            Some(e) => non_matching(e, enumerate(token_decimals(data, n - 1)), t),
            None => None,
        }
    }
}

/// The data excluded for disagreeing with the majority on some decimals (by the
/// custody assets and tokens of the first datum); `None` when some decimals have
/// no group of `t` equal values.
pub open spec fn exclusion(data: Seq<SolanaDataView>, t: int) -> Option<Set<usize>> {
    match custody_exclusion(data, t, data[0].custody_assets.len()) {
        Some(e) => token_exclusion(data, t, e, data[0].solana_token_decimals.len()),
        None => None,
    }
}

/// The first `n` data without the excluded ones, in order.
pub open spec fn kept(data: Seq<SolanaDataView>, e: Set<usize>, n: nat) -> Seq<SolanaDataView>
    decreases n,
{
    if n == 0 {
        Seq::empty()
    } else if e.contains((n - 1) as usize) {
        kept(data, e, (n - 1) as nat)
    } else {
        kept(data, e, (n - 1) as nat).push(data[n - 1])
    }
}

pub open spec fn aum_column(k: Seq<SolanaDataView>) -> Seq<int> {
    k.map_values(|d: SolanaDataView| d.aum_usd as int)
}

/// Field `which` of a custody asset: 0 guaranteed USD, 1 owned, 2 locked.
pub open spec fn custody_field(a: CustodyAssetView, which: int) -> int {
    if which == 0 {
        a.guaranteed_usd as int
    } else if which == 1 {
        a.owned as int
    } else {
        a.locked as int
    }
}

pub open spec fn custody_column(k: Seq<SolanaDataView>, i: int, which: int) -> Seq<int> {
    k.map_values(|d: SolanaDataView| custody_field(d.custody_assets[i], which))
}

pub open spec fn balance_column(k: Seq<SolanaDataView>, i: int) -> Seq<int> {
    k.map_values(|d: SolanaDataView| d.solana_balances[i].amount as int)
}

pub open spec fn supply_column(k: Seq<SolanaDataView>, i: int) -> Seq<int> {
    k.map_values(|d: SolanaDataView| d.solana_token_total_supply[i].total_supply as int)
}

pub open spec fn decimals_column(k: Seq<SolanaDataView>, i: int) -> Seq<int> {
    k.map_values(|d: SolanaDataView| d.solana_token_decimals[i].decimals as int)
}

/// The integer type a field is agreed on in.
pub enum FieldKind {
    Small,
    Wide,
    Byte,
}

#[verifier::opaque]
pub open spec fn field_consensus(kind: FieldKind, vals: Seq<int>, t: int, d: u64) -> Option<int> {
    match kind {
        FieldKind::Small => spec_consensus::<u64>(vals, t, d),
        FieldKind::Wide => spec_consensus::<u128>(vals, t, d),
        FieldKind::Byte => spec_consensus::<u8>(vals, t, d),
    }
}

#[verifier::opaque]
pub open spec fn field_safe(kind: FieldKind, vals: Seq<int>, t: int, d: u64) -> bool {
    match kind {
        FieldKind::Small => consensus_safe::<u64>(vals, t, d),
        FieldKind::Wide => consensus_safe::<u128>(vals, t, d),
        FieldKind::Byte => consensus_safe::<u8>(vals, t, d),
    }
}

/// The per-entry consensus computations, in the order they are made: for each
/// custody asset its guaranteed USD, owned and locked amounts; then each balance
/// amount, each total supply and each token's decimals.
#[verifier::opaque]
pub open spec fn field_calls(k: Seq<SolanaDataView>) -> Seq<(FieldKind, Seq<int>)> {
    let nc = k[0].custody_assets.len() as int;
    let nb = k[0].solana_balances.len() as int;
    let ns = k[0].solana_token_total_supply.len() as int;
    let nd = k[0].solana_token_decimals.len() as int;
    Seq::new((3 * nc) as nat, |q: int| (FieldKind::Small, custody_column(k, q / 3, q % 3))) + Seq::new(
        nb as nat,
        |i: int| (FieldKind::Wide, balance_column(k, i)),
    ) + Seq::new(ns as nat, |i: int| (FieldKind::Wide, supply_column(k, i))) + Seq::new(
        nd as nat,
        |i: int| (FieldKind::Byte, decimals_column(k, i)),
    )
}

pub open spec fn all_calls_agree(calls: Seq<(FieldKind, Seq<int>)>, t: int, d: u64) -> bool {
    forall|q: int| 0 <= q < calls.len() ==> (#[trigger] field_consensus(calls[q].0, calls[q].1, t, d)) is Some
}

/// Each computation is free of overflow when all before it agreed.
#[verifier::opaque]
pub open spec fn calls_safe(calls: Seq<(FieldKind, Seq<int>)>, t: int, d: u64) -> bool {
    forall|q: int|
        0 <= q < calls.len() ==> (forall|p: int| 0 <= p < q ==> (#[trigger] field_consensus(calls[p].0, calls[p].1, t, d)) is Some)
            ==> #[trigger] field_safe(calls[q].0, calls[q].1, t, d)
}

/// All kept data have as many entries (counted as `u32`) as the first one.
pub open spec fn lengths_match(k: Seq<SolanaDataView>) -> bool {
    &&& k.len() > 0
    &&& forall|j: int|
        0 <= j < k.len() ==> {
            &&& (#[trigger] k[j]).custody_assets.len() as u32 == k[0].custody_assets.len() as u32
            &&& k[j].solana_balances.len() as u32 == k[0].solana_balances.len() as u32
            &&& k[j].solana_token_total_supply.len() as u32 == k[0].solana_token_total_supply.len() as u32
            &&& k[j].solana_token_decimals.len() as u32 == k[0].solana_token_decimals.len() as u32
        }
}

/// All kept data have at least as many entries as the first one.
pub open spec fn lengths_cover(k: Seq<SolanaDataView>) -> bool {
    forall|j: int|
        0 <= j < k.len() ==> {
            &&& (#[trigger] k[j]).custody_assets.len() >= k[0].custody_assets.len()
            &&& k[j].solana_balances.len() >= k[0].solana_balances.len()
            &&& k[j].solana_token_total_supply.len() >= k[0].solana_token_total_supply.len()
            &&& k[j].solana_token_decimals.len() >= k[0].solana_token_decimals.len()
        }
}

/// Every datum has at least as many custody assets and token decimals as the
/// first one: the decimals of each of the first datum's entries can be read
/// from all of them.
pub open spec fn decimals_cover(data: Seq<SolanaDataView>) -> bool {
    forall|j: int|
        0 <= j < data.len() ==> {
            &&& (#[trigger] data[j]).custody_assets.len() >= data[0].custody_assets.len()
            &&& data[j].solana_token_decimals.len() >= data[0].solana_token_decimals.len()
        }
}

/// The agreed value of a field.
pub open spec fn agreed(kind: FieldKind, vals: Seq<int>, t: int, d: u64) -> int {
    field_consensus(kind, vals, t, d)->0
}

/// The agreed custody asset `i`: name and decimals from the first kept datum,
/// amounts the consensus of their columns.
pub open spec fn agreed_custody(k: Seq<SolanaDataView>, t: int, d: u64, i: int) -> CustodyAssetView {
    CustodyAssetView {
        owned: agreed(FieldKind::Small, custody_column(k, i, 1), t, d) as u64,
        locked: agreed(FieldKind::Small, custody_column(k, i, 2), t, d) as u64,
        guaranteed_usd: agreed(FieldKind::Small, custody_column(k, i, 0), t, d) as u64,
        decimals: k[0].custody_assets[i].decimals,
        denom: k[0].custody_assets[i].denom,
    }
}

/// The agreed balance `i`: account and asset from the first kept datum.
pub open spec fn agreed_balance(k: Seq<SolanaDataView>, t: int, d: u64, i: int) -> SolanaBalanceView {
    SolanaBalanceView {
        address: k[0].solana_balances[i].address,
        asset: k[0].solana_balances[i].asset,
        amount: agreed(FieldKind::Wide, balance_column(k, i), t, d) as u128,
    }
}

/// The agreed total supply `i`: token from the first kept datum.
pub open spec fn agreed_supply(k: Seq<SolanaDataView>, t: int, d: u64, i: int) -> SolanaTokenTotalSupplyView {
    SolanaTokenTotalSupplyView {
        asset: k[0].solana_token_total_supply[i].asset,
        total_supply: agreed(FieldKind::Wide, supply_column(k, i), t, d) as u128,
    }
}

/// The agreed decimals `i`: token from the first kept datum.
pub open spec fn agreed_decimals(k: Seq<SolanaDataView>, t: int, d: u64, i: int) -> SolanaTokenDecimalsView {
    SolanaTokenDecimalsView {
        asset: k[0].solana_token_decimals[i].asset,
        decimals: agreed(FieldKind::Byte, decimals_column(k, i), t, d) as u8,
    }
}

/// The agreed data: every entry as the first kept datum has it, with each amount
/// the consensus of its column.
pub open spec fn agreed_data(k: Seq<SolanaDataView>, t: int, d: u64) -> SolanaDataView {
    SolanaDataView {
        custody_assets: Seq::new(k[0].custody_assets.len(), |i: int| agreed_custody(k, t, d, i)),
        aum_usd: agreed(FieldKind::Wide, aum_column(k), t, d) as u128,
        solana_balances: Seq::new(k[0].solana_balances.len(), |i: int| agreed_balance(k, t, d, i)),
        solana_token_total_supply: Seq::new(
            k[0].solana_token_total_supply.len(),
            |i: int| agreed_supply(k, t, d, i),
        ),
        solana_token_decimals: Seq::new(
            k[0].solana_token_decimals.len(),
            |i: int| agreed_decimals(k, t, d, i),
        ),
    }
}

/// The consensus of Solana data: none for fewer than `t` data, or when some datum
/// has fewer custody assets or token decimals than the first; otherwise the data
/// that disagree with the majority on decimals are left out, and the rest must
/// agree on the AUM, have the same entry counts and agree on every amount.
pub open spec fn solana_consensus(data: Seq<SolanaDataView>, t: int, d: u64) -> Option<SolanaDataView> {
    if data.len() < t || data.len() == 0 || !decimals_cover(data) {
        None
    } else {
        match exclusion(data, t) {
            None => None,
            Some(e) => {
                let k = kept(data, e, data.len());
                if spec_consensus::<u128>(aum_column(k), t, d) is None || !lengths_match(k) || !lengths_cover(k)
                    || !all_calls_agree(field_calls(k), t, d) {
                    None
                } else {
                    Some(agreed_data(k, t, d))
                }
            },
        }
    }
}

/// The inputs on which forming the consensus is free of arithmetic overflow.
pub open spec fn solana_consensus_safe(data: Seq<SolanaDataView>, t: int, d: u64) -> bool {
    data.len() >= t && data.len() > 0 && decimals_cover(data) ==> {
        exclusion(data, t) matches Some(e) ==> {
            let k = kept(data, e, data.len());
            &&& consensus_safe::<u128>(aum_column(k), t, d)
            &&& spec_consensus::<u128>(aum_column(k), t, d) is Some && lengths_match(k) && lengths_cover(k)
                ==> calls_safe(field_calls(k), t, d)
        }
    }
}

/// Whether every datum has at least as many custody assets and token decimals as
/// the first one.
fn decimals_lists_cover(data: &[SolanaData]) -> (r: bool)
    requires
        data@.len() > 0,
    ensures
        r == decimals_cover(views(data@)),
{
    let ghost dv = views(data@);
    let nc = data[0].custody_assets.len();
    let nd = data[0].solana_token_decimals.len();
    proof {
        assert(dv[0] == data@[0]@);
    }
    let mut j: usize = 0;
    while j < data.len()
        invariant
            j <= data@.len(),
            dv == views(data@),
            nc == dv[0].custody_assets.len(),
            nd == dv[0].solana_token_decimals.len(),
            forall|m: int|
                0 <= m < j ==> {
                    &&& (#[trigger] dv[m]).custody_assets.len() >= nc
                    &&& dv[m].solana_token_decimals.len() >= nd
                },
        decreases data@.len() - j,
    {
        proof {
            assert(dv[j as int] == data@[j as int]@);
        }
        if data[j].custody_assets.len() < nc || data[j].solana_token_decimals.len() < nd {
            return false;
        }
        j += 1;
    }
    true
}

/// Whether every kept datum has at least as many entries of each kind as the first.
fn kept_lengths_cover(kept: &Vec<SolanaData>) -> (r: bool)
    requires
        kept@.len() > 0,
    ensures
        r == lengths_cover(views(kept@)),
{
    let ghost k = views(kept@);
    proof {
        assert(k[0] == kept@[0]@);
    }
    let nc = kept[0].custody_assets.len();
    let nb = kept[0].solana_balances.len();
    let ns = kept[0].solana_token_total_supply.len();
    let nd = kept[0].solana_token_decimals.len();
    let mut j: usize = 0;
    while j < kept.len()
        invariant
            j <= kept@.len(),
            k == views(kept@),
            nc == k[0].custody_assets.len(),
            nb == k[0].solana_balances.len(),
            ns == k[0].solana_token_total_supply.len(),
            nd == k[0].solana_token_decimals.len(),
            forall|m: int|
                0 <= m < j ==> {
                    &&& (#[trigger] k[m]).custody_assets.len() >= nc
                    &&& k[m].solana_balances.len() >= nb
                    &&& k[m].solana_token_total_supply.len() >= ns
                    &&& k[m].solana_token_decimals.len() >= nd
                },
        decreases kept@.len() - j,
    {
        let d = &kept[j];
        proof {
            assert(k[j as int] == d@);
        }
        if d.custody_assets.len() < nc || d.solana_balances.len() < nb || d.solana_token_total_supply.len() < ns
            || d.solana_token_decimals.len() < nd {
            return false;
        }
        j += 1;
    }
    true
}

/// Groups the data by the decimals of each custody asset of the first datum, then
/// by the decimals of each of its tokens, and collects the data outside a
/// majority; `None` when some decimals have no group of `threshold` equal values.
fn exclude_by_decimals(data: &[SolanaData], threshold: usize) -> (r: Option<HashSet<usize>>)
    requires
        data@.len() > 0,
        forall|i: int|
            0 <= i < views(data@)[0].custody_assets.len() && (#[trigger] custody_exclusion(
                views(data@),
                threshold as int,
                i as nat,
            )) is Some ==> forall|j: int|
                0 <= j < data@.len() ==> (#[trigger] views(data@)[j].custody_assets.len()) > i,
        custody_exclusion(views(data@), threshold as int, views(data@)[0].custody_assets.len()) matches Some(
            e0,
        ) ==> forall|i: int|
            0 <= i < views(data@)[0].solana_token_decimals.len() && (#[trigger] token_exclusion(
                views(data@),
                threshold as int,
                e0,
                i as nat,
            )) is Some ==> forall|j: int|
                0 <= j < data@.len() ==> (#[trigger] views(data@)[j].solana_token_decimals.len()) > i,
    ensures
        match exclusion(views(data@), threshold as int) {
            Some(e) => r matches Some(h) && h@ == e,
            None => r is None,
        },
{
    let ghost dv = views(data@);
    let ghost t = threshold as int;
    let first = &data[0];
    proof {
        assert(dv[0] == data@[0]@);
    }
    let mut excluded: HashSet<usize> = HashSet::new();
    let nc = first.custody_assets.len();
    let mut i: usize = 0;
    while i < nc
        invariant
            i <= nc,
            dv == views(data@),
            t == threshold as int,
            nc == dv[0].custody_assets.len(),
            custody_exclusion(dv, t, i as nat) == Some(excluded@),
            forall|i: int|
                0 <= i < dv[0].custody_assets.len() && (#[trigger] custody_exclusion(dv, t, i as nat)) is Some
                    ==> forall|j: int| 0 <= j < data@.len() ==> (#[trigger] dv[j].custody_assets.len()) > i,
        decreases nc - i,
    {
        let ii = i;
        proof {
            assert forall|j: int| 0 <= j < data@.len() implies ii < (#[trigger] data@[j]).custody_assets@.len() by {
                assert(dv[j] == data@[j]@);
                assert(dv[j].custody_assets.len() > ii);
            }
        }
        let f = |v: &SolanaData| -> (r: u8)
            requires
                ii < v.custody_assets@.len(),
            ensures
                r == v.custody_assets@[ii as int].decimals,
            { v.custody_assets[ii].decimals };
        let ghost before = excluded@;
        match find_unequal_indices_mapped(excluded, data, threshold, f) {
            Some(e) => {
                excluded = e;
            },
            None => {
                proof {
                    let ys = choose|ys: Seq<u8>|
                        #![trigger enumerate(ys)]
                        {
                            &&& ys.len() == data@.len()
                            &&& forall|k: int|
                                0 <= k < data@.len() ==> f.ensures((&data@[k],), #[trigger] ys[k])
                            &&& <u8 as PartialEqSpec>::obeys_eq_spec() ==> match non_matching(before, enumerate(ys), t) {
                                Some(s) => false,
                                None => true,
                            }
                        };
                    assert(ys =~= custody_decimals(dv, ii as int)) by {
                        assert forall|k: int| 0 <= k < ys.len() implies ys[k] == custody_decimals(
                            dv,
                            ii as int,
                        )[k] by {
                            assert(f.ensures((&data@[k],), ys[k]));
                            assert(dv[k] == data@[k]@);
                        }
                    }
                    assert(custody_exclusion(dv, t, (ii + 1) as nat) is None);
                    lemma_custody_exclusion_stays_none(dv, t, (ii + 1) as nat, nc as nat);
                }
                return None;
            },
        }
        proof {
            let ys = choose|ys: Seq<u8>|
                #![trigger enumerate(ys)]
                {
                    &&& ys.len() == data@.len()
                    &&& forall|k: int| 0 <= k < data@.len() ==> f.ensures((&data@[k],), #[trigger] ys[k])
                    &&& <u8 as PartialEqSpec>::obeys_eq_spec() ==> match non_matching(before, enumerate(ys), t) {
                        Some(s) => excluded@ == s,
                        None => false,
                    }
                };
            assert(ys =~= custody_decimals(dv, ii as int)) by {
                assert forall|k: int| 0 <= k < ys.len() implies ys[k] == custody_decimals(dv, ii as int)[k] by {
                    assert(f.ensures((&data@[k],), ys[k]));
                    assert(dv[k] == data@[k]@);
                }
            }
        }
        i += 1;
    }
    let ghost e0 = excluded@;
    let nd = first.solana_token_decimals.len();
    let mut i: usize = 0;
    while i < nd
        invariant
            i <= nd,
            dv == views(data@),
            t == threshold as int,
            nd == dv[0].solana_token_decimals.len(),
            custody_exclusion(dv, t, dv[0].custody_assets.len()) == Some(e0),
            token_exclusion(dv, t, e0, i as nat) == Some(excluded@),
            forall|i: int|
                0 <= i < dv[0].solana_token_decimals.len() && (#[trigger] token_exclusion(
                    dv,
                    t,
                    e0,
                    i as nat,
                )) is Some ==> forall|j: int|
                    0 <= j < data@.len() ==> (#[trigger] dv[j].solana_token_decimals.len()) > i,
        decreases nd - i,
    {
        let ii = i;
        proof {
            assert forall|j: int| 0 <= j < data@.len() implies ii < (
            #[trigger] data@[j]).solana_token_decimals@.len() by {
                assert(dv[j] == data@[j]@);
                assert(dv[j].solana_token_decimals.len() > ii);
            }
        }
        let f = |v: &SolanaData| -> (r: u8)
            requires
                ii < v.solana_token_decimals@.len(),
            ensures
                r == v.solana_token_decimals@[ii as int].decimals,
            { v.solana_token_decimals[ii].decimals };
        let ghost before = excluded@;
        match find_unequal_indices_mapped(excluded, data, threshold, f) {
            Some(e) => {
                excluded = e;
            },
            None => {
                proof {
                    let ys = choose|ys: Seq<u8>|
                        #![trigger enumerate(ys)]
                        {
                            &&& ys.len() == data@.len()
                            &&& forall|k: int|
                                0 <= k < data@.len() ==> f.ensures((&data@[k],), #[trigger] ys[k])
                            &&& <u8 as PartialEqSpec>::obeys_eq_spec() ==> match non_matching(before, enumerate(ys), t) {
                                Some(s) => false,
                                None => true,
                            }
                        };
                    assert(ys =~= token_decimals(dv, ii as int)) by {
                        assert forall|k: int| 0 <= k < ys.len() implies ys[k] == token_decimals(
                            dv,
                            ii as int,
                        )[k] by {
                            assert(f.ensures((&data@[k],), ys[k]));
                            assert(dv[k] == data@[k]@);
                        }
                    }
                    assert(token_exclusion(dv, t, e0, (ii + 1) as nat) is None);
                    lemma_token_exclusion_stays_none(dv, t, e0, (ii + 1) as nat, nd as nat);
                }
                return None;
            },
        }
        proof {
            let ys = choose|ys: Seq<u8>|
                #![trigger enumerate(ys)]
                {
                    &&& ys.len() == data@.len()
                    &&& forall|k: int| 0 <= k < data@.len() ==> f.ensures((&data@[k],), #[trigger] ys[k])
                    &&& <u8 as PartialEqSpec>::obeys_eq_spec() ==> match non_matching(before, enumerate(ys), t) {
                        Some(s) => excluded@ == s,
                        None => false,
                    }
                };
            assert(ys =~= token_decimals(dv, ii as int)) by {
                assert forall|k: int| 0 <= k < ys.len() implies ys[k] == token_decimals(dv, ii as int)[k] by {
                    assert(f.ensures((&data@[k],), ys[k]));
                    assert(dv[k] == data@[k]@);
                }
            }
        }
        i += 1;
    }
    Some(excluded)
}

proof fn lemma_custody_exclusion_stays_none(data: Seq<SolanaDataView>, t: int, m: nat, n: nat)
    requires
        m <= n,
        custody_exclusion(data, t, m) is None,
    ensures
        custody_exclusion(data, t, n) is None,
    decreases n - m,
{
    if m < n {
        lemma_custody_exclusion_stays_none(data, t, m + 1, n);
    }
}

proof fn lemma_token_exclusion_stays_none(
    data: Seq<SolanaDataView>,
    t: int,
    start: Set<usize>,
    m: nat,
    n: nat,
)
    requires
        m <= n,
        token_exclusion(data, t, start, m) is None,
    ensures
        token_exclusion(data, t, start, n) is None,
    decreases n - m,
{
    if m < n {
        lemma_token_exclusion_stays_none(data, t, start, m + 1, n);
    }
}

/// The data not excluded, in order.
fn keep_data(data: &[SolanaData], excluded: &HashSet<usize>) -> (r: Vec<SolanaData>)
    ensures
        views(r@) == kept(views(data@), excluded@, data@.len() as nat),
{
    let ghost dv = views(data@);
    let n = data.len();
    let mut out: Vec<SolanaData> = Vec::new();
    let mut k: usize = 0;
    while k < n
        invariant
            k <= n,
            n == data@.len(),
            dv == views(data@),
            views(out@) == kept(dv, excluded@, k as nat),
        decreases n - k,
    {
        proof {
            assert(dv[k as int] == data@[k as int]@);
        }
        if !excluded.contains(&k) {
            let ghost prev = out@;
            out.push(Duplicate::duplicate(&data[k]));
            proof {
                assert(views(out@) =~= views(prev).push(data@[k as int]@));
            }
        }
        k += 1;
    }
    out
}

/// Whether all data have as many entries (counted as `u32`) as the first one.
fn lengths_agree(kept: &Vec<SolanaData>) -> (r: bool)
    ensures
        r == lengths_match(views(kept@)),
{
    let ghost k = views(kept@);
    let n = kept.len();
    let mut custody: Vec<u32> = Vec::new();
    let mut balances: Vec<u32> = Vec::new();
    let mut supplies: Vec<u32> = Vec::new();
    let mut decimals: Vec<u32> = Vec::new();
    let mut j: usize = 0;
    while j < n
        invariant
            j <= n,
            n == kept@.len(),
            k == views(kept@),
            custody@.len() == j,
            balances@.len() == j,
            supplies@.len() == j,
            decimals@.len() == j,
            forall|m: int| 0 <= m < j ==> #[trigger] custody@[m] == k[m].custody_assets.len() as u32,
            forall|m: int| 0 <= m < j ==> #[trigger] balances@[m] == k[m].solana_balances.len() as u32,
            forall|m: int|
                0 <= m < j ==> #[trigger] supplies@[m] == k[m].solana_token_total_supply.len() as u32,
            forall|m: int| 0 <= m < j ==> #[trigger] decimals@[m] == k[m].solana_token_decimals.len() as u32,
        decreases n - j,
    {
        let d = &kept[j];
        proof {
            assert(k[j as int] == d@);
        }
        custody.push(d.custody_assets.len() as u32);
        balances.push(d.solana_balances.len() as u32);
        supplies.push(d.solana_token_total_supply.len() as u32);
        decimals.push(d.solana_token_decimals.len() as u32);
        j += 1;
    }
    let r = all_items_equal(custody.as_slice()).is_some() && all_items_equal(balances.as_slice()).is_some()
        && all_items_equal(supplies.as_slice()).is_some() && all_items_equal(decimals.as_slice()).is_some();
    proof {
        if r {
            assert forall|m: int| 0 <= m < k.len() implies {
                &&& (#[trigger] k[m]).custody_assets.len() as u32 == k[0].custody_assets.len() as u32
                &&& k[m].solana_balances.len() as u32 == k[0].solana_balances.len() as u32
                &&& k[m].solana_token_total_supply.len() as u32 == k[0].solana_token_total_supply.len() as u32
                &&& k[m].solana_token_decimals.len() as u32 == k[0].solana_token_decimals.len() as u32
            } by {
                assert(custody@[m].eq_spec(&custody@[0]));
                assert(balances@[m].eq_spec(&balances@[0]));
                assert(supplies@[m].eq_spec(&supplies@[0]));
                assert(decimals@[m].eq_spec(&decimals@[0]));
            }
        }
        if lengths_match(k) {
            assert forall|m: int| 0 <= m < custody@.len() implies #[trigger] custody@[m].eq_spec(
                &custody@[0],
            ) by {
                assert(k[m].custody_assets.len() as u32 == k[0].custody_assets.len() as u32);
            }
            assert forall|m: int| 0 <= m < balances@.len() implies #[trigger] balances@[m].eq_spec(
                &balances@[0],
            ) by {
                assert(k[m].solana_balances.len() as u32 == k[0].solana_balances.len() as u32);
            }
            assert forall|m: int| 0 <= m < supplies@.len() implies #[trigger] supplies@[m].eq_spec(
                &supplies@[0],
            ) by {
                assert(k[m].solana_token_total_supply.len() as u32
                    == k[0].solana_token_total_supply.len() as u32);
            }
            assert forall|m: int| 0 <= m < decimals@.len() implies #[trigger] decimals@[m].eq_spec(
                &decimals@[0],
            ) by {
                assert(k[m].solana_token_decimals.len() as u32 == k[0].solana_token_decimals.len() as u32);
            }
        }
    }
    r
}

/// Position `3 * i + which` of the computations is field `which` of custody asset `i`.
proof fn lemma_custody_call(k: Seq<SolanaDataView>, i: int, which: int)
    requires
        k.len() > 0,
        0 <= i < k[0].custody_assets.len(),
        0 <= which < 3,
    ensures
        field_calls(k)[3 * i + which] == (FieldKind::Small, custody_column(k, i, which)),
{
    reveal(field_calls);
    let q = 3 * i + which;
    assert(q / 3 == i && q % 3 == which) by (nonlinear_arith)
        requires
            q == 3 * i + which,
            0 <= which < 3,
            i >= 0,
    ;
    let nc = k[0].custody_assets.len() as int;
    assert(q < 3 * nc);
}

pub open spec fn balance_offset(k: Seq<SolanaDataView>) -> int {
    3 * (k[0].custody_assets.len() as int)
}

pub open spec fn supply_offset(k: Seq<SolanaDataView>) -> int {
    balance_offset(k) + k[0].solana_balances.len()
}

pub open spec fn decimals_offset(k: Seq<SolanaDataView>) -> int {
    supply_offset(k) + k[0].solana_token_total_supply.len()
}

proof fn lemma_other_calls(k: Seq<SolanaDataView>)
    requires
        k.len() > 0,
    ensures
        field_calls(k).len() == decimals_offset(k) + k[0].solana_token_decimals.len(),
        forall|i: int|
            0 <= i < k[0].solana_balances.len() ==> field_calls(k)[balance_offset(k) + i] == (
                FieldKind::Wide,
                #[trigger] balance_column(k, i),
            ),
        forall|i: int|
            0 <= i < k[0].solana_token_total_supply.len() ==> field_calls(k)[supply_offset(k) + i] == (
                FieldKind::Wide,
                #[trigger] supply_column(k, i),
            ),
        forall|i: int|
            0 <= i < k[0].solana_token_decimals.len() ==> field_calls(k)[decimals_offset(k) + i] == (
                FieldKind::Byte,
                #[trigger] decimals_column(k, i),
            ),
{
    reveal(field_calls);
}

/// A computation is free of overflow once all before it agreed.
proof fn lemma_call_safe(k: Seq<SolanaDataView>, t: int, d: u64, q: int)
    requires
        k.len() > 0,
        calls_safe(field_calls(k), t, d),
        0 <= q < field_calls(k).len(),
        calls_agree_in(k, t, d, 0, q),
    ensures
        field_safe(field_calls(k)[q].0, field_calls(k)[q].1, t, d),
{
    reveal(calls_safe);
    let calls = field_calls(k);
    assert forall|p: int| 0 <= p < q implies (#[trigger] field_consensus(calls[p].0, calls[p].1, t, d)) is Some by {
    }
}

/// What the consensus of a field is, by its integer type.
proof fn lemma_field_consensus(kind: FieldKind, vals: Seq<int>, t: int, d: u64)
    ensures
        kind is Small ==> field_consensus(kind, vals, t, d) == spec_consensus::<u64>(vals, t, d)
            && field_safe(kind, vals, t, d) == consensus_safe::<u64>(vals, t, d),
        kind is Wide ==> field_consensus(kind, vals, t, d) == spec_consensus::<u128>(vals, t, d)
            && field_safe(kind, vals, t, d) == consensus_safe::<u128>(vals, t, d),
        kind is Byte ==> field_consensus(kind, vals, t, d) == spec_consensus::<u8>(vals, t, d)
            && field_safe(kind, vals, t, d) == consensus_safe::<u8>(vals, t, d),
{
    reveal(field_consensus);
    reveal(field_safe);
}

/// Two adjacent agreeing ranges form one.
proof fn lemma_agree_join(k: Seq<SolanaDataView>, t: int, d: u64, lo: int, mid: int, hi: int)
    requires
        calls_agree_in(k, t, d, lo, mid),
        calls_agree_in(k, t, d, mid, hi),
    ensures
        calls_agree_in(k, t, d, lo, hi),
{
}

/// One more agreeing computation extends an agreeing range.
proof fn lemma_agree_extend(k: Seq<SolanaDataView>, t: int, d: u64, lo: int, hi: int)
    requires
        calls_agree_in(k, t, d, lo, hi),
        field_consensus(field_calls(k)[hi].0, field_calls(k)[hi].1, t, d) is Some,
    ensures
        calls_agree_in(k, t, d, lo, hi + 1),
{
}

/// Field `which` of custody asset `i` of each datum.
fn custody_col(kept: &Vec<SolanaData>, i: usize, which: u8) -> (r: Vec<u64>)
    requires
        which < 3,
        forall|j: int| 0 <= j < kept@.len() ==> i < (#[trigger] kept@[j]).custody_assets@.len(),
    ensures
        values(r@) == custody_column(views(kept@), i as int, which as int),
{
    let ghost col = custody_column(views(kept@), i as int, which as int);
    let mut out: Vec<u64> = Vec::new();
    let mut j: usize = 0;
    while j < kept.len()
        invariant
            j <= kept@.len(),
            which < 3,
            col == custody_column(views(kept@), i as int, which as int),
            forall|j: int| 0 <= j < kept@.len() ==> i < (#[trigger] kept@[j]).custody_assets@.len(),
            values(out@) == col.subrange(0, j as int),
        decreases kept@.len() - j,
    {
        let a = &kept[j].custody_assets[i];
        let x = if which == 0 {
            a.guaranteed_usd
        } else if which == 1 {
            a.owned
        } else {
            a.locked
        };
        let ghost prev = out@;
        out.push(x);
        proof {
            assert(views(kept@)[j as int] == kept@[j as int]@);
            assert(views(kept@[j as int].custody_assets@)[i as int] == a@);
            assert(values(out@) =~= values(prev).push(x as int));
            assert(col.subrange(0, j + 1) =~= col.subrange(0, j as int).push(col[j as int]));
        }
        j += 1;
    }
    proof {
        assert(col.subrange(0, kept@.len() as int) =~= col);
    }
    out
}

/// The amount of balance `i` of each datum.
fn balance_col(kept: &Vec<SolanaData>, i: usize) -> (r: Vec<u128>)
    requires
        forall|j: int| 0 <= j < kept@.len() ==> i < (#[trigger] kept@[j]).solana_balances@.len(),
    ensures
        values(r@) == balance_column(views(kept@), i as int),
{
    let ghost col = balance_column(views(kept@), i as int);
    let mut out: Vec<u128> = Vec::new();
    let mut j: usize = 0;
    while j < kept.len()
        invariant
            j <= kept@.len(),
            col == balance_column(views(kept@), i as int),
            forall|j: int| 0 <= j < kept@.len() ==> i < (#[trigger] kept@[j]).solana_balances@.len(),
            values(out@) == col.subrange(0, j as int),
        decreases kept@.len() - j,
    {
        let x = kept[j].solana_balances[i].amount;
        let ghost prev = out@;
        out.push(x);
        proof {
            assert(views(kept@)[j as int] == kept@[j as int]@);
            assert(views(kept@[j as int].solana_balances@)[i as int] == kept@[j as int].solana_balances@[i as int]@);
            assert(values(out@) =~= values(prev).push(x as int));
            assert(col.subrange(0, j + 1) =~= col.subrange(0, j as int).push(col[j as int]));
        }
        j += 1;
    }
    proof {
        assert(col.subrange(0, kept@.len() as int) =~= col);
    }
    out
}

/// The total supply `i` of each datum.
fn supply_col(kept: &Vec<SolanaData>, i: usize) -> (r: Vec<u128>)
    requires
        forall|j: int| 0 <= j < kept@.len() ==> i < (#[trigger] kept@[j]).solana_token_total_supply@.len(),
    ensures
        values(r@) == supply_column(views(kept@), i as int),
{
    let ghost col = supply_column(views(kept@), i as int);
    let mut out: Vec<u128> = Vec::new();
    let mut j: usize = 0;
    while j < kept.len()
        invariant
            j <= kept@.len(),
            col == supply_column(views(kept@), i as int),
            forall|j: int| 0 <= j < kept@.len() ==> i < (#[trigger] kept@[j]).solana_token_total_supply@.len(),
            values(out@) == col.subrange(0, j as int),
        decreases kept@.len() - j,
    {
        let x = kept[j].solana_token_total_supply[i].total_supply;
        let ghost prev = out@;
        out.push(x);
        proof {
            assert(views(kept@)[j as int] == kept@[j as int]@);
            assert(views(kept@[j as int].solana_token_total_supply@)[i as int]
                == kept@[j as int].solana_token_total_supply@[i as int]@);
            assert(values(out@) =~= values(prev).push(x as int));
            assert(col.subrange(0, j + 1) =~= col.subrange(0, j as int).push(col[j as int]));
        }
        j += 1;
    }
    proof {
        assert(col.subrange(0, kept@.len() as int) =~= col);
    }
    out
}

/// The decimals of token `i` of each datum.
fn decimals_col(kept: &Vec<SolanaData>, i: usize) -> (r: Vec<u8>)
    requires
        forall|j: int| 0 <= j < kept@.len() ==> i < (#[trigger] kept@[j]).solana_token_decimals@.len(),
    ensures
        values(r@) == decimals_column(views(kept@), i as int),
{
    let ghost col = decimals_column(views(kept@), i as int);
    let mut out: Vec<u8> = Vec::new();
    let mut j: usize = 0;
    while j < kept.len()
        invariant
            j <= kept@.len(),
            col == decimals_column(views(kept@), i as int),
            forall|j: int| 0 <= j < kept@.len() ==> i < (#[trigger] kept@[j]).solana_token_decimals@.len(),
            values(out@) == col.subrange(0, j as int),
        decreases kept@.len() - j,
    {
        let x = kept[j].solana_token_decimals[i].decimals;
        let ghost prev = out@;
        out.push(x);
        proof {
            assert(views(kept@)[j as int] == kept@[j as int]@);
            assert(views(kept@[j as int].solana_token_decimals@)[i as int]
                == kept@[j as int].solana_token_decimals@[i as int]@);
            assert(values(out@) =~= values(prev).push(x as int));
            assert(col.subrange(0, j + 1) =~= col.subrange(0, j as int).push(col[j as int]));
        }
        j += 1;
    }
    proof {
        assert(col.subrange(0, kept@.len() as int) =~= col);
    }
    out
}

/// Whether the computations at positions `[lo, hi)` all agree.
pub open spec fn calls_agree_in(k: Seq<SolanaDataView>, t: int, d: u64, lo: int, hi: int) -> bool {
    forall|q: int|
        lo <= q < hi ==> (#[trigger] field_consensus(field_calls(k)[q].0, field_calls(k)[q].1, t, d)) is Some
}

/// The consensus on field `which` of custody asset `i`.
fn agree_custody_field(kept: &Vec<SolanaData>, i: usize, which: u8, threshold: usize, delta_ppm: u64) -> (r:
    Option<u64>)
    requires
        which < 3,
        forall|j: int| 0 <= j < kept@.len() ==> i < (#[trigger] kept@[j]).custody_assets@.len(),
        field_safe(FieldKind::Small, custody_column(views(kept@), i as int, which as int), threshold as int, delta_ppm),
    ensures
        match field_consensus(FieldKind::Small, custody_column(views(kept@), i as int, which as int), threshold as int, delta_ppm) {
            Some(v) => r == Some(v as u64) && v == v as u64,
            None => r is None,
        },
{
    proof {
        lemma_field_consensus(
            FieldKind::Small,
            custody_column(views(kept@), i as int, which as int),
            threshold as int,
            delta_ppm,
        );
    }
    let col = custody_col(kept, i, which);
    consensus_on_items_u64(col.as_slice(), threshold, delta_ppm)
}

/// The agreed custody asset `i`, when its three amounts agree.
fn agree_custody_asset(kept: &Vec<SolanaData>, i: usize, threshold: usize, delta_ppm: u64) -> (r: Option<
    CustodyAsset,
>)
    requires
        kept@.len() > 0,
        i < views(kept@)[0].custody_assets.len(),
        lengths_cover(views(kept@)),
        calls_safe(field_calls(views(kept@)), threshold as int, delta_ppm),
        calls_agree_in(views(kept@), threshold as int, delta_ppm, 0, 3 * i),
    ensures
        r is Some <==> calls_agree_in(views(kept@), threshold as int, delta_ppm, 3 * i, 3 * i + 3),
        r matches Some(a) ==> a@ == agreed_custody(views(kept@), threshold as int, delta_ppm, i as int),
{
    let ghost k = views(kept@);
    let ghost t = threshold as int;
    let ghost calls = field_calls(k);
    proof {
        assert(k[0] == kept@[0]@);
        lemma_custody_call(k, i as int, 0);
        lemma_custody_call(k, i as int, 1);
        lemma_custody_call(k, i as int, 2);
        lemma_other_calls(k);
        assert forall|j: int| 0 <= j < kept@.len() implies i < (#[trigger] kept@[j]).custody_assets@.len() by {
            assert(k[j] == kept@[j]@);
        }
        lemma_call_safe(k, t, delta_ppm, 3 * i as int);
    }
    let guaranteed_usd = match agree_custody_field(kept, i, 0, threshold, delta_ppm) {
        Some(x) => x,
        None => {
            return None;
        },
    };
    proof {
        lemma_agree_extend(k, t, delta_ppm, 0, 3 * i as int);
        lemma_call_safe(k, t, delta_ppm, 3 * i + 1);
    }
    let owned = match agree_custody_field(kept, i, 1, threshold, delta_ppm) {
        Some(x) => x,
        None => {
            return None;
        },
    };
    proof {
        lemma_agree_extend(k, t, delta_ppm, 0, 3 * i + 1);
        lemma_call_safe(k, t, delta_ppm, 3 * i + 2);
    }
    let locked = match agree_custody_field(kept, i, 2, threshold, delta_ppm) {
        Some(x) => x,
        None => {
            return None;
        },
    };
    let a = &kept[0].custody_assets[i];
    proof {
        assert(views(kept@[0].custody_assets@)[i as int] == a@);
        assert(calls_agree_in(k, t, delta_ppm, 3 * i, 3 * i + 3)) by {
            assert forall|q: int| 3 * i <= q < 3 * i + 3 implies (#[trigger] field_consensus(
                calls[q].0,
                calls[q].1,
                t,
                delta_ppm,
            )) is Some by {
                assert(q == 3 * i || q == 3 * i + 1 || q == 3 * i + 2);
            }
        }
    }
    Some(CustodyAsset { owned, locked, guaranteed_usd, decimals: a.decimals, denom: a.denom.clone() })
}

/// The agreed custody assets.
fn agree_custody(kept: &Vec<SolanaData>, threshold: usize, delta_ppm: u64) -> (r: Option<
    Vec<CustodyAsset>,
>)
    requires
        kept@.len() > 0,
        lengths_cover(views(kept@)),
        calls_safe(field_calls(views(kept@)), threshold as int, delta_ppm),
    ensures
        r is Some <==> calls_agree_in(views(kept@), threshold as int, delta_ppm, 0, balance_offset(views(kept@))),
        r matches Some(v) ==> views(v@) == Seq::new(
            views(kept@)[0].custody_assets.len(),
            |i: int| agreed_custody(views(kept@), threshold as int, delta_ppm, i),
        ),
{
    let ghost k = views(kept@);
    let ghost t = threshold as int;
    let ghost want = Seq::new(k[0].custody_assets.len(), |i: int| agreed_custody(k, t, delta_ppm, i));
    proof {
        assert(k[0] == kept@[0]@);
    }
    let nc = kept[0].custody_assets.len();
    let mut out: Vec<CustodyAsset> = Vec::new();
    let mut i: usize = 0;
    while i < nc
        invariant
            i <= nc,
            kept@.len() > 0,
            k == views(kept@),
            t == threshold as int,
            want == Seq::new(k[0].custody_assets.len(), |i: int| agreed_custody(k, t, delta_ppm, i)),
            nc == k[0].custody_assets.len(),
            lengths_cover(k),
            calls_safe(field_calls(k), t, delta_ppm),
            calls_agree_in(k, t, delta_ppm, 0, 3 * i),
            views(out@) == want.subrange(0, i as int),
        decreases nc - i,
    {
        match agree_custody_asset(kept, i, threshold, delta_ppm) {
            Some(a) => {
                let ghost prev = out@;
                out.push(a);
                proof {
                    lemma_agree_join(k, t, delta_ppm, 0, 3 * i as int, 3 * i + 3);
                    assert(views(out@) =~= views(prev).push(want[i as int]));
                    assert(want.subrange(0, i + 1) =~= want.subrange(0, i as int).push(want[i as int]));
                }
            },
            None => {
                proof {
                    assert(!calls_agree_in(k, t, delta_ppm, 0, balance_offset(k)));
                }
                return None;
            },
        }
        i += 1;
    }
    proof {
        assert(want.subrange(0, nc as int) =~= want);
    }
    Some(out)
}

/// The agreed balances.
#[verifier::rlimit(30)]
fn agree_balances(kept: &Vec<SolanaData>, threshold: usize, delta_ppm: u64) -> (r: Option<
    Vec<SolanaBalance>,
>)
    requires
        kept@.len() > 0,
        lengths_cover(views(kept@)),
        calls_safe(field_calls(views(kept@)), threshold as int, delta_ppm),
        calls_agree_in(views(kept@), threshold as int, delta_ppm, 0, balance_offset(views(kept@))),
    ensures
        r is Some <==> calls_agree_in(
            views(kept@),
            threshold as int,
            delta_ppm,
            balance_offset(views(kept@)),
            supply_offset(views(kept@)),
        ),
        r matches Some(v) ==> views(v@) == Seq::new(
            views(kept@)[0].solana_balances.len(),
            |i: int| agreed_balance(views(kept@), threshold as int, delta_ppm, i),
        ),
{
    let ghost k = views(kept@);
    let ghost t = threshold as int;
    let ghost calls = field_calls(k);
    let ghost base = balance_offset(k);
    let ghost want = Seq::new(k[0].solana_balances.len(), |i: int| agreed_balance(k, t, delta_ppm, i));
    proof {
        assert(k[0] == kept@[0]@);
        lemma_other_calls(k);
    }
    let n = kept[0].solana_balances.len();
    let mut out: Vec<SolanaBalance> = Vec::new();
    let mut i: usize = 0;
    while i < n
        invariant
            i <= n,
            kept@.len() > 0,
            k == views(kept@),
            t == threshold as int,
            calls == field_calls(k),
            base == balance_offset(k),
            want == Seq::new(k[0].solana_balances.len(), |i: int| agreed_balance(k, t, delta_ppm, i)),
            n == k[0].solana_balances.len(),
            lengths_cover(k),
            calls_safe(calls, t, delta_ppm),
            calls_agree_in(k, t, delta_ppm, 0, base),
            calls_agree_in(k, t, delta_ppm, base, base + i),
            views(out@) == want.subrange(0, i as int),
        decreases n - i,
    {
        proof {
            lemma_other_calls(k);
            assert(calls[base + i] == (FieldKind::Wide, balance_column(k, i as int)));
            assert forall|j: int| 0 <= j < kept@.len() implies i < (#[trigger] kept@[j]).solana_balances@.len() by {
                assert(k[j] == kept@[j]@);
            }
            lemma_agree_join(k, t, delta_ppm, 0, base, base + i);
            lemma_call_safe(k, t, delta_ppm, base + i);
        }
        let col = balance_col(kept, i);
        proof {
            lemma_field_consensus(FieldKind::Wide, balance_column(k, i as int), t, delta_ppm);
        }
        let amount = match consensus_on_items_uint128(col.as_slice(), threshold, delta_ppm) {
            Some(x) => x,
            None => {
                proof {
                    assert(field_consensus(calls[base + i].0, calls[base + i].1, t, delta_ppm) is None);
                }
                return None;
            },
        };
        proof {
            lemma_agree_extend(k, t, delta_ppm, base, base + i);
        }
        let b = &kept[0].solana_balances[i];
        let ghost prev = out@;
        out.push(SolanaBalance { address: b.address.clone(), asset: b.asset.clone(), amount });
        proof {
            assert(views(kept@[0].solana_balances@)[i as int] == b@);
            assert(views(out@) =~= views(prev).push(want[i as int]));
            assert(want.subrange(0, i + 1) =~= want.subrange(0, i as int).push(want[i as int]));
        }
        i += 1;
    }
    proof {
        assert(want.subrange(0, n as int) =~= want);
    }
    Some(out)
}

/// The agreed total supplies.
#[verifier::rlimit(30)]
fn agree_supplies(kept: &Vec<SolanaData>, threshold: usize, delta_ppm: u64) -> (r: Option<
    Vec<SolanaTokenTotalSupply>,
>)
    requires
        kept@.len() > 0,
        lengths_cover(views(kept@)),
        calls_safe(field_calls(views(kept@)), threshold as int, delta_ppm),
        calls_agree_in(views(kept@), threshold as int, delta_ppm, 0, supply_offset(views(kept@))),
    ensures
        r is Some <==> calls_agree_in(
            views(kept@),
            threshold as int,
            delta_ppm,
            supply_offset(views(kept@)),
            decimals_offset(views(kept@)),
        ),
        r matches Some(v) ==> views(v@) == Seq::new(
            views(kept@)[0].solana_token_total_supply.len(),
            |i: int| agreed_supply(views(kept@), threshold as int, delta_ppm, i),
        ),
{
    let ghost k = views(kept@);
    let ghost t = threshold as int;
    let ghost calls = field_calls(k);
    let ghost base = supply_offset(k);
    let ghost want = Seq::new(k[0].solana_token_total_supply.len(), |i: int| agreed_supply(k, t, delta_ppm, i));
    proof {
        assert(k[0] == kept@[0]@);
        lemma_other_calls(k);
    }
    let n = kept[0].solana_token_total_supply.len();
    let mut out: Vec<SolanaTokenTotalSupply> = Vec::new();
    let mut i: usize = 0;
    while i < n
        invariant
            i <= n,
            kept@.len() > 0,
            k == views(kept@),
            t == threshold as int,
            calls == field_calls(k),
            base == supply_offset(k),
            want == Seq::new(k[0].solana_token_total_supply.len(), |i: int| agreed_supply(k, t, delta_ppm, i)),
            n == k[0].solana_token_total_supply.len(),
            lengths_cover(k),
            calls_safe(calls, t, delta_ppm),
            calls_agree_in(k, t, delta_ppm, 0, base),
            calls_agree_in(k, t, delta_ppm, base, base + i),
            views(out@) == want.subrange(0, i as int),
        decreases n - i,
    {
        proof {
            lemma_other_calls(k);
            assert(calls[base + i] == (FieldKind::Wide, supply_column(k, i as int)));
            assert forall|j: int| 0 <= j < kept@.len() implies i < (
            #[trigger] kept@[j]).solana_token_total_supply@.len() by {
                assert(k[j] == kept@[j]@);
            }
            lemma_agree_join(k, t, delta_ppm, 0, base, base + i);
            lemma_call_safe(k, t, delta_ppm, base + i);
        }
        let col = supply_col(kept, i);
        proof {
            lemma_field_consensus(FieldKind::Wide, supply_column(k, i as int), t, delta_ppm);
        }
        let total_supply = match consensus_on_items_uint128(col.as_slice(), threshold, delta_ppm) {
            Some(x) => x,
            None => {
                proof {
                    assert(field_consensus(calls[base + i].0, calls[base + i].1, t, delta_ppm) is None);
                }
                return None;
            },
        };
        proof {
            lemma_agree_extend(k, t, delta_ppm, base, base + i);
        }
        let s = &kept[0].solana_token_total_supply[i];
        let ghost prev = out@;
        out.push(SolanaTokenTotalSupply { asset: s.asset.clone(), total_supply });
        proof {
            assert(views(kept@[0].solana_token_total_supply@)[i as int] == s@);
            assert(views(out@) =~= views(prev).push(want[i as int]));
            assert(want.subrange(0, i + 1) =~= want.subrange(0, i as int).push(want[i as int]));
        }
        i += 1;
    }
    proof {
        assert(want.subrange(0, n as int) =~= want);
    }
    Some(out)
}

/// The agreed token decimals.
#[verifier::rlimit(30)]
fn agree_decimals(kept: &Vec<SolanaData>, threshold: usize, delta_ppm: u64) -> (r: Option<
    Vec<SolanaTokenDecimals>,
>)
    requires
        kept@.len() > 0,
        lengths_cover(views(kept@)),
        calls_safe(field_calls(views(kept@)), threshold as int, delta_ppm),
        calls_agree_in(views(kept@), threshold as int, delta_ppm, 0, decimals_offset(views(kept@))),
    ensures
        r is Some <==> calls_agree_in(
            views(kept@),
            threshold as int,
            delta_ppm,
            decimals_offset(views(kept@)),
            decimals_offset(views(kept@)) + views(kept@)[0].solana_token_decimals.len(),
        ),
        r matches Some(v) ==> views(v@) == Seq::new(
            views(kept@)[0].solana_token_decimals.len(),
            |i: int| agreed_decimals(views(kept@), threshold as int, delta_ppm, i),
        ),
{
    let ghost k = views(kept@);
    let ghost t = threshold as int;
    let ghost calls = field_calls(k);
    let ghost base = decimals_offset(k);
    let ghost want = Seq::new(k[0].solana_token_decimals.len(), |i: int| agreed_decimals(k, t, delta_ppm, i));
    proof {
        assert(k[0] == kept@[0]@);
        lemma_other_calls(k);
    }
    let n = kept[0].solana_token_decimals.len();
    let mut out: Vec<SolanaTokenDecimals> = Vec::new();
    let mut i: usize = 0;
    while i < n
        invariant
            i <= n,
            kept@.len() > 0,
            k == views(kept@),
            t == threshold as int,
            calls == field_calls(k),
            base == decimals_offset(k),
            want == Seq::new(k[0].solana_token_decimals.len(), |i: int| agreed_decimals(k, t, delta_ppm, i)),
            n == k[0].solana_token_decimals.len(),
            lengths_cover(k),
            calls_safe(calls, t, delta_ppm),
            calls_agree_in(k, t, delta_ppm, 0, base),
            calls_agree_in(k, t, delta_ppm, base, base + i),
            views(out@) == want.subrange(0, i as int),
        decreases n - i,
    {
        proof {
            lemma_other_calls(k);
            assert(calls[base + i] == (FieldKind::Byte, decimals_column(k, i as int)));
            assert forall|j: int| 0 <= j < kept@.len() implies i < (
            #[trigger] kept@[j]).solana_token_decimals@.len() by {
                assert(k[j] == kept@[j]@);
            }
            lemma_agree_join(k, t, delta_ppm, 0, base, base + i);
            lemma_call_safe(k, t, delta_ppm, base + i);
        }
        let col = decimals_col(kept, i);
        proof {
            lemma_field_consensus(FieldKind::Byte, decimals_column(k, i as int), t, delta_ppm);
        }
        let decimals = match consensus_on_items_u8(col.as_slice(), threshold, delta_ppm) {
            Some(x) => x,
            None => {
                proof {
                    assert(field_consensus(calls[base + i].0, calls[base + i].1, t, delta_ppm) is None);
                }
                return None;
            },
        };
        proof {
            lemma_agree_extend(k, t, delta_ppm, base, base + i);
        }
        let s = &kept[0].solana_token_decimals[i];
        let ghost prev = out@;
        out.push(SolanaTokenDecimals { asset: s.asset.clone(), decimals });
        proof {
            assert(views(kept@[0].solana_token_decimals@)[i as int] == s@);
            assert(views(out@) =~= views(prev).push(want[i as int]));
            assert(want.subrange(0, i + 1) =~= want.subrange(0, i as int).push(want[i as int]));
        }
        i += 1;
    }
    proof {
        assert(want.subrange(0, n as int) =~= want);
    }
    Some(out)
}

/// All computations agree exactly when every position does.
proof fn lemma_all_agree(k: Seq<SolanaDataView>, t: int, d: u64)
    requires
        k.len() > 0,
    ensures
        all_calls_agree(field_calls(k), t, d) <==> calls_agree_in(k, t, d, 0, field_calls(k).len() as int),
        all_calls_agree(field_calls(k), t, d) ==> calls_agree_in(k, t, d, 0, balance_offset(k)),
        all_calls_agree(field_calls(k), t, d) ==> calls_agree_in(k, t, d, balance_offset(k), supply_offset(k)),
        all_calls_agree(field_calls(k), t, d) ==> calls_agree_in(k, t, d, supply_offset(k), decimals_offset(k)),
        all_calls_agree(field_calls(k), t, d) ==> calls_agree_in(
            k,
            t,
            d,
            decimals_offset(k),
            decimals_offset(k) + k[0].solana_token_decimals.len(),
        ),
{
    lemma_other_calls(k);
}


/// Grouping equal values: every item is in the one group, so nothing is left out.
proof fn lemma_grouping_unanimous(vals: Seq<u8>, t: int)
    requires
        vals.len() >= t,
        vals.len() > 0,
        forall|i: int| 0 <= i < vals.len() ==> #[trigger] vals[i] == vals[0],
    ensures
        non_matching(Set::<usize>::empty(), enumerate(vals), t) == Some(Set::<usize>::empty()),
{
    let items = enumerate(vals);
    let out = Set::<usize>::empty();
    assert forall|k: int| 0 <= k < items.len() implies group_size(out, items, #[trigger] items[k].1) == items.len() by {
        let p = in_group(out, items[k].1);
        assert forall|i: int| 0 <= i < items.len() implies p(#[trigger] items[i]) by {
            assert(items[i].1 == vals[0]);
        }
        lemma_filter_prefix(items, p, items.len() as int);
        assert(items.subrange(0, items.len() as int) =~= items);
    }
    assert(in_majority(out, items, t, 0));
    assert(minority_indices(out, items, t, items.len() as int) =~= Set::<usize>::empty()) by {
        assert forall|i: usize| !minority_indices(out, items, t, items.len() as int).contains(i) by {
            if minority_indices(out, items, t, items.len() as int).contains(i) {
                let k = choose|k: int|
                    0 <= k < items.len() && #[trigger] items[k].0 == i && in_minority(out, items, t, k);
                assert(group_size(out, items, items[k].1) == items.len());
            }
        }
    }
    assert(out.union(Set::<usize>::empty()) =~= Set::<usize>::empty());
}

/// `n` copies of one datum.
pub open spec fn copies(n: nat, x: SolanaDataView) -> Seq<SolanaDataView> {
    Seq::new(n, |k: int| x)
}

proof fn lemma_custody_exclusion_unanimous(n: nat, x: SolanaDataView, t: int, m: nat)
    requires
        n >= t,
        n > 0,
        m <= x.custody_assets.len(),
    ensures
        custody_exclusion(copies(n, x), t, m) == Some(Set::<usize>::empty()),
    decreases m,
{
    if m > 0 {
        lemma_custody_exclusion_unanimous(n, x, t, (m - 1) as nat);
        let cs = custody_decimals(copies(n, x), m - 1);
        lemma_grouping_unanimous(cs, t);
    }
}

proof fn lemma_token_exclusion_unanimous(n: nat, x: SolanaDataView, t: int, m: nat)
    requires
        n >= t,
        n > 0,
        m <= x.solana_token_decimals.len(),
    ensures
        token_exclusion(copies(n, x), t, Set::<usize>::empty(), m) == Some(Set::<usize>::empty()),
    decreases m,
{
    if m > 0 {
        lemma_token_exclusion_unanimous(n, x, t, (m - 1) as nat);
        let ds = token_decimals(copies(n, x), m - 1);
        lemma_grouping_unanimous(ds, t);
    }
}

proof fn lemma_kept_all(data: Seq<SolanaDataView>, m: nat)
    requires
        m <= data.len(),
    ensures
        kept(data, Set::<usize>::empty(), m) == data.subrange(0, m as int),
    decreases m,
{
    if m > 0 {
        lemma_kept_all(data, (m - 1) as nat);
        assert(data.subrange(0, m as int) =~= data.subrange(0, m - 1).push(data[m - 1]));
    }
}

/// A field on which all submissions agree is agreed on that value, when it lies in
/// the range its consensus converts.
proof fn lemma_field_unanimous(kind: FieldKind, v: int, n: nat, t: int, d: u64)
    requires
        n >= t,
        n > 0,
        kind is Small ==> 0 <= v <= u64::MAX,
        kind is Wide ==> 0 <= v && v * 1_000_000_000_000_000_000 <= u128::MAX,
        kind is Byte ==> 0 <= v <= u8::MAX,
    ensures
        field_consensus(kind, Seq::new(n, |k: int| v), t, d) == Some(v),
{
    reveal(field_consensus);
    match kind {
        FieldKind::Small => {
            let x = v as u64;
            lemma_consensus_unanimous::<u64>(x, n, t, d);
            assert(Seq::new(n, |k: int| x.value()) =~= Seq::new(n, |k: int| v));
        },
        FieldKind::Wide => {
            let x = v as u128;
            lemma_consensus_unanimous::<u128>(x, n, t, d);
            assert(Seq::new(n, |k: int| x.value()) =~= Seq::new(n, |k: int| v));
        },
        FieldKind::Byte => {
            let x = v as u8;
            lemma_consensus_unanimous::<u8>(x, n, t, d);
            assert(Seq::new(n, |k: int| x.value()) =~= Seq::new(n, |k: int| v));
        },
    }
}

/// The amounts of a datum that the consensus reads as wide values stay within the
/// range it converts.
pub open spec fn wide_amounts_convertible(x: SolanaDataView) -> bool {
    &&& x.aum_usd * 1_000_000_000_000_000_000 <= u128::MAX
    &&& forall|i: int| 0 <= i < x.solana_balances.len() ==> (#[trigger] x.solana_balances[i]).amount * 1_000_000_000_000_000_000 <= u128::MAX
    &&& forall|i: int| 0 <= i < x.solana_token_total_supply.len() ==> (#[trigger] x.solana_token_total_supply[i]).total_supply * 1_000_000_000_000_000_000 <= u128::MAX
}

/// The columns of `n` copies of a datum hold its values.
proof fn lemma_copies_columns(n: nat, x: SolanaDataView)
    ensures
        aum_column(copies(n, x)) =~= Seq::new(n, |j: int| x.aum_usd as int),
        forall|i: int, w: int|
            0 <= i < x.custody_assets.len() && 0 <= w < 3 ==> #[trigger] custody_column(copies(n, x), i, w)
                =~= Seq::new(n, |j: int| custody_field(x.custody_assets[i], w)),
        forall|i: int|
            0 <= i < x.solana_balances.len() ==> #[trigger] balance_column(copies(n, x), i) =~= Seq::new(
                n,
                |j: int| x.solana_balances[i].amount as int,
            ),
        forall|i: int|
            0 <= i < x.solana_token_total_supply.len() ==> #[trigger] supply_column(copies(n, x), i) =~= Seq::new(
                n,
                |j: int| x.solana_token_total_supply[i].total_supply as int,
            ),
        forall|i: int|
            0 <= i < x.solana_token_decimals.len() ==> #[trigger] decimals_column(copies(n, x), i) =~= Seq::new(
                n,
                |j: int| x.solana_token_decimals[i].decimals as int,
            ),
{
}

/// Every field of `n` copies of a datum is agreed.
proof fn lemma_copies_calls_agree(n: nat, x: SolanaDataView, t: int, d: u64)
    requires
        n >= t,
        n > 0,
        wide_amounts_convertible(x),
    ensures
        all_calls_agree(field_calls(copies(n, x)), t, d),
{
    let k = copies(n, x);
    lemma_copies_columns(n, x);
    let nc = x.custody_assets.len() as int;
    let nb = x.solana_balances.len() as int;
    let ns = x.solana_token_total_supply.len() as int;
    reveal(field_calls);
    let calls = field_calls(k);
    assert forall|q: int| 0 <= q < calls.len() implies (#[trigger] field_consensus(calls[q].0, calls[q].1, t, d)) is Some by {
        if q < 3 * nc {
            assert(calls[q] == (FieldKind::Small, custody_column(k, q / 3, q % 3)));
            lemma_field_unanimous(FieldKind::Small, custody_field(x.custody_assets[q / 3], q % 3), n, t, d);
        } else if q < 3 * nc + nb {
            assert(calls[q] == (FieldKind::Wide, balance_column(k, q - 3 * nc)));
            lemma_field_unanimous(FieldKind::Wide, x.solana_balances[q - 3 * nc].amount as int, n, t, d);
        } else if q < 3 * nc + nb + ns {
            assert(calls[q] == (FieldKind::Wide, supply_column(k, q - 3 * nc - nb)));
            lemma_field_unanimous(
                FieldKind::Wide,
                x.solana_token_total_supply[q - 3 * nc - nb].total_supply as int,
                n,
                t,
                d,
            );
        } else {
            assert(calls[q] == (FieldKind::Byte, decimals_column(k, q - 3 * nc - nb - ns)));
            lemma_field_unanimous(
                FieldKind::Byte,
                x.solana_token_decimals[q - 3 * nc - nb - ns].decimals as int,
                n,
                t,
                d,
            );
        }
    }
}

/// The agreed data of `n` copies of a datum is that datum.
proof fn lemma_copies_agreed(n: nat, x: SolanaDataView, t: int, d: u64)
    requires
        n >= t,
        n > 0,
        wide_amounts_convertible(x),
    ensures
        agreed_data(copies(n, x), t, d) == x,
{
    let k = copies(n, x);
    lemma_copies_columns(n, x);
    let a = agreed_data(k, t, d);
    assert forall|i: int| 0 <= i < x.custody_assets.len() implies #[trigger] a.custody_assets[i] == x.custody_assets[i] by {
        lemma_field_unanimous(FieldKind::Small, custody_field(x.custody_assets[i], 0), n, t, d);
        lemma_field_unanimous(FieldKind::Small, custody_field(x.custody_assets[i], 1), n, t, d);
        lemma_field_unanimous(FieldKind::Small, custody_field(x.custody_assets[i], 2), n, t, d);
    }
    assert forall|i: int| 0 <= i < x.solana_balances.len() implies #[trigger] a.solana_balances[i] == x.solana_balances[i] by {
        lemma_field_unanimous(FieldKind::Wide, x.solana_balances[i].amount as int, n, t, d);
    }
    assert forall|i: int| 0 <= i < x.solana_token_total_supply.len() implies #[trigger] a.solana_token_total_supply[i]
        == x.solana_token_total_supply[i] by {
        lemma_field_unanimous(FieldKind::Wide, x.solana_token_total_supply[i].total_supply as int, n, t, d);
    }
    assert forall|i: int| 0 <= i < x.solana_token_decimals.len() implies #[trigger] a.solana_token_decimals[i]
        == x.solana_token_decimals[i] by {
        lemma_field_unanimous(FieldKind::Byte, x.solana_token_decimals[i].decimals as int, n, t, d);
    }
    lemma_field_unanimous(FieldKind::Wide, x.aum_usd as int, n, t, d);
    assert(a.custody_assets =~= x.custody_assets);
    assert(a.solana_balances =~= x.solana_balances);
    assert(a.solana_token_total_supply =~= x.solana_token_total_supply);
    assert(a.solana_token_decimals =~= x.solana_token_decimals);
}

/// Law: when at least `t` messengers submit the same data, that data is the
/// consensus (its wide amounts within the range the consensus converts).
pub proof fn lemma_solana_consensus_unanimous(x: SolanaDataView, n: nat, t: int, d: u64)
    requires
        n >= t,
        n > 0,
        wide_amounts_convertible(x),
    ensures
        solana_consensus(copies(n, x), t, d) == Some(x),
{
    let data = copies(n, x);
    assert(decimals_cover(data));
    lemma_custody_exclusion_unanimous(n, x, t, x.custody_assets.len());
    lemma_token_exclusion_unanimous(n, x, t, x.solana_token_decimals.len());
    assert(exclusion(data, t) == Some(Set::<usize>::empty()));
    lemma_kept_all(data, n);
    assert(data.subrange(0, n as int) =~= data);
    assert(kept(data, Set::<usize>::empty(), data.len()) == data);
    assert(spec_consensus::<u128>(aum_column(data), t, d) is Some) by {
        lemma_copies_columns(n, x);
        lemma_field_unanimous(FieldKind::Wide, x.aum_usd as int, n, t, d);
        reveal(field_consensus);
    }
    assert(lengths_match(data));
    assert(lengths_cover(data));
    lemma_copies_calls_agree(n, x, t, d);
    lemma_copies_agreed(n, x, t, d);
}

impl ConsensusData<Config> for SolanaData {
    open spec fn spec_prepublish_cleanup(data: SolanaDataView, options: Config) -> Result<
        SolanaDataView,
        Seq<char>,
    > {
        cleanup_solana(data, options)
    }

    open spec fn spec_try_consensus(data: Seq<SolanaDataView>, threshold: int, delta_ppm: u64) -> Option<
        SolanaDataView,
    > {
        solana_consensus(data, threshold, delta_ppm)
    }

    open spec fn consensus_safe(data: Seq<SolanaDataView>, threshold: int, delta_ppm: u64) -> bool {
        solana_consensus_safe(data, threshold, delta_ppm)
    }

    fn prepublish_cleanup(&mut self, options: Config) -> (r: Result<(), ConsensusError>) {
        self.cleanup(&options)
    }

    #[verifier::rlimit(40)]
    fn try_consensus(data: &[SolanaData], threshold: usize, delta_ppm: u64) -> (r: Option<SolanaData>) {
        let ghost dv = views(data@);
        let ghost t = threshold as int;
        if data.len() < threshold {
            return None;
        }
        if data.len() == 0 {
            return None;
        }
        if !decimals_lists_cover(data) {
            return None;
        }
        let excluded = match exclude_by_decimals(data, threshold) {
            Some(e) => e,
            None => {
                return None;
            },
        };
        let kept = keep_data(data, &excluded);
        let ghost k = views(kept@);
        let get_aum = |d: &SolanaData| -> (a: u128)
            ensures
                a == d.aum_usd,
            { d.aum_usd };
        proof {
            assert forall|ys: Seq<u128>|
                ys.len() == kept@.len() && (forall|m: int|
                    0 <= m < kept@.len() ==> get_aum.ensures((&kept@[m],), #[trigger] ys[m])) implies consensus_safe::<
                u128,
            >(values(ys), t, delta_ppm) by {
                assert forall|m: int| 0 <= m < ys.len() implies values(ys)[m] == aum_column(k)[m] by {
                    assert(get_aum.ensures((&kept@[m],), ys[m]));
                    assert(k[m] == kept@[m]@);
                }
                assert(values(ys) =~= aum_column(k));
            }
        }
        let aum = match consensus_on_field_u128(kept.as_slice(), get_aum, threshold, delta_ppm) {
            Some(a) => a,
            None => {
                proof {
                    let ys = choose|ys: Seq<u128>|
                        {
                            &&& ys.len() == kept@.len()
                            &&& forall|m: int|
                                0 <= m < kept@.len() ==> get_aum.ensures((&kept@[m],), #[trigger] ys[m])
                            &&& spec_consensus::<u128>(values(ys), t, delta_ppm) is None
                        };
                    assert forall|m: int| 0 <= m < ys.len() implies values(ys)[m] == aum_column(k)[m] by {
                        assert(get_aum.ensures((&kept@[m],), ys[m]));
                        assert(k[m] == kept@[m]@);
                    }
                    assert(values(ys) =~= aum_column(k));
                }
                return None;
            },
        };
        proof {
            let ys = choose|ys: Seq<u128>|
                {
                    &&& ys.len() == kept@.len()
                    &&& forall|m: int| 0 <= m < kept@.len() ==> get_aum.ensures((&kept@[m],), #[trigger] ys[m])
                    &&& spec_consensus::<u128>(values(ys), t, delta_ppm) == Some(aum as int)
                };
            assert forall|m: int| 0 <= m < ys.len() implies values(ys)[m] == aum_column(k)[m] by {
                assert(get_aum.ensures((&kept@[m],), ys[m]));
                assert(k[m] == kept@[m]@);
            }
            assert(values(ys) =~= aum_column(k));
            lemma_field_consensus(FieldKind::Wide, aum_column(k), t, delta_ppm);
        }
        if !lengths_agree(&kept) {
            return None;
        }
        if !kept_lengths_cover(&kept) {
            return None;
        }
        proof {
            lemma_all_agree(k, t, delta_ppm);
        }
        let custody = match agree_custody(&kept, threshold, delta_ppm) {
            Some(c) => c,
            None => {
                return None;
            },
        };
        let balances = match agree_balances(&kept, threshold, delta_ppm) {
            Some(b) => b,
            None => {
                return None;
            },
        };
        proof {
            lemma_agree_join(k, t, delta_ppm, 0, balance_offset(k), supply_offset(k));
        }
        let supplies = match agree_supplies(&kept, threshold, delta_ppm) {
            Some(s) => s,
            None => {
                return None;
            },
        };
        proof {
            lemma_agree_join(k, t, delta_ppm, 0, supply_offset(k), decimals_offset(k));
        }
        let decimals = match agree_decimals(&kept, threshold, delta_ppm) {
            Some(d) => d,
            None => {
                return None;
            },
        };
        proof {
            lemma_other_calls(k);
            lemma_agree_join(
                k,
                t,
                delta_ppm,
                0,
                decimals_offset(k),
                decimals_offset(k) + k[0].solana_token_decimals.len(),
            );
        }
        let r = SolanaData {
            custody_assets: custody,
            aum_usd: aum,
            solana_balances: balances,
            solana_token_total_supply: supplies,
            solana_token_decimals: decimals,
        };
        proof {
            assert(r@ =~= agreed_data(k, t, delta_ppm));
        }
        Some(r)
    }
}

/// A consensus value lies in the range of the reported values.
proof fn lemma_consensus_in_range<T: ConsensusItem>(vals: Seq<int>, t: int, d: u64, lo: int, hi: int)
    requires
        spec_consensus::<T>(vals, t, d) is Some,
        forall|k: int| 0 <= k < vals.len() ==> lo <= #[trigger] vals[k] <= hi,
    ensures
        lo <= spec_consensus::<T>(vals, t, d)->0 <= hi,
{
    crate::items::lemma_consensus_within_reports::<T>(vals, t, d);
    let c = spec_consensus::<T>(vals, t, d)->0;
    let (a, b) = choose|a: int, b: int| vals.contains(a) && vals.contains(b) && a <= c <= b;
}

/// The agreed value of a `u128` column is its consensus.
proof fn lemma_wide_agreed(col: Seq<int>, t: int, d: u64)
    requires
        field_consensus(FieldKind::Wide, col, t, d) is Some,
        forall|k: int| 0 <= k < col.len() ==> 0 <= #[trigger] col[k] <= u128::MAX,
    ensures
        Some((agreed(FieldKind::Wide, col, t, d) as u128) as int) == spec_consensus::<u128>(col, t, d),
{
    lemma_field_consensus(FieldKind::Wide, col, t, d);
    lemma_consensus_in_range::<u128>(col, t, d, 0, u128::MAX as int);
}

/// The agreed value of a `u64` column is its consensus.
proof fn lemma_small_agreed(col: Seq<int>, t: int, d: u64)
    requires
        field_consensus(FieldKind::Small, col, t, d) is Some,
        forall|k: int| 0 <= k < col.len() ==> 0 <= #[trigger] col[k] <= u64::MAX,
    ensures
        Some((agreed(FieldKind::Small, col, t, d) as u64) as int) == spec_consensus::<u64>(col, t, d),
{
    lemma_field_consensus(FieldKind::Small, col, t, d);
    lemma_consensus_in_range::<u64>(col, t, d, 0, u64::MAX as int);
}

/// What a formed Solana consensus rests on: the data kept after the decimals check
/// agree on the AUM, have matching entry counts and agree on every amount, and the
/// result is the agreed data of the kept ones.
proof fn lemma_solana_formed(data: Seq<SolanaDataView>, t: int, d: u64, x: SolanaDataView)
    requires
        solana_consensus(data, t, d) == Some(x),
    ensures
        exclusion(data, t) is Some,
        ({
            let k = kept(data, exclusion(data, t)->0, data.len());
            &&& k.len() > 0
            &&& lengths_match(k)
            &&& spec_consensus::<u128>(aum_column(k), t, d) is Some
            &&& all_calls_agree(field_calls(k), t, d)
            &&& x == agreed_data(k, t, d)
        }),
{
}

/// The agreed AUM of kept data is the consensus of their AUMs.
#[verifier::rlimit(40)]
proof fn lemma_kept_aum(k: Seq<SolanaDataView>, t: int, d: u64)
    requires
        spec_consensus::<u128>(aum_column(k), t, d) is Some,
    ensures
        Some(agreed_data(k, t, d).aum_usd as int) == spec_consensus::<u128>(
            Seq::new(k.len(), |j: int| k[j].aum_usd as int),
            t,
            d,
        ),
{
    lemma_field_consensus(FieldKind::Wide, aum_column(k), t, d);
    lemma_wide_agreed(aum_column(k), t, d);
    assert(aum_column(k) =~= Seq::new(k.len(), |j: int| k[j].aum_usd as int));
}

/// Law: the agreed AUM of Solana data is the numeric consensus (the median of the
/// first tolerance window of at least `t` values) of the AUMs that the data kept after
/// the decimals check report.
pub proof fn lemma_solana_agreed_aum(data: Seq<SolanaDataView>, t: int, d: u64, x: SolanaDataView)
    requires
        solana_consensus(data, t, d) == Some(x),
    ensures
        exclusion(data, t) is Some,
        ({
            let k = kept(data, exclusion(data, t)->0, data.len());
            Some(x.aum_usd as int) == spec_consensus::<u128>(Seq::new(k.len(), |j: int| k[j].aum_usd as int), t, d)
        }),
{
    lemma_solana_formed(data, t, d, x);
    lemma_kept_aum(kept(data, exclusion(data, t)->0, data.len()), t, d);
}

/// Agreed balance `i` of kept data: its amount is the consensus of its column.
proof fn lemma_kept_balance(k: Seq<SolanaDataView>, t: int, d: u64, i: int)
    requires
        k.len() > 0,
        all_calls_agree(field_calls(k), t, d),
        0 <= i < k[0].solana_balances.len(),
    ensures
        Some(agreed_balance(k, t, d, i).amount as int) == spec_consensus::<u128>(
            Seq::new(k.len(), |j: int| k[j].solana_balances[i].amount as int),
            t,
            d,
        ),
{
    lemma_other_calls(k);
    let q = balance_offset(k) + i;
    assert(field_calls(k)[q] == (FieldKind::Wide, balance_column(k, i)));
    assert(field_consensus(field_calls(k)[q].0, field_calls(k)[q].1, t, d) is Some);
    lemma_wide_agreed(balance_column(k, i), t, d);
    assert(balance_column(k, i) =~= Seq::new(k.len(), |j: int| k[j].solana_balances[i].amount as int));
}

/// Agreed total supply `i` of kept data: its amount is the consensus of its column.
proof fn lemma_kept_supply(k: Seq<SolanaDataView>, t: int, d: u64, i: int)
    requires
        k.len() > 0,
        all_calls_agree(field_calls(k), t, d),
        0 <= i < k[0].solana_token_total_supply.len(),
    ensures
        Some(agreed_supply(k, t, d, i).total_supply as int) == spec_consensus::<u128>(
            Seq::new(k.len(), |j: int| k[j].solana_token_total_supply[i].total_supply as int),
            t,
            d,
        ),
{
    lemma_other_calls(k);
    let q = supply_offset(k) + i;
    assert(field_calls(k)[q] == (FieldKind::Wide, supply_column(k, i)));
    assert(field_consensus(field_calls(k)[q].0, field_calls(k)[q].1, t, d) is Some);
    lemma_wide_agreed(supply_column(k, i), t, d);
    assert(supply_column(k, i) =~= Seq::new(k.len(), |j: int| k[j].solana_token_total_supply[i].total_supply as int));
}

/// Law: every agreed Solana balance keeps the first kept datum's account and asset,
/// and its amount is the numeric consensus of that balance's amounts over the kept
/// data; the same holds of every agreed token total supply.
pub proof fn lemma_solana_agreed_balances(data: Seq<SolanaDataView>, t: int, d: u64, x: SolanaDataView)
    requires
        solana_consensus(data, t, d) == Some(x),
    ensures
        exclusion(data, t) is Some,
        ({
            let k = kept(data, exclusion(data, t)->0, data.len());
            &&& x.solana_balances.len() == k[0].solana_balances.len()
            &&& forall|i: int|
                0 <= i < x.solana_balances.len() ==> (#[trigger] x.solana_balances[i]).address
                    == k[0].solana_balances[i].address && x.solana_balances[i].asset == k[0].solana_balances[i].asset
                    && Some(x.solana_balances[i].amount as int) == spec_consensus::<u128>(
                    Seq::new(k.len(), |j: int| k[j].solana_balances[i].amount as int),
                    t,
                    d,
                )
            &&& x.solana_token_total_supply.len() == k[0].solana_token_total_supply.len()
            &&& forall|i: int|
                0 <= i < x.solana_token_total_supply.len() ==> (#[trigger] x.solana_token_total_supply[i]).asset
                    == k[0].solana_token_total_supply[i].asset && Some(
                    x.solana_token_total_supply[i].total_supply as int,
                ) == spec_consensus::<u128>(
                    Seq::new(k.len(), |j: int| k[j].solana_token_total_supply[i].total_supply as int),
                    t,
                    d,
                )
        }),
{
    lemma_solana_formed(data, t, d, x);
    let k = kept(data, exclusion(data, t)->0, data.len());
    assert forall|i: int| 0 <= i < x.solana_balances.len() implies (#[trigger] x.solana_balances[i]).address
        == k[0].solana_balances[i].address && x.solana_balances[i].asset == k[0].solana_balances[i].asset
        && Some(x.solana_balances[i].amount as int) == spec_consensus::<u128>(
        Seq::new(k.len(), |j: int| k[j].solana_balances[i].amount as int),
        t,
        d,
    ) by {
        lemma_kept_balance(k, t, d, i);
    }
    assert forall|i: int| 0 <= i < x.solana_token_total_supply.len() implies (#[trigger] x.solana_token_total_supply[i]).asset
        == k[0].solana_token_total_supply[i].asset && Some(x.solana_token_total_supply[i].total_supply as int)
        == spec_consensus::<u128>(
        Seq::new(k.len(), |j: int| k[j].solana_token_total_supply[i].total_supply as int),
        t,
        d,
    ) by {
        lemma_kept_supply(k, t, d, i);
    }
}

/// The calls on custody assets come first, three per asset.
proof fn lemma_custody_calls(k: Seq<SolanaDataView>, i: int, w: int)
    requires
        k.len() > 0,
        0 <= i < k[0].custody_assets.len(),
        0 <= w < 3,
    ensures
        3 * i + w < field_calls(k).len(),
        field_calls(k)[3 * i + w] == (FieldKind::Small, custody_column(k, i, w)),
{
    reveal(field_calls);
    let nc = k[0].custody_assets.len() as int;
    let q = 3 * i + w;
    assert(q / 3 == i && q % 3 == w);
    let a = Seq::new((3 * nc) as nat, |q: int| (FieldKind::Small, custody_column(k, q / 3, q % 3)));
    assert(q < a.len());
    assert(a[q] == (FieldKind::Small, custody_column(k, i, w)));
    let nb = k[0].solana_balances.len() as int;
    let ns = k[0].solana_token_total_supply.len() as int;
    let nd = k[0].solana_token_decimals.len() as int;
    let b = Seq::new(nb as nat, |i: int| (FieldKind::Wide, balance_column(k, i)));
    let c = Seq::new(ns as nat, |i: int| (FieldKind::Wide, supply_column(k, i)));
    let e = Seq::new(nd as nat, |i: int| (FieldKind::Byte, decimals_column(k, i)));
    assert(field_calls(k) == a + b + c + e);
    assert((a + b + c + e)[q] == a[q]);
}

/// The owned amount of agreed custody asset `i` of kept data is the consensus of its column.
#[verifier::rlimit(40)]
proof fn lemma_kept_custody_owned(k: Seq<SolanaDataView>, t: int, d: u64, i: int)
    requires
        k.len() > 0,
        all_calls_agree(field_calls(k), t, d),
        0 <= i < k[0].custody_assets.len(),
    ensures
        Some(agreed_custody(k, t, d, i).owned as int) == spec_consensus::<u64>(
            Seq::new(k.len(), |j: int| k[j].custody_assets[i].owned as int),
            t,
            d,
        ),
{
    lemma_custody_calls(k, i, 1);
    assert(field_consensus(field_calls(k)[3 * i + 1].0, field_calls(k)[3 * i + 1].1, t, d) is Some);
    lemma_small_agreed(custody_column(k, i, 1), t, d);
    assert(custody_column(k, i, 1) =~= Seq::new(k.len(), |j: int| k[j].custody_assets[i].owned as int));
}

/// The locked amount of agreed custody asset `i` of kept data is the consensus of its column.
#[verifier::rlimit(40)]
proof fn lemma_kept_custody_locked(k: Seq<SolanaDataView>, t: int, d: u64, i: int)
    requires
        k.len() > 0,
        all_calls_agree(field_calls(k), t, d),
        0 <= i < k[0].custody_assets.len(),
    ensures
        Some(agreed_custody(k, t, d, i).locked as int) == spec_consensus::<u64>(
            Seq::new(k.len(), |j: int| k[j].custody_assets[i].locked as int),
            t,
            d,
        ),
{
    lemma_custody_calls(k, i, 2);
    assert(field_consensus(field_calls(k)[3 * i + 2].0, field_calls(k)[3 * i + 2].1, t, d) is Some);
    lemma_small_agreed(custody_column(k, i, 2), t, d);
    assert(custody_column(k, i, 2) =~= Seq::new(k.len(), |j: int| k[j].custody_assets[i].locked as int));
}

/// The guaranteed USD amount of agreed custody asset `i` of kept data is the consensus of its column.
#[verifier::rlimit(40)]
proof fn lemma_kept_custody_guaranteed_usd(k: Seq<SolanaDataView>, t: int, d: u64, i: int)
    requires
        k.len() > 0,
        all_calls_agree(field_calls(k), t, d),
        0 <= i < k[0].custody_assets.len(),
    ensures
        Some(agreed_custody(k, t, d, i).guaranteed_usd as int) == spec_consensus::<u64>(
            Seq::new(k.len(), |j: int| k[j].custody_assets[i].guaranteed_usd as int),
            t,
            d,
        ),
{
    lemma_custody_calls(k, i, 0);
    assert(field_consensus(field_calls(k)[3 * i + 0].0, field_calls(k)[3 * i + 0].1, t, d) is Some);
    lemma_small_agreed(custody_column(k, i, 0), t, d);
    assert(custody_column(k, i, 0) =~= Seq::new(k.len(), |j: int| k[j].custody_assets[i].guaranteed_usd as int));
}

/// Law: every agreed custody asset keeps the first kept datum's denom and decimals,
/// and its owned, locked and guaranteed USD amounts are the numeric consensus of
/// those amounts over the kept data.
pub proof fn lemma_solana_agreed_custody(data: Seq<SolanaDataView>, t: int, d: u64, x: SolanaDataView)
    requires
        solana_consensus(data, t, d) == Some(x),
    ensures
        exclusion(data, t) is Some,
        ({
            let k = kept(data, exclusion(data, t)->0, data.len());
            &&& x.custody_assets.len() == k[0].custody_assets.len()
            &&& forall|i: int|
                0 <= i < x.custody_assets.len() ==> (#[trigger] x.custody_assets[i]).denom == k[0].custody_assets[i].denom
                    && x.custody_assets[i].decimals == k[0].custody_assets[i].decimals
                    && Some(x.custody_assets[i].owned as int) == spec_consensus::<u64>(
                    Seq::new(k.len(), |j: int| k[j].custody_assets[i].owned as int),
                    t,
                    d,
                ) && Some(x.custody_assets[i].locked as int) == spec_consensus::<u64>(
                    Seq::new(k.len(), |j: int| k[j].custody_assets[i].locked as int),
                    t,
                    d,
                ) && Some(x.custody_assets[i].guaranteed_usd as int) == spec_consensus::<u64>(
                    Seq::new(k.len(), |j: int| k[j].custody_assets[i].guaranteed_usd as int),
                    t,
                    d,
                )
        }),
{
    lemma_solana_formed(data, t, d, x);
    let k = kept(data, exclusion(data, t)->0, data.len());
    assert forall|i: int| 0 <= i < x.custody_assets.len() implies (#[trigger] x.custody_assets[i]).denom
        == k[0].custody_assets[i].denom && x.custody_assets[i].decimals == k[0].custody_assets[i].decimals
        && Some(x.custody_assets[i].owned as int) == spec_consensus::<u64>(
        Seq::new(k.len(), |j: int| k[j].custody_assets[i].owned as int),
        t,
        d,
    ) && Some(x.custody_assets[i].locked as int) == spec_consensus::<u64>(
        Seq::new(k.len(), |j: int| k[j].custody_assets[i].locked as int),
        t,
        d,
    ) && Some(x.custody_assets[i].guaranteed_usd as int) == spec_consensus::<u64>(
        Seq::new(k.len(), |j: int| k[j].custody_assets[i].guaranteed_usd as int),
        t,
        d,
    ) by {
        lemma_kept_custody_owned(k, t, d, i);
        lemma_kept_custody_locked(k, t, d, i);
        lemma_kept_custody_guaranteed_usd(k, t, d, i);
    }
}

} // verus!
