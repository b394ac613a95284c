use crate::consensus::ConsensusError;
use crate::jupiter::{
    balance_lists, flatten_assets, lemma_flatten_prefix, Config, CustodyAsset, CustodyAssetView,
    SolanaBalance, SolanaBalanceView, SolanaData, SolanaDataView, SolanaTokenDecimals,
    SolanaTokenDecimalsView, SolanaTokenTotalSupply, SolanaTokenTotalSupplyView,
};
use crate::sequences::{lemma_take_first, lemma_filter_step, contains_str, dedup_by_key, dedup_records, sort_by_key, sort_records, strs, views};
use crate::strings::str_eq;
use vstd::prelude::*;
use vstd::string::StringExecFns;

verus! {

/// The custody assets whose denom is required.
pub open spec fn custody_wanted(req: Seq<Seq<char>>) -> spec_fn(CustodyAssetView) -> bool {
    |a: CustodyAssetView| req.contains(a.denom)
}

/// The assets required for an address: those of the first entry for it.
pub open spec fn assets_of(l: Seq<(Seq<char>, Seq<Seq<char>>)>, address: Seq<char>) -> Option<
    Seq<Seq<char>>,
>
    decreases l.len(),
{
    if l.len() == 0 {
        None
    } else if l[0].0 == address {
        Some(l[0].1)
    } else {
        assets_of(l.drop_first(), address)
    }
}

/// The balances whose address requires their asset.
pub open spec fn balance_wanted(l: Seq<(Seq<char>, Seq<Seq<char>>)>) -> spec_fn(SolanaBalanceView) -> bool {
    |b: SolanaBalanceView|
        match assets_of(l, b.address) {
            Some(a) => a.contains(b.asset),
            None => false,
        }
}

/// The total supplies of required tokens.
pub open spec fn supply_wanted(req: Seq<Seq<char>>) -> spec_fn(SolanaTokenTotalSupplyView) -> bool {
    |t: SolanaTokenTotalSupplyView| req.contains(t.asset)
}

/// The decimals of tokens that are required in balances or total supplies.
pub open spec fn decimals_wanted(req: Seq<Seq<char>>) -> spec_fn(SolanaTokenDecimalsView) -> bool {
    |d: SolanaTokenDecimalsView| req.contains(d.asset)
}

/// All assets whose decimals are required: balance assets, then total supply assets.
pub open spec fn decimal_assets(c: Config) -> Seq<Seq<char>> {
    flatten_assets(balance_lists(c)) + strs(c.required_solana_token_total_supply@)
}

pub open spec fn custody_mismatch() -> Seq<char> {
    "Provided solana custody assets don't match required ones"@
}

pub open spec fn balances_mismatch() -> Seq<char> {
    "Provided solana balances don't match required ones"@
}

pub open spec fn supplies_mismatch() -> Seq<char> {
    "Provided solana token total supplies don't match required ones"@
}

pub open spec fn decimals_mismatch() -> Seq<char> {
    "Provided solana token decimals don't match required ones"@
}

/// Some balance is for the given address and asset.
pub open spec fn has_balance_for(b: Seq<SolanaBalanceView>, address: Seq<char>, asset: Seq<char>) -> bool {
    exists|k: int| 0 <= k < b.len() && b[k].address == address && b[k].asset == asset
}

/// Every required (address, asset) pair has a balance.
pub open spec fn balances_present(b: Seq<SolanaBalanceView>, l: Seq<(Seq<char>, Seq<Seq<char>>)>) -> bool {
    forall|i: int, j: int|
        0 <= i < l.len() && 0 <= j < l[i].1.len() ==> #[trigger] has_balance_for(b, l[i].0, l[i].1[j])
}

/// Some total supply is for the given token.
pub open spec fn has_supply_for(s: Seq<SolanaTokenTotalSupplyView>, asset: Seq<char>) -> bool {
    exists|k: int| 0 <= k < s.len() && s[k].asset == asset
}

/// Every required token has a total supply.
pub open spec fn supplies_present(s: Seq<SolanaTokenTotalSupplyView>, req: Seq<Seq<char>>) -> bool {
    forall|i: int| 0 <= i < req.len() ==> #[trigger] has_supply_for(s, req[i])
}

/// What cleaning Solana data for a configuration gives:
/// * custody assets: those with a required denom, ordered by denom, the first of each denom;
///   there must be as many as required denoms;
/// * balances: those whose address requires their asset, ordered by address and asset;
///   there must be one for every required (address, asset) pair, and as many as
///   required balances;
/// * total supplies: those of required tokens, ordered by token; one for every
///   required token, and as many as required;
/// * decimals: those of tokens required in balances or supplies, in their order; as many
///   as there are distinct such tokens.
pub open spec fn cleanup_solana(d: SolanaDataView, c: Config) -> Result<SolanaDataView, Seq<char>> {
    let custody = dedup_by_key::<CustodyAsset>(
        sort_by_key::<CustodyAsset>(
            d.custody_assets.filter(custody_wanted(strs(c.required_custody_assets@))),
        ),
    );
    let balances = sort_by_key::<SolanaBalance>(
        d.solana_balances.filter(balance_wanted(balance_lists(c))),
    );
    let supplies = sort_by_key::<SolanaTokenTotalSupply>(
        d.solana_token_total_supply.filter(
            supply_wanted(strs(c.required_solana_token_total_supply@)),
        ),
    );
    let decimals = d.solana_token_decimals.filter(decimals_wanted(decimal_assets(c)));
    if custody.len() != c.required_custody_assets@.len() {
        Err(custody_mismatch())
    } else if balances.len() != flatten_assets(balance_lists(c)).len() || !balances_present(
        balances,
        balance_lists(c),
    ) {
        Err(balances_mismatch())
    } else if supplies.len() != c.required_solana_token_total_supply@.len() || !supplies_present(
        supplies,
        strs(c.required_solana_token_total_supply@),
    ) {
        Err(supplies_mismatch())
    } else if decimals.len() != decimal_assets(c).to_set().len() {
        Err(decimals_mismatch())
    } else {
        Ok(
            SolanaDataView {
                custody_assets: custody,
                aum_usd: d.aum_usd,
                solana_balances: balances,
                solana_token_total_supply: supplies,
                solana_token_decimals: decimals,
            },
        )
    }
}

/// Keeps the custody assets with a required denom.
fn retain_custody(v: Vec<CustodyAsset>, req: &Vec<String>) -> (r: Vec<CustodyAsset>)
    ensures
        views(r@) == views(v@).filter(custody_wanted(strs(req@))),
{
    let ghost orig = views(v@);
    let ghost p = custody_wanted(strs(req@));
    let mut rest = v;
    let mut out: Vec<CustodyAsset> = Vec::new();
    let ghost mut k: int = 0;
    while rest.len() > 0
        invariant
            0 <= k <= orig.len(),
            p == custody_wanted(strs(req@)),
            views(rest@) == orig.subrange(k, orig.len() as int),
            views(out@) == orig.subrange(0, k).filter(p),
        decreases rest.len(),
    {
        let ghost before = rest@;
        let x = rest.remove(0);
        proof {
            lemma_take_first::<CustodyAsset>(orig, before, rest@, x, k);
            lemma_filter_step(orig, k, p);
        }
        if contains_str(req, &x.denom) {
            out.push(x);
            proof {
                assert(views(out@) =~= orig.subrange(0, k).filter(p).push(x@));
            }
        }
        proof {
            k = k + 1;
        }
    }
    proof {
        assert(orig.subrange(0, k) =~= orig);
    }
    out
}

/// The required assets of an address: those of the first entry for it.
fn lookup_assets<'a>(pairs: &'a Vec<(String, Vec<String>)>, address: &String) -> (r: Option<
    &'a Vec<String>,
>)
    ensures
        match assets_of(pairs@.map_values(|p: (String, Vec<String>)| (p.0@, strs(p.1@))), address@) {
            Some(a) => r matches Some(v) && strs(v@) == a,
            None => r is None,
        },
{
    let ghost l = pairs@.map_values(|p: (String, Vec<String>)| (p.0@, strs(p.1@)));
    let n = pairs.len();
    let mut i: usize = 0;
    proof {
        assert(l.subrange(0, n as int) =~= l);
    }
    while i < n
        invariant
            i <= n,
            n == pairs@.len(),
            l == pairs@.map_values(|p: (String, Vec<String>)| (p.0@, strs(p.1@))),
            assets_of(l, address@) == assets_of(l.subrange(i as int, n as int), address@),
        decreases n - i,
    {
        let pair = &pairs[i];
        let ghost t = l.subrange(i as int, n as int);
        proof {
            assert(t[0] == l[i as int]);
            assert(t.drop_first() =~= l.subrange(i + 1, n as int));
        }
        if str_eq(&pair.0, address) {
            return Some(&pair.1);
        }
        i += 1;
    }
    None
}

/// Keeps the balances whose address requires their asset.
fn retain_balances(v: Vec<SolanaBalance>, c: &Config) -> (r: Vec<SolanaBalance>)
    ensures
        views(r@) == views(v@).filter(balance_wanted(balance_lists(*c))),
{
    let ghost orig = views(v@);
    let ghost p = balance_wanted(balance_lists(*c));
    let mut rest = v;
    let mut out: Vec<SolanaBalance> = Vec::new();
    let ghost mut k: int = 0;
    while rest.len() > 0
        invariant
            0 <= k <= orig.len(),
            p == balance_wanted(balance_lists(*c)),
            views(rest@) == orig.subrange(k, orig.len() as int),
            views(out@) == orig.subrange(0, k).filter(p),
        decreases rest.len(),
    {
        let ghost before = rest@;
        let x = rest.remove(0);
        proof {
            lemma_take_first::<SolanaBalance>(orig, before, rest@, x, k);
            lemma_filter_step(orig, k, p);
        }
        let wanted = match lookup_assets(&c.required_solana_balances, &x.address) {
            Some(assets) => contains_str(assets, &x.asset),
            None => false,
        };
        if wanted {
            out.push(x);
            proof {
                assert(views(out@) =~= orig.subrange(0, k).filter(p).push(x@));
            }
        }
        proof {
            k = k + 1;
        }
    }
    proof {
        assert(orig.subrange(0, k) =~= orig);
    }
    out
}

/// Keeps the total supplies of required tokens.
fn retain_supplies(v: Vec<SolanaTokenTotalSupply>, req: &Vec<String>) -> (r: Vec<
    SolanaTokenTotalSupply,
>)
    ensures
        views(r@) == views(v@).filter(supply_wanted(strs(req@))),
{
    let ghost orig = views(v@);
    let ghost p = supply_wanted(strs(req@));
    let mut rest = v;
    let mut out: Vec<SolanaTokenTotalSupply> = Vec::new();
    let ghost mut k: int = 0;
    while rest.len() > 0
        invariant
            0 <= k <= orig.len(),
            p == supply_wanted(strs(req@)),
            views(rest@) == orig.subrange(k, orig.len() as int),
            views(out@) == orig.subrange(0, k).filter(p),
        decreases rest.len(),
    {
        let ghost before = rest@;
        let x = rest.remove(0);
        proof {
            lemma_take_first::<SolanaTokenTotalSupply>(orig, before, rest@, x, k);
            lemma_filter_step(orig, k, p);
        }
        if contains_str(req, &x.asset) {
            out.push(x);
            proof {
                assert(views(out@) =~= orig.subrange(0, k).filter(p).push(x@));
            }
        }
        proof {
            k = k + 1;
        }
    }
    proof {
        assert(orig.subrange(0, k) =~= orig);
    }
    out
}

/// Keeps the decimals of tokens among `req`.
fn retain_decimals(v: Vec<SolanaTokenDecimals>, req: &Vec<String>) -> (r: Vec<SolanaTokenDecimals>)
    ensures
        views(r@) == views(v@).filter(decimals_wanted(strs(req@))),
{
    let ghost orig = views(v@);
    let ghost p = decimals_wanted(strs(req@));
    let mut rest = v;
    let mut out: Vec<SolanaTokenDecimals> = Vec::new();
    let ghost mut k: int = 0;
    while rest.len() > 0
        invariant
            0 <= k <= orig.len(),
            p == decimals_wanted(strs(req@)),
            views(rest@) == orig.subrange(k, orig.len() as int),
            views(out@) == orig.subrange(0, k).filter(p),
        decreases rest.len(),
    {
        let ghost before = rest@;
        let x = rest.remove(0);
        proof {
            lemma_take_first::<SolanaTokenDecimals>(orig, before, rest@, x, k);
            lemma_filter_step(orig, k, p);
        }
        if contains_str(req, &x.asset) {
            out.push(x);
            proof {
                assert(views(out@) =~= orig.subrange(0, k).filter(p).push(x@));
            }
        }
        proof {
            k = k + 1;
        }
    }
    proof {
        assert(orig.subrange(0, k) =~= orig);
    }
    out
}

/// The number of required balances; `None` when it exceeds the range of `usize`.
fn required_balance_count(c: &Config) -> (r: Option<usize>)
    ensures
        match r {
            Some(n) => n == flatten_assets(balance_lists(*c)).len(),
            None => flatten_assets(balance_lists(*c)).len() > usize::MAX,
        },
{
    let ghost l = balance_lists(*c);
    let n = c.required_solana_balances.len();
    let mut total: usize = 0;
    let mut p: usize = 0;
    while p < n
        invariant
            p <= n,
            n == l.len(),
            l == balance_lists(*c),
            total == flatten_assets(l.subrange(0, p as int)).len(),
        decreases n - p,
    {
        proof {
            lemma_flatten_prefix(l, p as int);
            assert(l[p as int].1.len() == c.required_solana_balances@[p as int].1@.len());
        }
        match total.checked_add(c.required_solana_balances[p].1.len()) {
            Some(t) => {
                total = t;
            },
            None => {
                proof {
                    lemma_flatten_prefix(l, p as int + 1);
                }
                return None;
            },
        }
        p += 1;
    }
    proof {
        assert(l.subrange(0, n as int) =~= l);
    }
    Some(total)
}

/// The assets whose decimals are required: balance assets, then total supply assets.
fn collect_decimal_assets(c: &Config) -> (r: Vec<String>)
    ensures
        strs(r@) == decimal_assets(*c),
{
    let ghost l = balance_lists(*c);
    let mut out: Vec<String> = Vec::new();
    let n = c.required_solana_balances.len();
    let mut p: usize = 0;
    while p < n
        invariant
            p <= n,
            n == l.len(),
            l == balance_lists(*c),
            strs(out@) == flatten_assets(l.subrange(0, p as int)),
        decreases n - p,
    {
        let assets = &c.required_solana_balances[p].1;
        let ghost start = strs(out@);
        let mut a: usize = 0;
        while a < assets.len()
            invariant
                a <= assets@.len(),
                strs(out@) == start + strs(assets@).subrange(0, a as int),
            decreases assets@.len() - a,
        {
            let ghost prev = out@;
            out.push(assets[a].clone());
            proof {
                assert(strs(out@) =~= strs(prev).push(assets@[a as int]@));
                assert(strs(out@) =~= start + strs(assets@).subrange(0, a + 1));
            }
            a += 1;
        }
        proof {
            lemma_flatten_prefix(l, p as int);
            assert(l[p as int].1 =~= strs(assets@));
            assert(strs(assets@).subrange(0, assets@.len() as int) =~= strs(assets@));
        }
        p += 1;
    }
    proof {
        assert(l.subrange(0, n as int) =~= l);
    }
    let supply = &c.required_solana_token_total_supply;
    let ghost start = strs(out@);
    let mut k: usize = 0;
    while k < supply.len()
        invariant
            k <= supply@.len(),
            strs(out@) == start + strs(supply@).subrange(0, k as int),
        decreases supply@.len() - k,
    {
        let ghost prev = out@;
        out.push(supply[k].clone());
        proof {
            assert(strs(out@) =~= strs(prev).push(supply@[k as int]@));
            assert(strs(out@) =~= start + strs(supply@).subrange(0, k + 1));
        }
        k += 1;
    }
    proof {
        assert(strs(supply@).subrange(0, supply@.len() as int) =~= strs(supply@));
    }
    out
}

/// The number of distinct strings.
fn distinct_count(v: &Vec<String>) -> (r: usize)
    ensures
        r == strs(v@).to_set().len(),
{
    let mut uniq: Vec<String> = Vec::new();
    let mut k: usize = 0;
    while k < v.len()
        invariant
            k <= v@.len(),
            strs(uniq@).no_duplicates(),
            strs(uniq@).to_set() == strs(v@).subrange(0, k as int).to_set(),
            uniq@.len() <= k,
        decreases v@.len() - k,
    {
        let ghost pre = strs(v@).subrange(0, k as int);
        proof {
            assert(strs(v@).subrange(0, k + 1) =~= pre.push(v@[k as int]@));
            pre.lemma_push_to_set_commute(v@[k as int]@);
        }
        if !contains_str(&uniq, &v[k]) {
            let ghost u = strs(uniq@);
            uniq.push(v[k].clone());
            proof {
                assert(strs(uniq@) =~= u.push(v@[k as int]@));
                u.lemma_push_to_set_commute(v@[k as int]@);
            }
        } else {
            proof {
                assert(strs(uniq@).to_set().contains(v@[k as int]@));
                assert(pre.push(v@[k as int]@).to_set() =~= pre.to_set());
            }
        }
        k += 1;
    }
    proof {
        assert(strs(v@).subrange(0, v@.len() as int) =~= strs(v@));
        strs(uniq@).unique_seq_to_set();
    }
    uniq.len()
}

/// Whether some balance is for the given address and asset.
fn find_balance(b: &Vec<SolanaBalance>, address: &String, asset: &String) -> (r: bool)
    ensures
        r == has_balance_for(views(b@), address@, asset@),
{
    let ghost bv = views(b@);
    let mut k: usize = 0;
    while k < b.len()
        invariant
            k <= b@.len(),
            bv == views(b@),
            forall|m: int| 0 <= m < k ==> !((#[trigger] bv[m]).address == address@ && bv[m].asset == asset@),
        decreases b@.len() - k,
    {
        proof {
            assert(bv[k as int] == b@[k as int]@);
        }
        if str_eq(&b[k].address, address) && str_eq(&b[k].asset, asset) {
            return true;
        }
        k += 1;
    }
    false
}

/// Whether every required (address, asset) pair has a balance.
fn all_balances_present(b: &Vec<SolanaBalance>, config: &Config) -> (r: bool)
    ensures
        r == balances_present(views(b@), balance_lists(*config)),
{
    let ghost l = balance_lists(*config);
    let req = &config.required_solana_balances;
    let mut i: usize = 0;
    while i < req.len()
        invariant
            i <= req@.len(),
            l == balance_lists(*config),
            req == &config.required_solana_balances,
            forall|x: int, y: int|
                0 <= x < i && 0 <= y < l[x].1.len() ==> #[trigger] has_balance_for(views(b@), l[x].0, l[x].1[y]),
        decreases req@.len() - i,
    {
        let pair = &req[i];
        proof {
            assert(l[i as int] == (pair.0@, strs(pair.1@)));
        }
        let mut j: usize = 0;
        while j < pair.1.len()
            invariant
                i < req@.len(),
                req == &config.required_solana_balances,
                j <= pair.1@.len(),
                l == balance_lists(*config),
                l[i as int] == (pair.0@, strs(pair.1@)),
                forall|x: int, y: int|
                    0 <= x < i && 0 <= y < l[x].1.len() ==> #[trigger] has_balance_for(views(b@), l[x].0, l[x].1[y]),
                forall|y: int| 0 <= y < j ==> #[trigger] has_balance_for(views(b@), l[i as int].0, l[i as int].1[y]),
            decreases pair.1@.len() - j,
        {
            if !find_balance(b, &pair.0, &pair.1[j]) {
                proof {
                    assert(l[i as int].1[j as int] == pair.1@[j as int]@);
                    assert(!has_balance_for(views(b@), l[i as int].0, l[i as int].1[j as int]));
                    assert(l.len() == req@.len());
                    if balances_present(views(b@), l) {
                        assert(has_balance_for(views(b@), l[i as int].0, l[i as int].1[j as int]));
                    }
                }
                return false;
            }
            proof {
                assert(l[i as int].1[j as int] == pair.1@[j as int]@);
            }
            j += 1;
        }
        i += 1;
    }
    true
}

/// Whether every required token has a total supply.
fn all_supplies_present(s: &Vec<SolanaTokenTotalSupply>, req: &Vec<String>) -> (r: bool)
    ensures
        r == supplies_present(views(s@), strs(req@)),
{
    let ghost sv = views(s@);
    let mut i: usize = 0;
    while i < req.len()
        invariant
            i <= req@.len(),
            sv == views(s@),
            forall|x: int| 0 <= x < i ==> #[trigger] has_supply_for(sv, strs(req@)[x]),
        decreases req@.len() - i,
    {
        let mut k: usize = 0;
        let mut found = false;
        while k < s.len() && !found
            invariant
                i < req@.len(),
                k <= s@.len(),
                sv == views(s@),
                found ==> has_supply_for(sv, req@[i as int]@),
                !found ==> forall|m: int| 0 <= m < k ==> (#[trigger] sv[m]).asset != req@[i as int]@,
            decreases s@.len() - k + (if found { 0int } else { 1int }),
        {
            proof {
                assert(sv[k as int] == s@[k as int]@);
            }
            if str_eq(&s[k].asset, &req[i]) {
                found = true;
            } else {
                k += 1;
            }
        }
        proof {
            assert(strs(req@)[i as int] == req@[i as int]@);
        }
        if !found {
            proof {
                if supplies_present(sv, strs(req@)) {
                    assert(has_supply_for(sv, strs(req@)[i as int]));
                }
            }
            return false;
        }
        i += 1;
    }
    true
}

impl SolanaData {
    /// Cleans the data for the configuration and checks that all required entries
    /// are present (see `cleanup_solana`).
    pub fn cleanup(&mut self, config: &Config) -> (r: Result<(), ConsensusError>)
        ensures
            match cleanup_solana(old(self)@, *config) {
                Ok(c) => r is Ok && final(self)@ == c,
                Err(m) => r matches Err(ConsensusError::PrepublishError { msg }) && msg@ == m,
            },
    {
        let ghost d = self@;
        let mut custody: Vec<CustodyAsset> = Vec::new();
        core::mem::swap(&mut custody, &mut self.custody_assets);
        let custody = retain_custody(custody, &config.required_custody_assets);
        let custody = sort_records(custody);
        let custody = dedup_records(custody);
        if custody.len() != config.required_custody_assets.len() {
            return Err(
                ConsensusError::PrepublishError {
                    msg: String::from_str("Provided solana custody assets don't match required ones"),
                },
            );
        }
        let mut balances: Vec<SolanaBalance> = Vec::new();
        core::mem::swap(&mut balances, &mut self.solana_balances);
        let balances = retain_balances(balances, config);
        let balances = sort_records(balances);
        let count = required_balance_count(config);
        let nb = balances.len();
        let balances_ok = match count {
            Some(n) => nb == n && all_balances_present(&balances, config),
            None => false,
        };
        if !balances_ok {
            proof {
                assert(views(balances@).len() == balances@.len());
                assert(views(custody@).len() == custody@.len());
                assert(cleanup_solana(d, *config) == Err::<SolanaDataView, Seq<char>>(balances_mismatch()));
            }
            return Err(
                ConsensusError::PrepublishError {
                    msg: String::from_str("Provided solana balances don't match required ones"),
                },
            );
        }
        let mut supplies: Vec<SolanaTokenTotalSupply> = Vec::new();
        core::mem::swap(&mut supplies, &mut self.solana_token_total_supply);
        let supplies = retain_supplies(supplies, &config.required_solana_token_total_supply);
        let supplies = sort_records(supplies);
        if supplies.len() != config.required_solana_token_total_supply.len() || !all_supplies_present(
            &supplies,
            &config.required_solana_token_total_supply,
        ) {
            return Err(
                ConsensusError::PrepublishError {
                    msg: String::from_str(
                        "Provided solana token total supplies don't match required ones",
                    ),
                },
            );
        }
        let required = collect_decimal_assets(config);
        let mut decimals: Vec<SolanaTokenDecimals> = Vec::new();
        core::mem::swap(&mut decimals, &mut self.solana_token_decimals);
        let decimals = retain_decimals(decimals, &required);
        if decimals.len() != distinct_count(&required) {
            return Err(
                ConsensusError::PrepublishError {
                    msg: String::from_str("Provided solana token decimals don't match required ones"),
                },
            );
        }
        self.custody_assets = custody;
        self.solana_balances = balances;
        self.solana_token_total_supply = supplies;
        self.solana_token_decimals = decimals;
        Ok(())
    }
}

} // verus!
