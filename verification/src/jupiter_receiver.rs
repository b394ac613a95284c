use crate::consensus::{config_check, publish_post, publish_safe, Config as ConsensusConfig, ConsensusError, PublishResult, Round, State};
use crate::receiver::{aum_response_from_uwbtc, GetAumResponse, WBTC_DECIMALS};
use crate::decimal::{fits_i256, lemma_parts_roundtrip, parts_of, trunc_div_by, Int256Parts, wide_checked_div, wide_from_atomics, pow10, spec_from_atomics, trunc_div, trunc_div_signed, unit, SignedDecimal256};
use crate::jupiter::{
    config_issue, reports_issue, AumInWBTC, Config, ContractError, PriceTicker, SolanaBalanceView, SolanaData,
    SolanaDataView, SolanaTokenDecimals, SolanaTokenDecimalsView, SolanaTokenTotalSupply,
    SolanaTokenTotalSupplyView, UpdateConfig,
};
use crate::sequences::{contains_str, strs, views};
use vstd::prelude::*;
use vstd::string::StringExecFns;

verus! {

/// The stored AUM, refused when none was stored or when the validity period has
/// passed at time `now`.
pub fn query_get_aum(aum: Option<AumInWBTC>, consensus_data_valid_period: u64, now: u64) -> (r: Result<
    GetAumResponse,
    ContractError,
>)
    requires
        aum matches Some(a) ==> a.timestamp + consensus_data_valid_period <= u64::MAX,
    ensures
        match aum {
            None => r == Err::<GetAumResponse, ContractError>(ContractError::NoDataPublished {}),
            Some(a) => if now > a.timestamp + consensus_data_valid_period {
                r == Err::<GetAumResponse, ContractError>(ContractError::PublishedDataTooOld {})
            } else {
                r == Ok::<GetAumResponse, ContractError>(
                    GetAumResponse { aum_in_wbtc: a.amount, decimals: WBTC_DECIMALS },
                )
            },
        },
{
    let a = match aum {
        None => {
            return Err(ContractError::NoDataPublished {});
        },
        Some(a) => a,
    };
    if now > a.timestamp + consensus_data_valid_period {
        return Err(ContractError::PublishedDataTooOld {});
    }
    Ok(aum_response_from_uwbtc(a.amount))
}

/// The contract configuration after an update: each field that is given replaces
/// the stored one.
pub open spec fn updated_config(c: Config, u: UpdateConfig) -> Config {
    Config {
        consensus_data_valid_period: match u.consensus_data_valid_period {
            Some(x) => x,
            None => c.consensus_data_valid_period,
        },
        price_data_valid_period: match u.price_data_valid_period {
            Some(x) => x,
            None => c.price_data_valid_period,
        },
        required_custody_assets: match u.required_custody_assets {
            Some(x) => x,
            None => c.required_custody_assets,
        },
        required_solana_balances: match u.required_solana_balances {
            Some(x) => x,
            None => c.required_solana_balances,
        },
        required_solana_token_total_supply: match u.required_solana_token_total_supply {
            Some(x) => x,
            None => c.required_solana_token_total_supply,
        },
        solana_slinky_map: match u.solana_slinky_map {
            Some(x) => x,
            None => c.solana_slinky_map,
        },
    }
}

/// The consensus configuration after an update.
pub open spec fn updated_consensus_config(c: ConsensusConfig, u: UpdateConfig) -> ConsensusConfig {
    ConsensusConfig {
        messengers: match u.messengers {
            Some(x) => x,
            None => c.messengers,
        },
        threshold: match u.threshold {
            Some(x) => x,
            None => c.threshold,
        },
        data_delta_ppm: match u.data_delta_ppm {
            Some(x) => x,
            None => c.data_delta_ppm,
        },
        round_length: match u.round_length {
            Some(x) => x,
            None => c.round_length,
        },
    }
}

/// The owner updates both configurations; the contract configuration is validated
/// first, then the consensus configuration.
pub fn execute_update_config(
    config: Config,
    consensus_config: ConsensusConfig,
    sender_is_owner: bool,
    new_config: UpdateConfig,
) -> (r: Result<(Config, ConsensusConfig), ContractError>)
    ensures
        !sender_is_owner ==> (r matches Err(e) && e is Ownable),
        sender_is_owner ==> match config_issue(updated_config(config, new_config)) {
            Some(i) => r matches Err(e) && reports_issue(e, i),
            None => match config_check(updated_consensus_config(consensus_config, new_config)) {
                Ok(()) => r == Ok::<(Config, ConsensusConfig), ContractError>(
                    (updated_config(config, new_config), updated_consensus_config(consensus_config, new_config)),
                ),
                Err(e) => r == Err::<(Config, ConsensusConfig), ContractError>(ContractError::ConsensusError(e)),
            },
        },
{
    if !sender_is_owner {
        return Err(ContractError::Ownable { msg: String::from_str("Caller is not the contract's current owner") });
    }
    let UpdateConfig {
        consensus_data_valid_period,
        price_data_valid_period,
        required_custody_assets,
        required_solana_balances,
        required_solana_token_total_supply,
        solana_slinky_map,
        messengers,
        threshold,
        data_delta_ppm,
        round_length,
    } = new_config;
    let mut c = config;
    if let Some(x) = consensus_data_valid_period {
        c.consensus_data_valid_period = x;
    }
    if let Some(x) = price_data_valid_period {
        c.price_data_valid_period = x;
    }
    if let Some(x) = required_custody_assets {
        c.required_custody_assets = x;
    }
    if let Some(x) = required_solana_balances {
        c.required_solana_balances = x;
    }
    if let Some(x) = required_solana_token_total_supply {
        c.required_solana_token_total_supply = x;
    }
    if let Some(x) = solana_slinky_map {
        c.solana_slinky_map = x;
    }
    match c.validate() {
        Ok(()) => {},
        Err(e) => {
            return Err(e);
        },
    }
    let mut cc = consensus_config;
    if let Some(x) = messengers {
        cc.messengers = x;
    }
    if let Some(x) = threshold {
        cc.threshold = x;
    }
    if let Some(x) = data_delta_ppm {
        cc.data_delta_ppm = x;
    }
    if let Some(x) = round_length {
        cc.round_length = x;
    }
    match cc.validate() {
        Ok(()) => {},
        Err(e) => {
            return Err(ContractError::ConsensusError(e));
        },
    }
    Ok((c, cc))
}

/// The total supply of the first entry for `asset`.
pub open spec fn first_supply(s: Seq<SolanaTokenTotalSupplyView>, asset: Seq<char>) -> Option<u128>
    decreases s.len(),
{
    if s.len() == 0 {
        None
    } else if s[0].asset == asset {
        Some(s[0].total_supply)
    } else {
        first_supply(s.drop_first(), asset)
    }
}

/// The decimals of the first entry for `asset`.
pub open spec fn first_decimals(d: Seq<SolanaTokenDecimalsView>, asset: Seq<char>) -> Option<u8>
    decreases d.len(),
{
    if d.len() == 0 {
        None
    } else if d[0].asset == asset {
        Some(d[0].decimals)
    } else {
        first_decimals(d.drop_first(), asset)
    }
}

/// The decimals of the last entry for `asset`: a map filled from the list keeps
/// the last one.
pub open spec fn last_decimals(d: Seq<SolanaTokenDecimalsView>, asset: Seq<char>) -> Option<u8>
    decreases d.len(),
{
    if d.len() == 0 {
        None
    } else if d.last().asset == asset {
        Some(d.last().decimals)
    } else {
        last_decimals(d.drop_last(), asset)
    }
}

/// The total supply of the first entry for `asset`.
fn find_first_supply(s: &Vec<SolanaTokenTotalSupply>, asset: &String) -> (r: Option<u128>)
    ensures
        r == first_supply(views(s@), asset@),
{
    let ghost v = views(s@);
    proof {
        assert(v.subrange(0, v.len() as int) =~= v);
    }
    let mut i: usize = 0;
    while i < s.len()
        invariant
            i <= s@.len(),
            v == views(s@),
            v.len() == s@.len(),
            first_supply(v, asset@) == first_supply(v.subrange(i as int, v.len() as int), asset@),
        decreases s@.len() - i,
    {
        let ghost rest = v.subrange(i as int, v.len() as int);
        proof {
            assert(rest[0] == s@[i as int]@);
        }
        if crate::strings::str_eq(&s[i].asset, asset) {
            return Some(s[i].total_supply);
        }
        proof {
            assert(rest.drop_first() =~= v.subrange(i + 1, v.len() as int));
        }
        i += 1;
    }
    None
}

/// The decimals of the first entry for `asset`.
fn find_first_decimals(d: &Vec<SolanaTokenDecimals>, asset: &String) -> (r: Option<u8>)
    ensures
        r == first_decimals(views(d@), asset@),
{
    let ghost v = views(d@);
    proof {
        assert(v.subrange(0, v.len() as int) =~= v);
    }
    let mut i: usize = 0;
    while i < d.len()
        invariant
            i <= d@.len(),
            v == views(d@),
            v.len() == d@.len(),
            first_decimals(v, asset@) == first_decimals(v.subrange(i as int, v.len() as int), asset@),
        decreases d@.len() - i,
    {
        let ghost rest = v.subrange(i as int, v.len() as int);
        proof {
            assert(rest[0] == d@[i as int]@);
        }
        if crate::strings::str_eq(&d[i].asset, asset) {
            return Some(d[i].decimals);
        }
        proof {
            assert(rest.drop_first() =~= v.subrange(i + 1, v.len() as int));
        }
        i += 1;
    }
    None
}

/// The decimals of the last entry for `asset`.
fn find_last_decimals(d: &Vec<SolanaTokenDecimals>, asset: &String) -> (r: Option<u8>)
    ensures
        r == last_decimals(views(d@), asset@),
{
    let ghost v = views(d@);
    proof {
        assert(v.subrange(0, v.len() as int) =~= v);
    }
    let mut i: usize = d.len();
    while i > 0
        invariant
            i <= d@.len(),
            v == views(d@),
            v.len() == d@.len(),
            last_decimals(v, asset@) == last_decimals(v.subrange(0, i as int), asset@),
        decreases i,
    {
        let ghost front = v.subrange(0, i as int);
        proof {
            assert(front.last() == d@[i - 1]@);
        }
        if crate::strings::str_eq(&d[i - 1].asset, asset) {
            return Some(d[i - 1].decimals);
        }
        proof {
            assert(front.drop_last() =~= v.subrange(0, i - 1));
        }
        i -= 1;
    }
    None
}

/// Why the JLP price cannot be computed.
pub enum JlpIssue {
    SupplyMissing,
    DecimalsMissing,
    Range,
    Division,
}

/// The error that reports a JLP price issue.
pub open spec fn reports_jlp(e: ContractError, i: JlpIssue) -> bool {
    match i {
        JlpIssue::SupplyMissing => e matches ContractError::CrucialConsensusDataMissing { details } && details@
            == "JLP total supply"@,
        JlpIssue::DecimalsMissing => e matches ContractError::CrucialConsensusDataMissing { details } && details@
            == "JLP decimals"@,
        JlpIssue::Range => e is DecimalRangeError,
        JlpIssue::Division => e is CheckedDiv,
    }
}

/// The virtual price of JLP in USD: the pool's AUM in USD over the JLP total
/// supply, both as signed 256-bit decimals.
pub open spec fn jlp_price(data: SolanaDataView, jlp: Seq<char>) -> Result<int, JlpIssue> {
    match first_supply(data.solana_token_total_supply, jlp) {
        None => Err(JlpIssue::SupplyMissing),
        Some(supply) => match first_decimals(data.solana_token_decimals, jlp) {
            None => Err(JlpIssue::DecimalsMissing),
            Some(dec) => {
                let aum = spec_from_atomics(data.aum_usd as int, 0);
                let total = spec_from_atomics(supply as int, dec as nat);
                let price = trunc_div_signed(aum * unit(), total);
                if !fits_i256(aum) || !fits_i256(total) {
                    Err(JlpIssue::Range)
                } else if total == 0 || !fits_i256(price) {
                    Err(JlpIssue::Division)
                } else {
                    Ok(price)
                }
            },
        },
    }
}

/// The JLP price in USD from the agreed data.
pub fn get_jlp_price_in_usd(data: &SolanaData, jlp_token: &String) -> (r: Result<SignedDecimal256, ContractError>)
    ensures
        match jlp_price(data@, jlp_token@) {
            Ok(p) => r matches Ok(x) && x.value() == p,
            Err(i) => r matches Err(e) && reports_jlp(e, i),
        },
{
    let supply = match find_first_supply(&data.solana_token_total_supply, jlp_token) {
        None => {
            return Err(ContractError::CrucialConsensusDataMissing { details: String::from_str("JLP total supply") });
        },
        Some(s) => s,
    };
    let dec = match find_first_decimals(&data.solana_token_decimals, jlp_token) {
        None => {
            return Err(ContractError::CrucialConsensusDataMissing { details: String::from_str("JLP decimals") });
        },
        Some(d) => d,
    };
    let aum_usd = match wide_from_atomics(data.aum_usd, 0) {
        None => {
            return Err(ContractError::DecimalRangeError {});
        },
        Some(a) => a,
    };
    let total = match wide_from_atomics(supply, dec as u32) {
        None => {
            return Err(ContractError::DecimalRangeError {});
        },
        Some(t) => t,
    };
    let price = match wide_checked_div(aum_usd, total) {
        None => {
            return Err(ContractError::CheckedDiv {});
        },
        Some(p) => p,
    };
    Ok(SignedDecimal256 { atomics: price })
}

/// Why the BTC price of an asset cannot be computed.
pub enum PricingIssue {
    /// the oracle price could not be had
    Fetch(ContractError),
    Jlp(JlpIssue),
    /// the USD price over the BTC price leaves the decimal range
    Division,
}

/// The error that reports a pricing issue.
pub open spec fn reports_pricing(e: ContractError, i: PricingIssue) -> bool {
    match i {
        PricingIssue::Fetch(f) => e == f,
        PricingIssue::Jlp(j) => reports_jlp(e, j),
        PricingIssue::Division => e is CheckedDiv,
    }
}

/// The BTC price of one asset of the price map: the USD price (the oracle's, given
/// as `fetched`, or the JLP virtual price) over the BTC price in USD.
pub open spec fn entry_price(
    asset: Seq<char>,
    ticker: PriceTicker,
    data: SolanaDataView,
    btc: SignedDecimal256,
    fetched: Result<SignedDecimal256, ContractError>,
) -> Result<int, PricingIssue> {
    let usd: Result<int, PricingIssue> = match ticker {
        PriceTicker::Slinky { .. } => match fetched {
            Ok(p) => Ok(p.value()),
            Err(e) => Err(PricingIssue::Fetch(e)),
        },
        PriceTicker::Jlp => match jlp_price(data, asset) {
            Ok(p) => Ok(p),
            Err(j) => Err(PricingIssue::Jlp(j)),
        },
    };
    match usd {
        Err(i) => Err(i),
        Ok(p) => if btc.value() == 0 || !fits_i256(trunc_div_signed(p * unit(), btc.value())) {
            Err(PricingIssue::Division)
        } else {
            Ok(trunc_div_signed(p * unit(), btc.value()))
        },
    }
}

/// The BTC price of entry `i` of the price map.
pub open spec fn map_entry_price(
    map: Seq<(String, PriceTicker)>,
    data: SolanaDataView,
    btc: SignedDecimal256,
    fetched: Seq<Result<SignedDecimal256, ContractError>>,
    i: int,
) -> Result<int, PricingIssue> {
    entry_price(map[i].0@, map[i].1, data, btc, fetched[i])
}

/// The BTC prices of the first `k` entries of the price map, named by asset; the
/// first entry whose price fails decides the issue.
pub open spec fn btc_prices(
    map: Seq<(String, PriceTicker)>,
    data: SolanaDataView,
    btc: SignedDecimal256,
    fetched: Seq<Result<SignedDecimal256, ContractError>>,
    k: int,
) -> Result<Seq<(Seq<char>, SignedDecimal256)>, PricingIssue>
    decreases k,
{
    if k <= 0 {
        Ok(Seq::empty())
    } else {
        match btc_prices(map, data, btc, fetched, k - 1) {
            Err(i) => Err(i),
            Ok(s) => match map_entry_price(map, data, btc, fetched, k - 1) {
                Err(i) => Err(i),
                Ok(p) => Ok(s.push((map[k - 1].0@, SignedDecimal256 { atomics: parts_of(p) }))),
            },
        }
    }
}

/// A list of prices seen by asset name.
pub open spec fn price_views(p: Seq<(String, SignedDecimal256)>) -> Seq<(Seq<char>, SignedDecimal256)> {
    p.map_values(|x: (String, SignedDecimal256)| (x.0@, x.1))
}

/// Once the prices fail, every longer list fails the same way.
proof fn lemma_prices_error_stays(
    map: Seq<(String, PriceTicker)>,
    data: SolanaDataView,
    btc: SignedDecimal256,
    fetched: Seq<Result<SignedDecimal256, ContractError>>,
    k: int,
    j: int,
)
    requires
        0 <= k <= j,
        btc_prices(map, data, btc, fetched, k) is Err,
    ensures
        btc_prices(map, data, btc, fetched, j) == btc_prices(map, data, btc, fetched, k),
    decreases j - k,
{
    if j > k {
        lemma_prices_error_stays(map, data, btc, fetched, k, j - 1);
    }
}

/// The BTC prices of the assets of the price map, in its order. `fetched` holds,
/// for each entry priced by the oracle, what the oracle query gave (any value for
/// the other entries).
pub fn prices_in_btc(
    map: &Vec<(String, PriceTicker)>,
    data: &SolanaData,
    btc_price_in_usd: SignedDecimal256,
    fetched: Vec<Result<SignedDecimal256, ContractError>>,
) -> (r: Result<Vec<(String, SignedDecimal256)>, ContractError>)
    requires
        fetched@.len() == map@.len(),
    ensures
        match btc_prices(map@, data@, btc_price_in_usd, fetched@, map@.len() as int) {
            Ok(s) => r matches Ok(v) && price_views(v@) == s,
            Err(i) => r matches Err(e) && reports_pricing(e, i),
        },
{
    let ghost fs = fetched@;
    let mut out: Vec<(String, SignedDecimal256)> = Vec::new();
    proof {
        assert(price_views(out@) =~= Seq::<(Seq<char>, SignedDecimal256)>::empty());
    }
    let mut i: usize = 0;
    while i < map.len()
        invariant
            i <= map@.len(),
            fs == fetched@,
            fetched@.len() == map@.len(),
            btc_prices(map@, data@, btc_price_in_usd, fs, i as int) == Ok::<
                Seq<(Seq<char>, SignedDecimal256)>,
                PricingIssue,
            >(price_views(out@)),
        decreases map@.len() - i,
    {
        let usd = match &map[i].1 {
            PriceTicker::Slinky { .. } => match &fetched[i] {
                Ok(p) => *p,
                Err(_) => {
                    proof {
                        lemma_prices_error_stays(map@, data@, btc_price_in_usd, fs, i + 1, map@.len() as int);
                    }
                    let mut rest = fetched;
                    let taken = rest.remove(i);
                    return match taken {
                        Err(e) => Err(e),
                        Ok(_) => {
                            proof {
                                assert(false);
                            }
                            Err(ContractError::CheckedDiv {})
                        },
                    };
                },
            },
            PriceTicker::Jlp => match get_jlp_price_in_usd(data, &map[i].0) {
                Ok(p) => p,
                Err(e) => {
                    proof {
                        lemma_prices_error_stays(map@, data@, btc_price_in_usd, fs, i + 1, map@.len() as int);
                    }
                    return Err(e);
                },
            },
        };
        let price = match usd.checked_div(btc_price_in_usd) {
            Some(p) => p,
            None => {
                proof {
                    lemma_prices_error_stays(map@, data@, btc_price_in_usd, fs, i + 1, map@.len() as int);
                }
                return Err(ContractError::CheckedDiv {});
            },
        };
        let name = map[i].0.clone();
        let ghost before = out@;
        out.push((name, price));
        proof {
            lemma_parts_roundtrip(price.atomics);
            assert(price_views(out@) =~= price_views(before).push((map@[i as int].0@, price)));
        }
        i += 1;
    }
    Ok(out)
}

/// The BTC price of `asset` in a list of prices: the last entry for it, as a map
/// filled from the list keeps.
pub open spec fn last_price(p: Seq<(Seq<char>, SignedDecimal256)>, asset: Seq<char>) -> Option<SignedDecimal256>
    decreases p.len(),
{
    if p.len() == 0 {
        None
    } else if p.last().0 == asset {
        Some(p.last().1)
    } else {
        last_price(p.drop_last(), asset)
    }
}

/// The BTC price of the last entry for `asset`.
fn find_last_price(p: &Vec<(String, SignedDecimal256)>, asset: &String) -> (r: Option<SignedDecimal256>)
    ensures
        r == last_price(price_views(p@), asset@),
{
    let ghost v = price_views(p@);
    proof {
        assert(v.subrange(0, v.len() as int) =~= v);
    }
    let mut i: usize = p.len();
    while i > 0
        invariant
            i <= p@.len(),
            v == price_views(p@),
            v.len() == p@.len(),
            last_price(v, asset@) == last_price(v.subrange(0, i as int), asset@),
        decreases i,
    {
        let ghost front = v.subrange(0, i as int);
        if crate::strings::str_eq(&p[i - 1].0, asset) {
            return Some(p[i - 1].1);
        }
        proof {
            assert(front.drop_last() =~= v.subrange(0, i - 1));
        }
        i -= 1;
    }
    None
}

/// The uwBTC value of a balance: its amount as a decimal of `dec` places times
/// the BTC price, cut to 8 decimal places; `Err(2)` when the amount leaves the
/// decimal range, `Err(3)` when the product does.
pub open spec fn balance_in_uwbtc(price: SignedDecimal256, amount: u128, dec: u8) -> Result<int, int> {
    let a = spec_from_atomics(amount as int, dec as nat);
    if !fits_i256(a) {
        Err(2)
    } else if !fits_i256(trunc_div(price.value() * a, unit())) {
        Err(3)
    } else {
        Ok(trunc_div(trunc_div(price.value() * a, unit()), pow10(10)))
    }
}

/// The AUM in uwBTC of the first `k` balances; an error names its kind (a missing
/// price, missing decimals, a range or an overflow) and the asset of the balance.
pub open spec fn aum_upto(
    prices: Seq<(Seq<char>, SignedDecimal256)>,
    decs: Seq<SolanaTokenDecimalsView>,
    bals: Seq<SolanaBalanceView>,
    k: int,
) -> Result<int, (int, Seq<char>)>
    decreases k,
{
    if k <= 0 {
        Ok(0)
    } else {
        match aum_upto(prices, decs, bals, k - 1) {
            Err(x) => Err(x),
            Ok(acc) => {
                let b = bals[k - 1];
                match last_price(prices, b.asset) {
                    None => Err((0, b.asset)),
                    Some(p) => match last_decimals(decs, b.asset) {
                        None => Err((1, b.asset)),
                        Some(d) => match balance_in_uwbtc(p, b.amount, d) {
                            Err(kind) => Err((kind, b.asset)),
                            Ok(v) => if fits_i256(acc + v) {
                                Ok(acc + v)
                            } else {
                                Err((3, b.asset))
                            },
                        },
                    },
                }
            },
        }
    }
}

/// Once the sum fails, every longer sum fails the same way.
proof fn lemma_aum_error_stays(
    prices: Seq<(Seq<char>, SignedDecimal256)>,
    decs: Seq<SolanaTokenDecimalsView>,
    bals: Seq<SolanaBalanceView>,
    k: int,
    j: int,
)
    requires
        0 <= k <= j,
        aum_upto(prices, decs, bals, k) is Err,
    ensures
        aum_upto(prices, decs, bals, j) == aum_upto(prices, decs, bals, k),
    decreases j - k,
{
    if j > k {
        lemma_aum_error_stays(prices, decs, bals, k, j - 1);
    }
}

/// The error that reports an AUM issue.
pub open spec fn reports_aum(e: ContractError, issue: (int, Seq<char>)) -> bool {
    ||| issue.0 == 0 && (e matches ContractError::CrucialConsensusDataMissing { details } && details@ == issue.1
        + " price"@)
    ||| issue.0 == 1 && (e matches ContractError::CrucialConsensusDataMissing { details } && details@ == issue.1
        + " decimals"@)
    ||| issue.0 == 2 && e is DecimalRangeError
    ||| issue.0 == 3 && e is OverflowError
}

/// The AUM in uwBTC of the agreed data: the sum over its balances of each amount
/// times the asset's BTC price.
pub fn calculate_aum_in_wbtc(prices_in_btc: &Vec<(String, SignedDecimal256)>, data: &SolanaData) -> (r: Result<
    Int256Parts,
    ContractError,
>)
    ensures
        match aum_upto(price_views(prices_in_btc@), data@.solana_token_decimals, data@.solana_balances, data@.solana_balances.len() as int) {
            Ok(v) => r matches Ok(x) && x.value() == v,
            Err(issue) => r matches Err(e) && reports_aum(e, issue),
        },
{
    let ghost bals = data@.solana_balances;
    let ghost decs = data@.solana_token_decimals;
    let mut acc = Int256Parts::zero();
    let mut i: usize = 0;
    while i < data.solana_balances.len()
        invariant
            i <= data.solana_balances@.len(),
            bals == data@.solana_balances,
            decs == data@.solana_token_decimals,
            bals.len() == data.solana_balances@.len(),
            aum_upto(price_views(prices_in_btc@), decs, bals, i as int) == Ok::<int, (int, Seq<char>)>(acc.value()),
        decreases data.solana_balances@.len() - i,
    {
        let sb = &data.solana_balances[i];
        proof {
            assert(bals[i as int] == sb@);
        }
        let price = match find_last_price(prices_in_btc, &sb.asset) {
            None => {
                proof {
                    lemma_aum_error_stays(price_views(prices_in_btc@), decs, bals, i as int + 1, bals.len() as int);
                }
                return Err(ContractError::CrucialConsensusDataMissing { details: sb.asset.clone().concat(" price") });
            },
            Some(p) => p,
        };
        let dec = match find_last_decimals(&data.solana_token_decimals, &sb.asset) {
            None => {
                proof {
                    lemma_aum_error_stays(price_views(prices_in_btc@), decs, bals, i as int + 1, bals.len() as int);
                }
                return Err(ContractError::CrucialConsensusDataMissing { details: sb.asset.clone().concat(" decimals") });
            },
            Some(d) => d,
        };
        let amount = match SignedDecimal256::from_atomics(sb.amount, dec as u32) {
            None => {
                proof {
                    lemma_aum_error_stays(price_views(prices_in_btc@), decs, bals, i as int + 1, bals.len() as int);
                }
                return Err(ContractError::DecimalRangeError {});
            },
            Some(a) => a,
        };
        let product = match price.checked_mul(amount) {
            None => {
                proof {
                    lemma_aum_error_stays(price_views(prices_in_btc@), decs, bals, i as int + 1, bals.len() as int);
                }
                return Err(ContractError::OverflowError {});
            },
            Some(m) => m,
        };
        let v = trunc_div_by(product.atomics, 10_000_000_000);
        proof {
            assert(pow10(10) == 10_000_000_000) by {
                reveal_with_fuel(pow10, 11);
            }
        }
        acc = match acc.checked_add(v) {
            None => {
                proof {
                    lemma_aum_error_stays(price_views(prices_in_btc@), decs, bals, i as int + 1, bals.len() as int);
                }
                return Err(ContractError::OverflowError {});
            },
            Some(x) => x,
        };
        i += 1;
    }
    Ok(acc)
}

/// The consensus result inside a result of the receiver.
pub open spec fn consensus_result(r: Result<(PublishResult<SolanaData>, Round), ContractError>) -> Result<
    (PublishResult<SolanaData>, Round),
    ConsensusError,
> {
    match r {
        Ok(x) => Ok(x),
        Err(ContractError::ConsensusError(e)) => Err(e),
        Err(_) => Err(ConsensusError::Std { msg: arbitrary() }),
    }
}

/// A messenger of the consensus configuration publishes Solana data at time `now`;
/// the data is cleaned against the contract configuration and joins the round.
pub fn execute_publish_data(
    state: &mut State<SolanaData, Config>,
    config: Config,
    now: u64,
    sender: String,
    new_data: SolanaData,
) -> (r: Result<(PublishResult<SolanaData>, Round), ContractError>)
    requires
        old(state).wf(),
        publish_safe::<SolanaData, Config>(*old(state), now, sender@, new_data@, config),
    ensures
        final(state).wf(),
        !strs(old(state).config.messengers@).contains(sender@) ==> r == Err::<
            (PublishResult<SolanaData>, Round),
            ContractError,
        >(ContractError::Unauthorized {}) && *final(state) == *old(state),
        strs(old(state).config.messengers@).contains(sender@) ==> (r is Ok || (r matches Err(e) && e is ConsensusError))
            && publish_post::<SolanaData, Config>(
            *old(state),
            *final(state),
            now,
            sender@,
            new_data@,
            config,
            consensus_result(r),
        ),
{
    if !contains_str(&state.config.messengers, &sender) {
        return Err(ContractError::Unauthorized {});
    }
    match state.publish_data(now, sender, new_data, config) {
        Ok(x) => Ok(x),
        Err(e) => Err(ContractError::ConsensusError(e)),
    }
}

/// The AUM in uwBTC of agreed data: the BTC prices of the price map's assets, then
/// the sum over the balances at those prices.
pub fn calculate_aum(
    map: &Vec<(String, PriceTicker)>,
    data: &SolanaData,
    btc_price_in_usd: SignedDecimal256,
    fetched: Vec<Result<SignedDecimal256, ContractError>>,
) -> (r: Result<Int256Parts, ContractError>)
    requires
        fetched@.len() == map@.len(),
    ensures
        match btc_prices(map@, data@, btc_price_in_usd, fetched@, map@.len() as int) {
            Err(i) => r matches Err(e) && reports_pricing(e, i),
            Ok(pv) => match aum_upto(pv, data@.solana_token_decimals, data@.solana_balances, data@.solana_balances.len() as int) {
                Ok(v) => r matches Ok(x) && x.value() == v,
                Err(issue) => r matches Err(e) && reports_aum(e, issue),
            },
        },
{
    let prices = match prices_in_btc(map, data, btc_price_in_usd, fetched) {
        Ok(p) => p,
        Err(e) => {
            return Err(e);
        },
    };
    calculate_aum_in_wbtc(&prices, data)
}

/// Whether a character is a decimal digit.
pub open spec fn is_digit(c: char) -> bool {
    '0' <= c <= '9'
}

/// The number that a string of decimal digits stands for.
pub open spec fn digits_value(s: Seq<char>) -> int
    decreases s.len(),
{
    if s.len() == 0 {
        0
    } else {
        digits_value(s.drop_last()) * 10 + (s.last() as int - '0' as int)
    }
}

/// What a string denotes as an unsigned 128-bit integer: an optional `+`, then one
/// or more decimal digits whose value fits in 128 bits.
pub open spec fn parsed_u128(s: Seq<char>) -> Option<int> {
    let d = if s.len() > 0 && s[0] == '+' {
        s.drop_first()
    } else {
        s
    };
    if d.len() > 0 && (forall|i: int| 0 <= i < d.len() ==> is_digit(#[trigger] d[i])) && digits_value(d)
        <= u128::MAX {
        Some(digits_value(d))
    } else {
        None
    }
}

/// `Uint128::from_str`, which parses with `u128::from_str`: the number that an
/// optional `+` and one or more decimal digits stand for, an error for any other
/// string or a number beyond 128 bits. The text of the error is not stated.
#[verifier::external_body]
fn parse_uint128(s: &String) -> (r: Result<u128, String>)
    ensures
        match r {
            Ok(v) => parsed_u128(s@) == Some(v as int),
            Err(_) => parsed_u128(s@) is None,
        },
{
    match <cosmwasm_std::Uint128 as std::str::FromStr>::from_str(s) {
        Ok(v) => Ok(v.u128()),
        Err(e) => Err(e.to_string()),
    }
}

/// The USD price of `base` from an oracle quote (its price text and block height)
/// given in `decimals` places, refused when missing, older than the validity period
/// at block `height`, not a number, or out of the decimal range.
pub fn check_slinky_price(
    base: &String,
    quote: Option<(String, u64)>,
    decimals: u64,
    price_data_valid_period: u64,
    height: u64,
) -> (r: Result<SignedDecimal256, ContractError>)
    requires
        quote matches Some(q) ==> q.1 + price_data_valid_period <= u64::MAX,
    ensures
        match quote {
            None => r matches Err(e) && (e matches ContractError::SlinkyAssetPriceMissing { asset } && asset@
                == base@),
            Some((p, h)) => if h + price_data_valid_period < height {
                r matches Err(e) && (e matches ContractError::SlinkyAssetPriceTooOld { asset, price_height } && asset@
                    == base@ && price_height == h)
            } else {
                match parsed_u128(p@) {
                    None => r matches Err(e) && (e matches ContractError::SlinkyAssetPriceIncorrect { asset, price, .. }
                        && asset@ == base@ && price@ == p@),
                    Some(v) => if fits_i256(spec_from_atomics(v, (decimals as u32) as nat)) {
                        r matches Ok(x) && x.value() == spec_from_atomics(v, (decimals as u32) as nat)
                    } else {
                        r matches Err(e) && (e matches ContractError::DecimalError { error } && error@
                            == "SignedDecimal256 range exceeded"@)
                    },
                }
            },
        },
{
    let (price, block_height) = match quote {
        None => {
            return Err(ContractError::SlinkyAssetPriceMissing { asset: base.clone() });
        },
        Some(q) => q,
    };
    if block_height + price_data_valid_period < height {
        return Err(ContractError::SlinkyAssetPriceTooOld { asset: base.clone(), price_height: block_height });
    }
    let value = match parse_uint128(&price) {
        Ok(v) => v,
        Err(error) => {
            return Err(ContractError::SlinkyAssetPriceIncorrect { asset: base.clone(), price, error });
        },
    };
    match SignedDecimal256::from_atomics(value, decimals as u32) {
        Some(x) => Ok(x),
        None => Err(ContractError::DecimalError { error: String::from_str("SignedDecimal256 range exceeded") }),
    }
}

/// The configuration that a migration builds: the periods and custody assets of
/// the stored configuration, with the Solana requirements and price map given to
/// the migration; it must be valid.
pub fn migrated_config(
    consensus_data_valid_period: u64,
    required_custody_assets: Vec<String>,
    price_data_valid_period: u64,
    required_solana_balances: Vec<(String, Vec<String>)>,
    required_solana_token_total_supply: Vec<String>,
    solana_slinky_map: Vec<(String, PriceTicker)>,
) -> (r: Result<Config, ContractError>)
    ensures
        ({
            let c = Config {
                consensus_data_valid_period,
                price_data_valid_period,
                required_custody_assets,
                required_solana_balances,
                required_solana_token_total_supply,
                solana_slinky_map,
            };
            match config_issue(c) {
                None => r == Ok::<Config, ContractError>(c),
                Some(i) => r matches Err(e) && reports_issue(e, i),
            }
        }),
{
    let config = Config {
        consensus_data_valid_period,
        price_data_valid_period,
        required_custody_assets,
        required_solana_balances,
        required_solana_token_total_supply,
        solana_slinky_map,
    };
    match config.validate() {
        Ok(()) => Ok(config),
        Err(e) => Err(e),
    }
}

/// A migration drops the submissions of the pending round: they were cleaned
/// against the previous configuration.
pub fn clear_pending(state: &mut State<SolanaData, Config>)
    requires
        old(state).wf(),
    ensures
        final(state).wf(),
        final(state).pending_messengers@.len() == 0,
        final(state).pending_values@.len() == 0,
        final(state).round_submitters@.len() == 0,
        final(state).pending_round == old(state).pending_round,
        final(state).config == old(state).config,
        final(state).pending_config == old(state).pending_config,
        final(state).last_published_data == old(state).last_published_data,
{
    state.pending_messengers = Vec::new();
    state.pending_values = Vec::new();
    state.round_submitters = Vec::new();
}

/// The query that a Slinky price oracle contract answers: the price of one asset.
#[derive(Clone, Debug, PartialEq)]
pub enum SlinkyQueryMsg {
    GetPrice { asset: String },
}

/// The AUM of a prefix of balances does not depend on the balances after it.
proof fn lemma_aum_upto_prefix(
    prices: Seq<(Seq<char>, SignedDecimal256)>,
    decs: Seq<SolanaTokenDecimalsView>,
    bals: Seq<SolanaBalanceView>,
    b: SolanaBalanceView,
    k: int,
)
    requires
        0 <= k <= bals.len(),
    ensures
        aum_upto(prices, decs, bals.push(b), k) == aum_upto(prices, decs, bals, k),
    decreases k,
{
    if k > 0 {
        lemma_aum_upto_prefix(prices, decs, bals, b, k - 1);
        assert(bals.push(b)[k - 1] == bals[k - 1]);
    }
}

/// Law: the AUM in uwBTC adds up every balance: with no balances it is zero, and a
/// further balance of an asset with BTC price `p` and `dec` decimals adds exactly
/// its own value `trunc(trunc(p * amount / 10^18) / 10^10)` (amount scaled to 18
/// decimals), as long as the values stay in the decimal range.
pub proof fn lemma_aum_adds_each_balance(
    prices: Seq<(Seq<char>, SignedDecimal256)>,
    decs: Seq<SolanaTokenDecimalsView>,
    bals: Seq<SolanaBalanceView>,
    b: SolanaBalanceView,
    p: SignedDecimal256,
    dec: u8,
    before: int,
)
    requires
        aum_upto(prices, decs, bals, bals.len() as int) == Ok::<int, (int, Seq<char>)>(before),
        last_price(prices, b.asset) == Some(p),
        last_decimals(decs, b.asset) == Some(dec),
        fits_i256(spec_from_atomics(b.amount as int, dec as nat)),
        fits_i256(trunc_div(p.value() * spec_from_atomics(b.amount as int, dec as nat), unit())),
        fits_i256(before + trunc_div(trunc_div(p.value() * spec_from_atomics(b.amount as int, dec as nat), unit()), 10_000_000_000)),
    ensures
        aum_upto(prices, decs, Seq::<SolanaBalanceView>::empty(), 0) == Ok::<int, (int, Seq<char>)>(0),
        aum_upto(prices, decs, bals.push(b), bals.len() + 1int) == Ok::<int, (int, Seq<char>)>(
            before + trunc_div(trunc_div(p.value() * spec_from_atomics(b.amount as int, dec as nat), unit()), 10_000_000_000),
        ),
{
    lemma_aum_upto_prefix(prices, decs, bals, b, bals.len() as int);
    assert(bals.push(b)[bals.len() as int] == b);
    assert(pow10(10) == 10_000_000_000) by {
        reveal_with_fuel(pow10, 11);
    }
}

} // verus!
