use crate::consensus::ConsensusError;
use crate::decimal::Int256Parts;
use crate::sequences::{contains_str, duplicate_all, find_duplicate, first_duplicate, strs, views, Duplicate, Keyed};
use crate::strings::{bytes_lt, concat_bytes, lemma_seq_lt_total, lemma_utf8_injective, seq_lt, str_eq, str_lt, utf8};
use vstd::prelude::*;

verus! {

/// Errors of the Jupiter AUM contracts.
#[derive(Clone, Debug, PartialEq)]
pub enum ContractError {
    Std { msg: String },
    ConsensusError(ConsensusError),
    Ownable { msg: String },
    Unauthorized {},
    InvalidConsensusPeriod {},
    InvalidPriceDataPeriod {},
    DuplicateCustodyAsset { asset: String },
    DuplicateSolanaBalanceAsset { address: String, asset: String },
    DuplicateSolanaBalanceAddress { address: String },
    DuplicateSolanaTokenTotalSupply { asset: String },
    DuplicatePriceTicker { ticker: String },
    JlpTotalSupplyNotTracked {},
    AssetNotInSlinkyMap { asset: String },
    JlpTokenInSlinkyMap {},
    CrucialConsensusDataMissing { details: String },
    NoDataPublished {},
    PublishedDataTooOld {},
    AlreadyPublished {},
    DecimalError { error: String },
    SlinkyAssetPriceMissing { asset: String },
    SlinkyAssetPriceIncorrect { asset: String, price: String, error: String },
    SlinkyAssetPriceTooOld { asset: String, price_height: u64 },
    DecimalRangeError {},
    CheckedDiv {},
    OverflowError {},
}

/// Where the price of a Solana asset comes from.
#[derive(Clone, Debug, PartialEq)]
pub enum PriceTicker {
    /// the USD price of this Slinky asset
    Slinky { asset: String },
    /// the virtual price of JLP: AUM in USD over the JLP total supply
    Jlp,
}

/// The contract's configuration.
#[derive(Clone, Debug, PartialEq)]
pub struct Config {
    /// how long (in seconds) agreed data stays valid
    pub consensus_data_valid_period: u64,
    /// how many blocks an oracle price stays valid
    pub price_data_valid_period: u64,
    /// custody asset denoms required for consensus
    pub required_custody_assets: Vec<String>,
    /// Solana addresses with the assets whose balances are required, one entry per address
    pub required_solana_balances: Vec<(String, Vec<String>)>,
    /// Solana tokens whose total supply is required
    pub required_solana_token_total_supply: Vec<String>,
    /// Solana asset names with the source of their prices, one entry per asset
    pub solana_slinky_map: Vec<(String, PriceTicker)>,
}

/// A Jupiter asset under custody in the JLP pool.
#[derive(Clone, Debug, PartialEq)]
pub struct CustodyAsset {
    /// amount of tokens in u<DENOM>
    pub owned: u64,
    /// amount of tokens locked by traders in u<DENOM>
    pub locked: u64,
    /// total size estimate of the long positions
    pub guaranteed_usd: u64,
    /// decimals of the amounts above
    pub decimals: u8,
    /// custody denom
    pub denom: String,
}

/// The balance of one asset on one Solana account.
#[derive(Clone, Debug, PartialEq)]
pub struct SolanaBalance {
    pub address: String,
    pub asset: String,
    pub amount: u128,
}

/// The total supply of a Solana token.
#[derive(Clone, Debug, PartialEq)]
pub struct SolanaTokenTotalSupply {
    pub asset: String,
    pub total_supply: u128,
}

/// The decimals of a Solana token.
#[derive(Clone, Debug, PartialEq)]
pub struct SolanaTokenDecimals {
    pub asset: String,
    pub decimals: u8,
}

/// Data pulled from Solana for the Jupiter AUM calculation.
#[derive(Clone, Debug, PartialEq)]
pub struct SolanaData {
    pub custody_assets: Vec<CustodyAsset>,
    /// Jupiter's assets under management in USD
    pub aum_usd: u128,
    pub solana_balances: Vec<SolanaBalance>,
    pub solana_token_total_supply: Vec<SolanaTokenTotalSupply>,
    pub solana_token_decimals: Vec<SolanaTokenDecimals>,
}

/// The AUM in uWBTC with the time it was computed for.
#[derive(Clone, Copy, Debug, PartialEq, Eq, Structural)]
pub struct AumInWBTC {
    pub amount: Int256Parts,
    pub timestamp: u64,
}

/// Changes to the configuration; every field is optional.
#[derive(Clone, Debug, PartialEq)]
pub struct UpdateConfig {
    pub consensus_data_valid_period: Option<u64>,
    pub price_data_valid_period: Option<u64>,
    pub required_custody_assets: Option<Vec<String>>,
    pub required_solana_balances: Option<Vec<(String, Vec<String>)>>,
    pub required_solana_token_total_supply: Option<Vec<String>>,
    pub solana_slinky_map: Option<Vec<(String, PriceTicker)>>,
    pub messengers: Option<Vec<String>>,
    pub threshold: Option<u32>,
    pub data_delta_ppm: Option<u64>,
    pub round_length: Option<u64>,
}

/// The contract needs no data for a migration.
#[derive(Clone, Copy, Debug, PartialEq, Eq, Structural)]
pub struct MigrateMsg {}

pub struct CustodyAssetView {
    pub owned: u64,
    pub locked: u64,
    pub guaranteed_usd: u64,
    pub decimals: u8,
    pub denom: Seq<char>,
}

pub struct SolanaBalanceView {
    pub address: Seq<char>,
    pub asset: Seq<char>,
    pub amount: u128,
}

pub struct SolanaTokenTotalSupplyView {
    pub asset: Seq<char>,
    pub total_supply: u128,
}

pub struct SolanaTokenDecimalsView {
    pub asset: Seq<char>,
    pub decimals: u8,
}

pub struct SolanaDataView {
    pub custody_assets: Seq<CustodyAssetView>,
    pub aum_usd: u128,
    pub solana_balances: Seq<SolanaBalanceView>,
    pub solana_token_total_supply: Seq<SolanaTokenTotalSupplyView>,
    pub solana_token_decimals: Seq<SolanaTokenDecimalsView>,
}

impl View for CustodyAsset {
    type V = CustodyAssetView;

    open spec fn view(&self) -> CustodyAssetView {
        CustodyAssetView {
            owned: self.owned,
            locked: self.locked,
            guaranteed_usd: self.guaranteed_usd,
            decimals: self.decimals,
            denom: self.denom@,
        }
    }
}

impl View for SolanaBalance {
    type V = SolanaBalanceView;

    open spec fn view(&self) -> SolanaBalanceView {
        SolanaBalanceView { address: self.address@, asset: self.asset@, amount: self.amount }
    }
}

impl View for SolanaTokenTotalSupply {
    type V = SolanaTokenTotalSupplyView;

    open spec fn view(&self) -> SolanaTokenTotalSupplyView {
        SolanaTokenTotalSupplyView { asset: self.asset@, total_supply: self.total_supply }
    }
}

impl View for SolanaTokenDecimals {
    type V = SolanaTokenDecimalsView;

    open spec fn view(&self) -> SolanaTokenDecimalsView {
        SolanaTokenDecimalsView { asset: self.asset@, decimals: self.decimals }
    }
}

impl View for SolanaData {
    type V = SolanaDataView;

    open spec fn view(&self) -> SolanaDataView {
        SolanaDataView {
            custody_assets: views(self.custody_assets@),
            aum_usd: self.aum_usd,
            solana_balances: views(self.solana_balances@),
            solana_token_total_supply: views(self.solana_token_total_supply@),
            solana_token_decimals: views(self.solana_token_decimals@),
        }
    }
}

/// Equal keys from the negation of both strict comparisons.
proof fn lemma_key_eq_from_lt(a: Seq<u8>, b: Seq<u8>)
    ensures
        (a == b) == (!seq_lt(a, b) && !seq_lt(b, a)),
{
    lemma_seq_lt_total(a, b);
    crate::strings::lemma_seq_lt_irrefl(a);
}

impl Keyed for CustodyAsset {
    open spec fn key(v: CustodyAssetView) -> Seq<u8> {
        utf8(v.denom)
    }

    fn key_lt(&self, other: &Self) -> (r: bool) {
        str_lt(self.denom.as_str(), other.denom.as_str())
    }

    fn key_eq(&self, other: &Self) -> (r: bool) {
        proof {
            lemma_utf8_injective(self.denom@, other.denom@);
        }
        str_eq(&self.denom, &other.denom)
    }
}

impl Keyed for SolanaBalance {
    /// The bytes of the address followed by those of the asset.
    open spec fn key(v: SolanaBalanceView) -> Seq<u8> {
        utf8(v.address) + utf8(v.asset)
    }

    fn key_lt(&self, other: &Self) -> (r: bool) {
        let a = concat_bytes(self.address.as_str(), self.asset.as_str());
        let b = concat_bytes(other.address.as_str(), other.asset.as_str());
        bytes_lt(a.as_slice(), b.as_slice())
    }

    fn key_eq(&self, other: &Self) -> (r: bool) {
        let a = concat_bytes(self.address.as_str(), self.asset.as_str());
        let b = concat_bytes(other.address.as_str(), other.asset.as_str());
        proof {
            lemma_key_eq_from_lt(a@, b@);
        }
        !bytes_lt(a.as_slice(), b.as_slice()) && !bytes_lt(b.as_slice(), a.as_slice())
    }
}

impl Keyed for SolanaTokenTotalSupply {
    open spec fn key(v: SolanaTokenTotalSupplyView) -> Seq<u8> {
        utf8(v.asset)
    }

    fn key_lt(&self, other: &Self) -> (r: bool) {
        str_lt(self.asset.as_str(), other.asset.as_str())
    }

    fn key_eq(&self, other: &Self) -> (r: bool) {
        proof {
            lemma_utf8_injective(self.asset@, other.asset@);
        }
        str_eq(&self.asset, &other.asset)
    }
}

/// The required balances: each address with its asset names.
pub open spec fn balance_lists(c: Config) -> Seq<(Seq<char>, Seq<Seq<char>>)> {
    c.required_solana_balances@.map_values(|p: (String, Vec<String>)| (p.0@, strs(p.1@)))
}

/// The first address whose assets hold a duplicate, with that duplicate.
pub open spec fn first_balance_duplicate(l: Seq<(Seq<char>, Seq<Seq<char>>)>) -> Option<
    (Seq<char>, Seq<char>),
>
    decreases l.len(),
{
    if l.len() == 0 {
        None
    } else {
        match first_balance_duplicate(l.drop_last()) {
            Some(x) => Some(x),
            None => match first_duplicate(l.last().1) {
                Some(d) => Some((l.last().0, d)),
                None => None,
            },
        }
    }
}

/// All required balance assets, address by address.
pub open spec fn flatten_assets(l: Seq<(Seq<char>, Seq<Seq<char>>)>) -> Seq<Seq<char>>
    decreases l.len(),
{
    if l.len() == 0 {
        Seq::empty()
    } else {
        flatten_assets(l.drop_last()) + l.last().1
    }
}

/// The asset names of price sources.
pub open spec fn ticker_keys(m: Seq<(String, PriceTicker)>) -> Seq<Seq<char>> {
    m.map_values(|p: (String, PriceTicker)| p.0@)
}

/// The assets that have a price source.
pub open spec fn slinky_keys(c: Config) -> Seq<Seq<char>> {
    ticker_keys(c.solana_slinky_map@)
}

/// The first string of `s` that is not among `keys`.
pub open spec fn first_missing(s: Seq<Seq<char>>, keys: Seq<Seq<char>>) -> Option<Seq<char>>
    decreases s.len(),
{
    if s.len() == 0 {
        None
    } else {
        match first_missing(s.drop_last(), keys) {
            Some(x) => Some(x),
            None => if keys.contains(s.last()) {
                None
            } else {
                Some(s.last())
            },
        }
    }
}

/// Some asset priced as JLP has no total supply tracked.
pub open spec fn jlp_supply_untracked(c: Config) -> bool {
    exists|i: int|
        0 <= i < c.solana_slinky_map@.len() && (#[trigger] c.solana_slinky_map@[i]).1 is Jlp
            && !strs(c.required_solana_token_total_supply@).contains(c.solana_slinky_map@[i].0@)
}

/// What is wrong with a configuration.
pub enum ConfigIssue {
    InvalidConsensusPeriod,
    InvalidPriceDataPeriod,
    DuplicateCustodyAsset(Seq<char>),
    DuplicateSolanaBalanceAsset(Seq<char>, Seq<char>),
    DuplicateSolanaTokenTotalSupply(Seq<char>),
    AssetNotInSlinkyMap(Seq<char>),
    JlpTotalSupplyNotTracked,
    DuplicateSolanaBalanceAddress(Seq<char>),
    DuplicatePriceTicker(Seq<char>),
}

/// The addresses of the required balances.
pub open spec fn balance_addresses(c: Config) -> Seq<Seq<char>> {
    c.required_solana_balances@.map_values(|p: (String, Vec<String>)| p.0@)
}

/// Both maps of the configuration hold each key once: an address of the required
/// balances, an asset of the price sources.
pub open spec fn keys_unique(c: Config) -> bool {
    &&& first_duplicate(balance_addresses(c)) is None
    &&& first_duplicate(slinky_keys(c)) is None
}

/// The first issue of a configuration, in the order the checks are made.
pub open spec fn config_issue(c: Config) -> Option<ConfigIssue> {
    if c.consensus_data_valid_period == 0 {
        Some(ConfigIssue::InvalidConsensusPeriod)
    } else if c.price_data_valid_period == 0 {
        Some(ConfigIssue::InvalidPriceDataPeriod)
    } else if let Some(d) = first_duplicate(strs(c.required_custody_assets@)) {
        Some(ConfigIssue::DuplicateCustodyAsset(d))
    } else if let Some((a, d)) = first_balance_duplicate(balance_lists(c)) {
        Some(ConfigIssue::DuplicateSolanaBalanceAsset(a, d))
    } else if let Some(d) = first_duplicate(strs(c.required_solana_token_total_supply@)) {
        Some(ConfigIssue::DuplicateSolanaTokenTotalSupply(d))
    } else if let Some(m) = first_missing(flatten_assets(balance_lists(c)), slinky_keys(c)) {
        Some(ConfigIssue::AssetNotInSlinkyMap(m))
    } else if jlp_supply_untracked(c) {
        Some(ConfigIssue::JlpTotalSupplyNotTracked)
    } else if let Some(a) = first_duplicate(balance_addresses(c)) {
        Some(ConfigIssue::DuplicateSolanaBalanceAddress(a))
    } else if let Some(k) = first_duplicate(slinky_keys(c)) {
        Some(ConfigIssue::DuplicatePriceTicker(k))
    } else {
        None
    }
}

/// The error that reports an issue.
pub open spec fn reports_issue(e: ContractError, i: ConfigIssue) -> bool {
    match i {
        ConfigIssue::InvalidConsensusPeriod => e is InvalidConsensusPeriod,
        ConfigIssue::InvalidPriceDataPeriod => e is InvalidPriceDataPeriod,
        ConfigIssue::DuplicateCustodyAsset(d) => e matches ContractError::DuplicateCustodyAsset {
            asset,
        } && asset@ == d,
        ConfigIssue::DuplicateSolanaBalanceAsset(a, d) => e matches ContractError::DuplicateSolanaBalanceAsset {
            address,
            asset,
        } && address@ == a && asset@ == d,
        ConfigIssue::DuplicateSolanaTokenTotalSupply(d) => e matches ContractError::DuplicateSolanaTokenTotalSupply {
            asset,
        } && asset@ == d,
        ConfigIssue::AssetNotInSlinkyMap(m) => e matches ContractError::AssetNotInSlinkyMap {
            asset,
        } && asset@ == m,
        ConfigIssue::JlpTotalSupplyNotTracked => e is JlpTotalSupplyNotTracked,
        ConfigIssue::DuplicateSolanaBalanceAddress(a) => e matches ContractError::DuplicateSolanaBalanceAddress {
            address,
        } && address@ == a,
        ConfigIssue::DuplicatePriceTicker(k) => e matches ContractError::DuplicatePriceTicker {
            ticker,
        } && ticker@ == k,
    }
}

/// Whether an asset has a price source.
fn has_price_source(map: &Vec<(String, PriceTicker)>, asset: &String) -> (r: bool)
    ensures
        r == ticker_keys(map@).contains(asset@),
{
    let ghost keys = ticker_keys(map@);
    let mut i: usize = 0;
    while i < map.len()
        invariant
            i <= map@.len(),
            keys == ticker_keys(map@),
            forall|k: int| 0 <= k < i ==> keys[k] != asset@,
        decreases map@.len() - i,
    {
        if str_eq(&map[i].0, asset) {
            proof {
                assert(keys[i as int] == asset@);
            }
            return true;
        }
        i += 1;
    }
    false
}

impl Config {
    /// Validates the configuration: nonzero validity periods, no duplicate custody
    /// assets, balance assets (per address) or total supplies, a price source for
    /// every balance asset, and a tracked total supply for every asset priced as JLP;
    /// each address of the required balances and each asset of the price sources
    /// stands once (the lists stand for maps keyed by them).
    pub fn validate(&self) -> (r: Result<(), ContractError>)
        ensures
            match config_issue(*self) {
                None => r is Ok,
                Some(i) => r matches Err(e) && reports_issue(e, i),
            },
            r is Ok ==> keys_unique(*self),
    {
        if self.consensus_data_valid_period == 0 {
            return Err(ContractError::InvalidConsensusPeriod {});
        }
        if self.price_data_valid_period == 0 {
            return Err(ContractError::InvalidPriceDataPeriod {});
        }
        match find_duplicate(self.required_custody_assets.as_slice()) {
            Some(d) => {
                return Err(ContractError::DuplicateCustodyAsset { asset: d.clone() });
            },
            None => {},
        }
        let ghost l = balance_lists(*self);
        let nb = self.required_solana_balances.len();
        let mut p: usize = 0;
        while p < nb
            invariant
                p <= nb,
                nb == self.required_solana_balances@.len(),
                l == balance_lists(*self),
                self.consensus_data_valid_period != 0,
                self.price_data_valid_period != 0,
                first_duplicate(strs(self.required_custody_assets@)) is None,
                first_balance_duplicate(l.subrange(0, p as int)) is None,
            decreases nb - p,
        {
            let pair = &self.required_solana_balances[p];
            proof {
                let t = l.subrange(0, p + 1);
                assert(t.drop_last() =~= l.subrange(0, p as int));
                assert(t.last() == l[p as int]);
                assert(l[p as int].1 =~= strs(pair.1@));
            }
            match find_duplicate(pair.1.as_slice()) {
                Some(d) => {
                    proof {
                        let t = l.subrange(0, p + 1);
                        assert(first_duplicate(t.last().1) == Some(d@));
                        assert(first_balance_duplicate(t) == Some((pair.0@, d@)));
                        lemma_first_balance_duplicate_prefix(l, p as int + 1);
                        assert(first_balance_duplicate(l) == Some((pair.0@, d@)));
                    }
                    return Err(
                        ContractError::DuplicateSolanaBalanceAsset {
                            address: pair.0.clone(),
                            asset: d.clone(),
                        },
                    );
                },
                None => {},
            }
            p += 1;
        }
        proof {
            assert(l.subrange(0, nb as int) =~= l);
        }
        match find_duplicate(self.required_solana_token_total_supply.as_slice()) {
            Some(d) => {
                return Err(ContractError::DuplicateSolanaTokenTotalSupply { asset: d.clone() });
            },
            None => {},
        }
        let ghost keys = slinky_keys(*self);
        let mut p: usize = 0;
        while p < nb
            invariant
                p <= nb,
                nb == self.required_solana_balances@.len(),
                l == balance_lists(*self),
                keys == slinky_keys(*self),
                self.consensus_data_valid_period != 0,
                self.price_data_valid_period != 0,
                first_duplicate(strs(self.required_custody_assets@)) is None,
                first_balance_duplicate(l) is None,
                first_duplicate(strs(self.required_solana_token_total_supply@)) is None,
                first_missing(flatten_assets(l.subrange(0, p as int)), keys) is None,
            decreases nb - p,
        {
            let assets = &self.required_solana_balances[p].1;
            let ghost done = flatten_assets(l.subrange(0, p as int));
            let na = assets.len();
            let mut a: usize = 0;
            while a < na
                invariant
                    a <= na,
                    p < nb,
                    na == assets@.len(),
                    nb == self.required_solana_balances@.len(),
                    *assets == self.required_solana_balances@[p as int].1,
                    l == balance_lists(*self),
                    keys == slinky_keys(*self),
                    done == flatten_assets(l.subrange(0, p as int)),
                    self.consensus_data_valid_period != 0,
                    self.price_data_valid_period != 0,
                    first_duplicate(strs(self.required_custody_assets@)) is None,
                    first_balance_duplicate(l) is None,
                    first_duplicate(strs(self.required_solana_token_total_supply@)) is None,

                    first_missing(done + strs(assets@).subrange(0, a as int), keys) is None,
                decreases na - a,
            {
                let asset = &assets[a];
                let ghost cur = done + strs(assets@).subrange(0, a + 1);
                proof {
                    assert(cur.drop_last() =~= done + strs(assets@).subrange(0, a as int));
                    assert(cur.last() == asset@);
                }
                if !has_price_source(&self.solana_slinky_map, asset) {
                    proof {
                        assert(first_missing(cur, keys) == Some(asset@));
                        lemma_first_missing_prefix(
                            flatten_assets(l),
                            keys,
                            done.len() + a + 1,
                            l,
                            p as int,
                            strs(assets@),
                            a as int,
                        );
                    }
                    return Err(ContractError::AssetNotInSlinkyMap { asset: asset.clone() });
                }
                a += 1;
            }
            proof {
                let t = l.subrange(0, p + 1);
                assert(t.drop_last() =~= l.subrange(0, p as int));
                assert(t.last().1 =~= strs(assets@));
                assert(strs(assets@).subrange(0, na as int) =~= strs(assets@));
            }
            p += 1;
        }
        proof {
            assert(l.subrange(0, nb as int) =~= l);
        }
        let nm = self.solana_slinky_map.len();
        let mut k: usize = 0;
        while k < nm
            invariant
                k <= nm,
                nm == self.solana_slinky_map@.len(),
                l == balance_lists(*self),
                self.consensus_data_valid_period != 0,
                self.price_data_valid_period != 0,
                first_duplicate(strs(self.required_custody_assets@)) is None,
                first_balance_duplicate(l) is None,
                first_duplicate(strs(self.required_solana_token_total_supply@)) is None,
                first_missing(flatten_assets(balance_lists(*self)), slinky_keys(*self)) is None,
                forall|i: int|
                    0 <= i < k ==> (#[trigger] self.solana_slinky_map@[i]).1 is Jlp ==> strs(
                        self.required_solana_token_total_supply@,
                    ).contains(self.solana_slinky_map@[i].0@),
            decreases nm - k,
        {
            let entry = &self.solana_slinky_map[k];
            match &entry.1 {
                PriceTicker::Jlp => {
                    if !contains_str(&self.required_solana_token_total_supply, &entry.0) {
                        proof {
                            assert(self.solana_slinky_map@[k as int].1 is Jlp);
                            assert(jlp_supply_untracked(*self));
                        }
                        return Err(ContractError::JlpTotalSupplyNotTracked {});
                    }
                },
                PriceTicker::Slinky { .. } => {},
            }
            k += 1;
        }
        let mut addresses: Vec<String> = Vec::new();
        let mut p: usize = 0;
        while p < nb
            invariant
                p <= nb,
                nb == self.required_solana_balances@.len(),
                strs(addresses@) == balance_addresses(*self).subrange(0, p as int),
            decreases nb - p,
        {
            let ghost prev = addresses@;
            let a = self.required_solana_balances[p].0.clone();
            addresses.push(a);
            proof {
                assert(strs(addresses@) =~= strs(prev).push(self.required_solana_balances@[p as int].0@));
                assert(balance_addresses(*self)[p as int] == self.required_solana_balances@[p as int].0@);
                assert(strs(addresses@) =~= balance_addresses(*self).subrange(0, p + 1));
            }
            p += 1;
        }
        proof {
            assert(balance_addresses(*self).subrange(0, nb as int) =~= balance_addresses(*self));
        }
        match find_duplicate(addresses.as_slice()) {
            Some(d) => {
                return Err(ContractError::DuplicateSolanaBalanceAddress { address: d.clone() });
            },
            None => {},
        }
        let mut tickers: Vec<String> = Vec::new();
        let mut k: usize = 0;
        while k < nm
            invariant
                k <= nm,
                nm == self.solana_slinky_map@.len(),
                strs(tickers@) == slinky_keys(*self).subrange(0, k as int),
            decreases nm - k,
        {
            let ghost prev = tickers@;
            let t = self.solana_slinky_map[k].0.clone();
            tickers.push(t);
            proof {
                assert(strs(tickers@) =~= strs(prev).push(self.solana_slinky_map@[k as int].0@));
                assert(slinky_keys(*self)[k as int] == self.solana_slinky_map@[k as int].0@);
                assert(strs(tickers@) =~= slinky_keys(*self).subrange(0, k + 1));
            }
            k += 1;
        }
        proof {
            assert(slinky_keys(*self).subrange(0, nm as int) =~= slinky_keys(*self));
        }
        match find_duplicate(tickers.as_slice()) {
            Some(d) => {
                return Err(ContractError::DuplicatePriceTicker { ticker: d.clone() });
            },
            None => {},
        }
        Ok(())
    }
}

proof fn lemma_first_balance_duplicate_prefix(l: Seq<(Seq<char>, Seq<Seq<char>>)>, k: int)
    requires
        0 <= k <= l.len(),
        first_balance_duplicate(l.subrange(0, k)) is Some,
    ensures
        first_balance_duplicate(l) == first_balance_duplicate(l.subrange(0, k)),
    decreases l.len() - k,
{
    if k < l.len() {
        let t = l.subrange(0, k + 1);
        assert(t.drop_last() =~= l.subrange(0, k));
        lemma_first_balance_duplicate_prefix(l, k + 1);
    } else {
        assert(l.subrange(0, k) =~= l);
    }
}

/// `flatten_assets` of a prefix of addresses followed by a prefix of the next
/// address's assets is a prefix of the whole flattening.
pub proof fn lemma_flatten_prefix(l: Seq<(Seq<char>, Seq<Seq<char>>)>, p: int)
    requires
        0 <= p <= l.len(),
    ensures
        flatten_assets(l.subrange(0, p)) == flatten_assets(l).subrange(
            0,
            flatten_assets(l.subrange(0, p)).len() as int,
        ),
        flatten_assets(l.subrange(0, p)).len() <= flatten_assets(l).len(),
        p < l.len() ==> flatten_assets(l.subrange(0, p + 1)) == flatten_assets(l.subrange(0, p))
            + l[p].1,
    decreases l.len() - p,
{
    if p < l.len() {
        let t = l.subrange(0, p + 1);
        assert(t.drop_last() =~= l.subrange(0, p));
        lemma_flatten_prefix(l, p + 1);
        let a = flatten_assets(l.subrange(0, p));
        let b = flatten_assets(l.subrange(0, p + 1));
        assert(b == a + l[p].1);
        assert(a =~= b.subrange(0, a.len() as int));
        assert(a =~= flatten_assets(l).subrange(0, a.len() as int));
    } else {
        assert(l.subrange(0, p) =~= l);
        let f = flatten_assets(l);
        assert(f.subrange(0, f.len() as int) =~= f);
    }
}

/// A missing asset in a prefix of the flattening is the first missing one.
proof fn lemma_first_missing_prefix(
    s: Seq<Seq<char>>,
    keys: Seq<Seq<char>>,
    n: int,
    l: Seq<(Seq<char>, Seq<Seq<char>>)>,
    p: int,
    assets: Seq<Seq<char>>,
    a: int,
)
    requires
        s == flatten_assets(l),
        0 <= p < l.len(),
        assets == l[p].1,
        0 <= a < assets.len(),
        n == flatten_assets(l.subrange(0, p)).len() + a + 1,
        first_missing(flatten_assets(l.subrange(0, p)) + assets.subrange(0, a + 1), keys) is Some,
    ensures
        first_missing(s, keys) == first_missing(
            flatten_assets(l.subrange(0, p)) + assets.subrange(0, a + 1),
            keys,
        ),
{
    lemma_flatten_prefix(l, p);
    lemma_flatten_prefix(l, p + 1);
    let f = flatten_assets(l.subrange(0, p));
    let g = flatten_assets(l.subrange(0, p + 1));
    assert(f + assets.subrange(0, a + 1) =~= g.subrange(0, n));
    assert(g.subrange(0, n) =~= s.subrange(0, n));
    lemma_first_missing_extend(s, keys, n);
}

proof fn lemma_first_missing_extend(s: Seq<Seq<char>>, keys: Seq<Seq<char>>, k: int)
    requires
        0 <= k <= s.len(),
        first_missing(s.subrange(0, k), keys) is Some,
    ensures
        first_missing(s, keys) == first_missing(s.subrange(0, k), keys),
    decreases s.len() - k,
{
    if k < s.len() {
        let t = s.subrange(0, k + 1);
        assert(t.drop_last() =~= s.subrange(0, k));
        lemma_first_missing_extend(s, keys, k + 1);
    } else {
        assert(s.subrange(0, k) =~= s);
    }
}

impl Duplicate for CustodyAsset {
    fn duplicate(&self) -> (r: Self) {
        CustodyAsset {
            owned: self.owned,
            locked: self.locked,
            guaranteed_usd: self.guaranteed_usd,
            decimals: self.decimals,
            denom: self.denom.clone(),
        }
    }
}

impl Duplicate for SolanaBalance {
    fn duplicate(&self) -> (r: Self) {
        SolanaBalance { address: self.address.clone(), asset: self.asset.clone(), amount: self.amount }
    }
}

impl Duplicate for SolanaTokenTotalSupply {
    fn duplicate(&self) -> (r: Self) {
        SolanaTokenTotalSupply { asset: self.asset.clone(), total_supply: self.total_supply }
    }
}

impl Duplicate for SolanaTokenDecimals {
    fn duplicate(&self) -> (r: Self) {
        SolanaTokenDecimals { asset: self.asset.clone(), decimals: self.decimals }
    }
}

impl Duplicate for SolanaData {
    fn duplicate(&self) -> (r: Self) {
        SolanaData {
            custody_assets: duplicate_all(&self.custody_assets),
            aum_usd: self.aum_usd,
            solana_balances: duplicate_all(&self.solana_balances),
            solana_token_total_supply: duplicate_all(&self.solana_token_total_supply),
            solana_token_decimals: duplicate_all(&self.solana_token_decimals),
        }
    }
}

} // verus!
