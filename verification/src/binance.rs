use crate::consensus::{publish_post, publish_safe, Config as ConsensusConfig, ConsensusData, ConsensusError, PublishResult, Round, State};
use crate::decimal::{fits_i256, lemma_parts_roundtrip, parts_of, trunc_div, trunc_div_signed, unit, trunc_div_by, Int256Parts, SignedDecimal256};
use crate::items::{consensus_on_field, consensus_on_items_dec256, lemma_consensus_unanimous, spec_consensus, values};
use crate::sequences::{lemma_take_first, 
    contains_str, duplicate_all, lemma_filter_step, sort_by_key, sort_records, strs, views, Duplicate,
    Keyed,
};
use crate::strings::{lemma_utf8_injective, str_eq, str_lt, utf8};
use vstd::prelude::*;
use vstd::string::StringExecFns;

verus! {

/// Errors of the Binance AUM contracts.
#[derive(Clone, Debug, PartialEq)]
pub enum ContractError {
    Std { msg: String },
    InvalidPrice {},
    DecimalConversionError {},
    TooManyDecimals {},
    PriceAgeUnavailable { symbol: String, quote: String },
    PriceNotAvailable { symbol: String, quote: String },
    PriceIsNil { symbol: String, quote: String },
    TimestampIsNil { symbol: String, quote: String },
    PriceTooOld { symbol: String, quote: String, max_seconds: u64 },
    PublishedDataTooOld {},
    PriceIsNegative {},
    Unauthorized {},
    ConsensusError(ConsensusError),
    PriceOracleError { msg: String },
    Overflow {},
    CheckedDiv {},
}

/// The Binance contract's configuration.
#[derive(Clone, Debug, PartialEq)]
pub struct Config {
    /// owner of the contract
    pub owner: String,
    /// address of the price oracle contract
    pub price_oracle_contract: String,
    /// how many seconds agreed data stays valid
    pub consensus_data_valid_period: u64,
    /// how many blocks an oracle price stays valid
    pub price_data_valid_period: u64,
    /// positions the messengers must report
    pub required_binance_positions: Vec<String>,
    /// spot assets the messengers must report
    pub required_binance_spot_assets: Vec<String>,
}

/// A futures position.
#[derive(Clone, Debug, PartialEq)]
pub struct Position {
    pub symbol: String,
    pub amount: SignedDecimal256,
    pub pnl: SignedDecimal256,
}

/// A spot balance.
#[derive(Clone, Debug, PartialEq)]
pub struct SpotBalance {
    pub asset: String,
    pub amount: SignedDecimal256,
}

/// Account data reported from Binance.
#[derive(Clone, Debug, PartialEq)]
pub struct BinanceData {
    pub unimmr: SignedDecimal256,
    pub positions: Vec<Position>,
    pub um_balance_usdt: SignedDecimal256,
    pub spot_balances: Vec<SpotBalance>,
    pub pm_account_actual_equity: SignedDecimal256,
    pub withdrawable_usdt: SignedDecimal256,
}

pub struct PositionView {
    pub symbol: Seq<char>,
    pub amount: SignedDecimal256,
    pub pnl: SignedDecimal256,
}

pub struct SpotBalanceView {
    pub asset: Seq<char>,
    pub amount: SignedDecimal256,
}

pub struct BinanceDataView {
    pub unimmr: SignedDecimal256,
    pub positions: Seq<PositionView>,
    pub um_balance_usdt: SignedDecimal256,
    pub spot_balances: Seq<SpotBalanceView>,
    pub pm_account_actual_equity: SignedDecimal256,
    pub withdrawable_usdt: SignedDecimal256,
}

impl View for Position {
    type V = PositionView;

    open spec fn view(&self) -> PositionView {
        PositionView { symbol: self.symbol@, amount: self.amount, pnl: self.pnl }
    }
}

impl View for SpotBalance {
    type V = SpotBalanceView;

    open spec fn view(&self) -> SpotBalanceView {
        SpotBalanceView { asset: self.asset@, amount: self.amount }
    }
}

impl View for BinanceData {
    type V = BinanceDataView;

    open spec fn view(&self) -> BinanceDataView {
        BinanceDataView {
            unimmr: self.unimmr,
            positions: views(self.positions@),
            um_balance_usdt: self.um_balance_usdt,
            spot_balances: views(self.spot_balances@),
            pm_account_actual_equity: self.pm_account_actual_equity,
            withdrawable_usdt: self.withdrawable_usdt,
        }
    }
}

impl Keyed for Position {
    open spec fn key(v: PositionView) -> Seq<u8> {
        utf8(v.symbol)
    }

    fn key_lt(&self, other: &Self) -> (r: bool) {
        str_lt(self.symbol.as_str(), other.symbol.as_str())
    }

    fn key_eq(&self, other: &Self) -> (r: bool) {
        proof {
            lemma_utf8_injective(self.symbol@, other.symbol@);
        }
        str_eq(&self.symbol, &other.symbol)
    }
}

impl Keyed for SpotBalance {
    open spec fn key(v: SpotBalanceView) -> Seq<u8> {
        utf8(v.asset)
    }

    fn key_lt(&self, other: &Self) -> (r: bool) {
        str_lt(self.asset.as_str(), other.asset.as_str())
    }

    fn key_eq(&self, other: &Self) -> (r: bool) {
        proof {
            lemma_utf8_injective(self.asset@, other.asset@);
        }
        str_eq(&self.asset, &other.asset)
    }
}

impl Duplicate for Position {
    fn duplicate(&self) -> (r: Self) {
        Position { symbol: self.symbol.clone(), amount: self.amount, pnl: self.pnl }
    }
}

impl Duplicate for SpotBalance {
    fn duplicate(&self) -> (r: Self) {
        SpotBalance { asset: self.asset.clone(), amount: self.amount }
    }
}

impl Duplicate for BinanceData {
    fn duplicate(&self) -> (r: Self) {
        BinanceData {
            unimmr: self.unimmr,
            positions: duplicate_all(&self.positions),
            um_balance_usdt: self.um_balance_usdt,
            spot_balances: duplicate_all(&self.spot_balances),
            pm_account_actual_equity: self.pm_account_actual_equity,
            withdrawable_usdt: self.withdrawable_usdt,
        }
    }
}

/// The positions whose symbol is required.
pub open spec fn position_wanted(req: Seq<Seq<char>>) -> spec_fn(PositionView) -> bool {
    |p: PositionView| req.contains(p.symbol)
}

/// The spot balances whose asset is required.
pub open spec fn spot_wanted(req: Seq<Seq<char>>) -> spec_fn(SpotBalanceView) -> bool {
    |s: SpotBalanceView| req.contains(s.asset)
}

pub open spec fn positions_mismatch() -> Seq<char> {
    "Binance positions do not match required positions"@
}

pub open spec fn spots_mismatch() -> Seq<char> {
    "Binance spot assets do not match required spot assets"@
}

/// What cleaning Binance data gives: the required positions ordered by symbol and
/// the required spot balances ordered by asset, as many of each as are required;
/// otherwise the message of the error.
pub open spec fn clean_binance(d: BinanceDataView, req_positions: Seq<Seq<char>>, req_spots: Seq<Seq<char>>) -> Result<
    BinanceDataView,
    Seq<char>,
> {
    let positions = sort_by_key::<Position>(d.positions.filter(position_wanted(req_positions)));
    let spots = sort_by_key::<SpotBalance>(d.spot_balances.filter(spot_wanted(req_spots)));
    if positions.len() != req_positions.len() {
        Err(positions_mismatch())
    } else if spots.len() != req_spots.len() {
        Err(spots_mismatch())
    } else {
        Ok(BinanceDataView { positions: positions, spot_balances: spots, ..d })
    }
}

/// Keeps the positions whose symbol is required.
fn retain_positions(v: Vec<Position>, req: &Vec<String>) -> (r: Vec<Position>)
    ensures
        views(r@) == views(v@).filter(position_wanted(strs(req@))),
{
    let ghost orig = views(v@);
    let ghost p = position_wanted(strs(req@));
    let mut rest = v;
    let mut out: Vec<Position> = Vec::new();
    let ghost mut k: int = 0;
    while rest.len() > 0
        invariant
            0 <= k <= orig.len(),
            p == position_wanted(strs(req@)),
            views(rest@) == orig.subrange(k, orig.len() as int),
            views(out@) == orig.subrange(0, k).filter(p),
        decreases rest.len(),
    {
        let ghost before = rest@;
        let x = rest.remove(0);
        proof {
            lemma_take_first::<Position>(orig, before, rest@, x, k);
            lemma_filter_step(orig, k, p);
        }
        if contains_str(req, &x.symbol) {
            out.push(x);
            proof {
                assert(views(out@) =~= orig.subrange(0, k).filter(p).push(x@));
            }
        }
        proof {
            k = k + 1;
        }
    }
    proof {
        assert(orig.subrange(0, k) =~= orig);
    }
    out
}

/// Keeps the spot balances whose asset is required.
fn retain_spots(v: Vec<SpotBalance>, req: &Vec<String>) -> (r: Vec<SpotBalance>)
    ensures
        views(r@) == views(v@).filter(spot_wanted(strs(req@))),
{
    let ghost orig = views(v@);
    let ghost p = spot_wanted(strs(req@));
    let mut rest = v;
    let mut out: Vec<SpotBalance> = Vec::new();
    let ghost mut k: int = 0;
    while rest.len() > 0
        invariant
            0 <= k <= orig.len(),
            p == spot_wanted(strs(req@)),
            views(rest@) == orig.subrange(k, orig.len() as int),
            views(out@) == orig.subrange(0, k).filter(p),
        decreases rest.len(),
    {
        let ghost before = rest@;
        let x = rest.remove(0);
        proof {
            lemma_take_first::<SpotBalance>(orig, before, rest@, x, k);
            lemma_filter_step(orig, k, p);
        }
        if contains_str(req, &x.asset) {
            out.push(x);
            proof {
                assert(views(out@) =~= orig.subrange(0, k).filter(p).push(x@));
            }
        }
        proof {
            k = k + 1;
        }
    }
    proof {
        assert(orig.subrange(0, k) =~= orig);
    }
    out
}

impl BinanceData {
    /// Keeps only the required positions and spot balances, ordered by symbol and
    /// by asset, and checks that each required one is present.
    pub fn clean_and_validate(
        &mut self,
        required_binance_positions: Vec<String>,
        required_binance_spot_assets: Vec<String>,
    ) -> (r: Result<(), ContractError>)
        ensures
            match clean_binance(
                old(self)@,
                strs(required_binance_positions@),
                strs(required_binance_spot_assets@),
            ) {
                Ok(c) => r is Ok && final(self)@ == c,
                Err(m) => r matches Err(ContractError::Std { msg }) && msg@ == m,
            },
    {
        let ghost d = self@;
        let mut positions: Vec<Position> = Vec::new();
        core::mem::swap(&mut positions, &mut self.positions);
        let positions = retain_positions(positions, &required_binance_positions);
        let positions = sort_records(positions);
        if positions.len() != required_binance_positions.len() {
            return Err(
                ContractError::Std {
                    msg: String::from_str("Binance positions do not match required positions"),
                },
            );
        }
        let mut spots: Vec<SpotBalance> = Vec::new();
        core::mem::swap(&mut spots, &mut self.spot_balances);
        let spots = retain_spots(spots, &required_binance_spot_assets);
        let spots = sort_records(spots);
        if spots.len() != required_binance_spot_assets.len() {
            proof {
                assert(views(positions@).len() == positions@.len());
            }
            return Err(
                ContractError::Std {
                    msg: String::from_str("Binance spot assets do not match required spot assets"),
                },
            );
        }
        self.positions = positions;
        self.spot_balances = spots;
        Ok(())
    }
}

/// Scalar field `which` of a datum: 0 unimmr, 1 UM balance, 2 PM equity, 3 withdrawable.
pub open spec fn scalar_field(d: BinanceDataView, which: int) -> int {
    if which == 0 {
        d.unimmr.value()
    } else if which == 1 {
        d.um_balance_usdt.value()
    } else if which == 2 {
        d.pm_account_actual_equity.value()
    } else {
        d.withdrawable_usdt.value()
    }
}

pub open spec fn scalar_column(data: Seq<BinanceDataView>, which: int) -> Seq<int> {
    data.map_values(|d: BinanceDataView| scalar_field(d, which))
}

/// Field `which` of position `i` of each datum: 0 amount, 1 PnL.
pub open spec fn position_column(data: Seq<BinanceDataView>, i: int, which: int) -> Seq<int> {
    data.map_values(
        |d: BinanceDataView|
            if which == 0 {
                d.positions[i].amount.value()
            } else {
                d.positions[i].pnl.value()
            },
    )
}

pub open spec fn spot_column(data: Seq<BinanceDataView>, i: int) -> Seq<int> {
    data.map_values(|d: BinanceDataView| d.spot_balances[i].amount.value())
}

/// All data have the entry counts and the names of the first one.
#[verifier::opaque]
pub open spec fn shapes_match(data: Seq<BinanceDataView>) -> bool {
    forall|j: int|
        0 <= j < data.len() ==> {
            &&& (#[trigger] data[j]).positions.len() == data[0].positions.len()
            &&& data[j].spot_balances.len() == data[0].spot_balances.len()
            &&& forall|i: int|
                0 <= i < data[0].positions.len() ==> (#[trigger] data[j].positions[i]).symbol
                    == data[0].positions[i].symbol
            &&& forall|i: int|
                0 <= i < data[0].spot_balances.len() ==> (#[trigger] data[j].spot_balances[i]).asset
                    == data[0].spot_balances[i].asset
        }
}

#[verifier::opaque]
pub open spec fn dec_consensus(vals: Seq<int>, t: int, d: u64) -> Option<int> {
    spec_consensus::<SignedDecimal256>(vals, t, d)
}

/// Every field agrees.
pub open spec fn columns_agree(data: Seq<BinanceDataView>, t: int, d: u64) -> bool {
    &&& forall|w: int| 0 <= w < 4 ==> (#[trigger] dec_consensus(scalar_column(data, w), t, d)) is Some
    &&& forall|i: int, w: int|
        0 <= i < data[0].positions.len() && 0 <= w < 2 ==> (#[trigger] dec_consensus(
            position_column(data, i, w),
            t,
            d,
        )) is Some
    &&& forall|i: int|
        0 <= i < data[0].spot_balances.len() ==> (#[trigger] dec_consensus(spot_column(data, i), t, d)) is Some
}

/// The agreed decimal of a column.
pub open spec fn agreed_dec(vals: Seq<int>, t: int, d: u64) -> SignedDecimal256 {
    SignedDecimal256 { atomics: parts_of(dec_consensus(vals, t, d)->0) }
}

pub open spec fn agreed_binance(data: Seq<BinanceDataView>, t: int, d: u64) -> BinanceDataView {
    BinanceDataView {
        unimmr: agreed_dec(scalar_column(data, 0), t, d),
        positions: Seq::new(
            data[0].positions.len(),
            |i: int|
                PositionView {
                    symbol: data[0].positions[i].symbol,
                    amount: agreed_dec(position_column(data, i, 0), t, d),
                    pnl: agreed_dec(position_column(data, i, 1), t, d),
                },
        ),
        um_balance_usdt: agreed_dec(scalar_column(data, 1), t, d),
        spot_balances: Seq::new(
            data[0].spot_balances.len(),
            |i: int|
                SpotBalanceView {
                    asset: data[0].spot_balances[i].asset,
                    amount: agreed_dec(spot_column(data, i), t, d),
                },
        ),
        pm_account_actual_equity: agreed_dec(scalar_column(data, 2), t, d),
        withdrawable_usdt: agreed_dec(scalar_column(data, 3), t, d),
    }
}

/// The consensus of Binance data: at least `t` reports with the same positions and
/// spot assets, agreeing on every amount; names come from the first report.
pub open spec fn binance_consensus(data: Seq<BinanceDataView>, t: int, d: u64) -> Option<BinanceDataView> {
    if data.len() < t || !shapes_match(data) || !columns_agree(data, t, d) {
        None
    } else {
        Some(agreed_binance(data, t, d))
    }
}

/// The consensus on scalar field `which`.
#[verifier::rlimit(30)]
fn agree_scalar(data: &[BinanceData], which: u8, threshold: usize, delta_ppm: u64) -> (r: Option<
    SignedDecimal256,
>)
    requires
        which < 4,
    ensures
        match dec_consensus(scalar_column(views(data@), which as int), threshold as int, delta_ppm) {
            Some(v) => r == Some(SignedDecimal256 { atomics: parts_of(v) }) && fits_i256(v),
            None => r is None,
        },
{
    let get = |d: &BinanceData| -> (x: SignedDecimal256)
        ensures
            x.value() == scalar_field(d@, which as int),
        {
            if which == 0 {
                d.unimmr
            } else if which == 1 {
                d.um_balance_usdt
            } else if which == 2 {
                d.pm_account_actual_equity
            } else {
                d.withdrawable_usdt
            }
        };
    let r = consensus_on_field(data, get, threshold, delta_ppm);
    proof {
        reveal(dec_consensus);
        let ys = choose|ys: Seq<SignedDecimal256>|
            {
                &&& ys.len() == data@.len()
                &&& forall|k: int| 0 <= k < data@.len() ==> get.ensures((&data@[k],), #[trigger] ys[k])
                &&& r is Some <==> spec_consensus::<SignedDecimal256>(
                    values(ys),
                    threshold as int,
                    delta_ppm,
                ) is Some
                &&& r matches Some(x) ==> spec_consensus::<SignedDecimal256>(
                    values(ys),
                    threshold as int,
                    delta_ppm,
                ) == Some(x.value())
            };
        assert forall|m: int| 0 <= m < ys.len() implies values(ys)[m] == scalar_column(
            views(data@),
            which as int,
        )[m] by {
            assert(get.ensures((&data@[m],), ys[m]));
            assert(views(data@)[m] == data@[m]@);
        }
        assert(values(ys) =~= scalar_column(views(data@), which as int));
        if let Some(x) = r {
            lemma_parts_roundtrip(x.atomics);
        }
    }
    r
}

/// The amount or PnL of position `i` of each datum.
fn position_col(data: &[BinanceData], i: usize, which: u8) -> (r: Vec<SignedDecimal256>)
    requires
        forall|j: int| 0 <= j < data@.len() ==> i < (#[trigger] data@[j]).positions@.len(),
    ensures
        values(r@) == position_column(views(data@), i as int, which as int),
{
    let ghost col = position_column(views(data@), i as int, which as int);
    let mut out: Vec<SignedDecimal256> = Vec::new();
    let mut j: usize = 0;
    while j < data.len()
        invariant
            j <= data@.len(),
            col == position_column(views(data@), i as int, which as int),
            forall|j: int| 0 <= j < data@.len() ==> i < (#[trigger] data@[j]).positions@.len(),
            values(out@) == col.subrange(0, j as int),
        decreases data@.len() - j,
    {
        let p = &data[j].positions[i];
        let x = if which == 0 {
            p.amount
        } else {
            p.pnl
        };
        let ghost prev = out@;
        out.push(x);
        proof {
            assert(views(data@)[j as int] == data@[j as int]@);
            assert(views(data@[j as int].positions@)[i as int] == p@);
            assert(values(out@) =~= values(prev).push(x.value()));
            assert(col.subrange(0, j + 1) =~= col.subrange(0, j as int).push(col[j as int]));
        }
        j += 1;
    }
    proof {
        assert(col.subrange(0, data@.len() as int) =~= col);
    }
    out
}

/// The amount of spot balance `i` of each datum.
fn spot_col(data: &[BinanceData], i: usize) -> (r: Vec<SignedDecimal256>)
    requires
        forall|j: int| 0 <= j < data@.len() ==> i < (#[trigger] data@[j]).spot_balances@.len(),
    ensures
        values(r@) == spot_column(views(data@), i as int),
{
    let ghost col = spot_column(views(data@), i as int);
    let mut out: Vec<SignedDecimal256> = Vec::new();
    let mut j: usize = 0;
    while j < data.len()
        invariant
            j <= data@.len(),
            col == spot_column(views(data@), i as int),
            forall|j: int| 0 <= j < data@.len() ==> i < (#[trigger] data@[j]).spot_balances@.len(),
            values(out@) == col.subrange(0, j as int),
        decreases data@.len() - j,
    {
        let x = data[j].spot_balances[i].amount;
        let ghost prev = out@;
        out.push(x);
        proof {
            assert(views(data@)[j as int] == data@[j as int]@);
            assert(views(data@[j as int].spot_balances@)[i as int] == data@[j as int].spot_balances@[i as int]@);
            assert(values(out@) =~= values(prev).push(x.value()));
            assert(col.subrange(0, j + 1) =~= col.subrange(0, j as int).push(col[j as int]));
        }
        j += 1;
    }
    proof {
        assert(col.subrange(0, data@.len() as int) =~= col);
    }
    out
}

/// Whether all data have the entry counts and names of the first one.
fn shapes_agree(data: &[BinanceData]) -> (r: bool)
    requires
        data@.len() > 0,
    ensures
        r == shapes_match(views(data@)),
{
    reveal(shapes_match);
    let ghost dv = views(data@);
    proof {
        assert(dv[0] == data@[0]@);
    }
    let n0 = data[0].positions.len();
    let s0 = data[0].spot_balances.len();
    let n = data.len();
    let mut j: usize = 0;
    while j < n
        invariant
            j <= n,
            n == data@.len(),
            dv == views(data@),
            n0 == dv[0].positions.len(),
            s0 == dv[0].spot_balances.len(),
            forall|m: int|
                0 <= m < j ==> (#[trigger] dv[m]).positions.len() == n0 && dv[m].spot_balances.len() == s0,
        decreases n - j,
    {
        proof {
            assert(dv[j as int] == data@[j as int]@);
        }
        if data[j].positions.len() != n0 || data[j].spot_balances.len() != s0 {
            proof {
                reveal(shapes_match);
            }
            return false;
        }
        j += 1;
    }
    let mut i: usize = 0;
    while i < n0
        invariant
            i <= n0,
            n == data@.len(),
            dv == views(data@),
            n0 == dv[0].positions.len(),
            s0 == dv[0].spot_balances.len(),
            forall|m: int|
                0 <= m < n ==> (#[trigger] dv[m]).positions.len() == n0 && dv[m].spot_balances.len() == s0,
            forall|m: int, a: int|
                0 <= m < n && 0 <= a < i ==> (#[trigger] dv[m].positions[a]).symbol == dv[0].positions[a].symbol,
        decreases n0 - i,
    {
        let mut j: usize = 0;
        while j < n
            invariant
                j <= n,
                i < n0,
                n == data@.len(),
                dv == views(data@),
                n0 == dv[0].positions.len(),
                forall|m: int|
                    0 <= m < n ==> (#[trigger] dv[m]).positions.len() == n0 && dv[m].spot_balances.len() == s0,
                forall|m: int| 0 <= m < j ==> (#[trigger] dv[m].positions[i as int]).symbol == dv[0].positions[i as int].symbol,
            decreases n - j,
        {
            proof {
                assert(dv[j as int] == data@[j as int]@);
                assert(dv[j as int].positions[i as int] == data@[j as int].positions@[i as int]@);
                assert(dv[0].positions[i as int] == data@[0].positions@[i as int]@);
            }
            if !str_eq(&data[j].positions[i].symbol, &data[0].positions[i].symbol) {
                proof {
                    reveal(shapes_match);
                }
                return false;
            }
            j += 1;
        }
        i += 1;
    }
    let mut i: usize = 0;
    while i < s0
        invariant
            i <= s0,
            n == data@.len(),
            dv == views(data@),
            n0 == dv[0].positions.len(),
            s0 == dv[0].spot_balances.len(),
            forall|m: int|
                0 <= m < n ==> (#[trigger] dv[m]).positions.len() == n0 && dv[m].spot_balances.len() == s0,
            forall|m: int, a: int|
                0 <= m < n && 0 <= a < n0 ==> (#[trigger] dv[m].positions[a]).symbol == dv[0].positions[a].symbol,
            forall|m: int, a: int|
                0 <= m < n && 0 <= a < i ==> (#[trigger] dv[m].spot_balances[a]).asset == dv[0].spot_balances[a].asset,
        decreases s0 - i,
    {
        let mut j: usize = 0;
        while j < n
            invariant
                j <= n,
                i < s0,
                n == data@.len(),
                dv == views(data@),
                s0 == dv[0].spot_balances.len(),
                forall|m: int|
                    0 <= m < n ==> (#[trigger] dv[m]).positions.len() == n0 && dv[m].spot_balances.len() == s0,
                forall|m: int|
                    0 <= m < j ==> (#[trigger] dv[m].spot_balances[i as int]).asset == dv[0].spot_balances[i as int].asset,
            decreases n - j,
        {
            proof {
                assert(dv[j as int] == data@[j as int]@);
                assert(dv[j as int].spot_balances[i as int] == data@[j as int].spot_balances@[i as int]@);
                assert(dv[0].spot_balances[i as int] == data@[0].spot_balances@[i as int]@);
            }
            if !str_eq(&data[j].spot_balances[i].asset, &data[0].spot_balances[i].asset) {
                proof {
                    reveal(shapes_match);
                }
                return false;
            }
            j += 1;
        }
        i += 1;
    }
    proof {
        reveal(shapes_match);
    }
    true
}

/// The consensus on field `which` of position `i`.
fn agree_position_field(data: &[BinanceData], i: usize, which: u8, threshold: usize, delta_ppm: u64) -> (r:
    Option<SignedDecimal256>)
    requires
        forall|j: int| 0 <= j < data@.len() ==> i < (#[trigger] data@[j]).positions@.len(),
    ensures
        match dec_consensus(position_column(views(data@), i as int, which as int), threshold as int, delta_ppm) {
            Some(v) => r == Some(SignedDecimal256 { atomics: parts_of(v) }) && fits_i256(v),
            None => r is None,
        },
{
    let col = position_col(data, i, which);
    proof {
        reveal(dec_consensus);
    }
    let r = consensus_on_items_dec256(col.as_slice(), threshold, delta_ppm);
    proof {
        if let Some(x) = r {
            lemma_parts_roundtrip(x.atomics);
        }
    }
    r
}

/// The consensus on the amount of spot balance `i`.
fn agree_spot(data: &[BinanceData], i: usize, threshold: usize, delta_ppm: u64) -> (r: Option<SignedDecimal256>)
    requires
        forall|j: int| 0 <= j < data@.len() ==> i < (#[trigger] data@[j]).spot_balances@.len(),
    ensures
        match dec_consensus(spot_column(views(data@), i as int), threshold as int, delta_ppm) {
            Some(v) => r == Some(SignedDecimal256 { atomics: parts_of(v) }) && fits_i256(v),
            None => r is None,
        },
{
    let col = spot_col(data, i);
    proof {
        reveal(dec_consensus);
    }
    let r = consensus_on_items_dec256(col.as_slice(), threshold, delta_ppm);
    proof {
        if let Some(x) = r {
            lemma_parts_roundtrip(x.atomics);
        }
    }
    r
}

/// What matching shapes give: every datum has the entry counts of the first one.
proof fn lemma_shapes(dv: Seq<BinanceDataView>)
    requires
        shapes_match(dv),
    ensures
        forall|j: int|
            0 <= j < dv.len() ==> (#[trigger] dv[j]).positions.len() == dv[0].positions.len()
                && dv[j].spot_balances.len() == dv[0].spot_balances.len(),
{
    reveal(shapes_match);
}

/// The agreed positions.
fn agree_positions(data: &[BinanceData], threshold: usize, delta_ppm: u64) -> (r: Option<Vec<Position>>)
    requires
        data@.len() > 0,
        forall|j: int|
            0 <= j < data@.len() ==> (#[trigger] views(data@)[j]).positions.len() == views(data@)[0].positions.len(),
    ensures
        r is Some <==> forall|a: int, w: int|
            0 <= a < views(data@)[0].positions.len() && 0 <= w < 2 ==> (#[trigger] dec_consensus(
                position_column(views(data@), a, w),
                threshold as int,
                delta_ppm,
            )) is Some,
        r matches Some(v) ==> views(v@) == agreed_binance(views(data@), threshold as int, delta_ppm).positions,
{
    let ghost dv = views(data@);
    let ghost t = threshold as int;
    let ghost want = agreed_binance(dv, t, delta_ppm).positions;
    proof {
        assert(dv[0] == data@[0]@);
    }
    let n0 = data[0].positions.len();
    let mut out: Vec<Position> = Vec::new();
    let mut i: usize = 0;
    while i < n0
        invariant
            i <= n0,
            data@.len() > 0,
            dv == views(data@),
            t == threshold as int,
            n0 == dv[0].positions.len(),
            forall|j: int| 0 <= j < data@.len() ==> (#[trigger] dv[j]).positions.len() == dv[0].positions.len(),
            want == agreed_binance(dv, t, delta_ppm).positions,
            forall|a: int, w: int|
                0 <= a < i && 0 <= w < 2 ==> (#[trigger] dec_consensus(position_column(dv, a, w), t, delta_ppm)) is Some,
            views(out@) == want.subrange(0, i as int),
        decreases n0 - i,
    {
        proof {
            assert forall|j: int| 0 <= j < data@.len() implies i < (#[trigger] data@[j]).positions@.len() by {
                assert(dv[j] == data@[j]@);
            }
        }
        let amount = match agree_position_field(data, i, 0, threshold, delta_ppm) {
            Some(x) => x,
            None => {
                return None;
            },
        };
        let pnl = match agree_position_field(data, i, 1, threshold, delta_ppm) {
            Some(x) => x,
            None => {
                return None;
            },
        };
        let p = &data[0].positions[i];
        let ghost prev = out@;
        out.push(Position { symbol: p.symbol.clone(), amount, pnl });
        proof {
            assert(views(data@[0].positions@)[i as int] == p@);
            assert(views(out@) =~= views(prev).push(want[i as int]));
            assert(want.subrange(0, i + 1) =~= want.subrange(0, i as int).push(want[i as int]));
            assert forall|a: int, w: int|
                0 <= a < i + 1 && 0 <= w < 2 implies (#[trigger] dec_consensus(
                    position_column(dv, a, w),
                    t,
                    delta_ppm,
                )) is Some by {
                if a == i {
                    assert(w == 0 || w == 1);
                }
            }
        }
        i += 1;
    }
    proof {
        assert(want.subrange(0, n0 as int) =~= want);
    }
    Some(out)
}

/// The agreed spot balances.
fn agree_spots(data: &[BinanceData], threshold: usize, delta_ppm: u64) -> (r: Option<Vec<SpotBalance>>)
    requires
        data@.len() > 0,
        forall|j: int|
            0 <= j < data@.len() ==> (#[trigger] views(data@)[j]).spot_balances.len() == views(
                data@,
            )[0].spot_balances.len(),
    ensures
        r is Some <==> forall|a: int|
            0 <= a < views(data@)[0].spot_balances.len() ==> (#[trigger] dec_consensus(
                spot_column(views(data@), a),
                threshold as int,
                delta_ppm,
            )) is Some,
        r matches Some(v) ==> views(v@) == agreed_binance(views(data@), threshold as int, delta_ppm).spot_balances,
{
    let ghost dv = views(data@);
    let ghost t = threshold as int;
    let ghost want = agreed_binance(dv, t, delta_ppm).spot_balances;
    proof {
        assert(dv[0] == data@[0]@);
    }
    let s0 = data[0].spot_balances.len();
    let mut out: Vec<SpotBalance> = Vec::new();
    let mut i: usize = 0;
    while i < s0
        invariant
            i <= s0,
            data@.len() > 0,
            dv == views(data@),
            t == threshold as int,
            s0 == dv[0].spot_balances.len(),
            forall|j: int| 0 <= j < data@.len() ==> (#[trigger] dv[j]).spot_balances.len() == dv[0].spot_balances.len(),
            want == agreed_binance(dv, t, delta_ppm).spot_balances,
            forall|a: int| 0 <= a < i ==> (#[trigger] dec_consensus(spot_column(dv, a), t, delta_ppm)) is Some,
            views(out@) == want.subrange(0, i as int),
        decreases s0 - i,
    {
        proof {
            assert forall|j: int| 0 <= j < data@.len() implies i < (#[trigger] data@[j]).spot_balances@.len() by {
                assert(dv[j] == data@[j]@);
            }
        }
        let amount = match agree_spot(data, i, threshold, delta_ppm) {
            Some(x) => x,
            None => {
                return None;
            },
        };
        let b = &data[0].spot_balances[i];
        let ghost prev = out@;
        out.push(SpotBalance { asset: b.asset.clone(), amount });
        proof {
            assert(views(data@[0].spot_balances@)[i as int] == b@);
            assert(views(out@) =~= views(prev).push(want[i as int]));
            assert(want.subrange(0, i + 1) =~= want.subrange(0, i as int).push(want[i as int]));
        }
        i += 1;
    }
    proof {
        assert(want.subrange(0, s0 as int) =~= want);
    }
    Some(out)
}

impl ConsensusData<Config> for BinanceData {
    open spec fn spec_prepublish_cleanup(data: BinanceDataView, options: Config) -> Result<
        BinanceDataView,
        Seq<char>,
    > {
        clean_binance(
            data,
            strs(options.required_binance_positions@),
            strs(options.required_binance_spot_assets@),
        )
    }

    open spec fn spec_try_consensus(data: Seq<BinanceDataView>, threshold: int, delta_ppm: u64) -> Option<
        BinanceDataView,
    > {
        binance_consensus(data, threshold, delta_ppm)
    }

    /// The first report is read, so there must be one when enough are required.
    open spec fn consensus_safe(data: Seq<BinanceDataView>, threshold: int, delta_ppm: u64) -> bool {
        data.len() >= threshold ==> data.len() > 0
    }

    fn prepublish_cleanup(&mut self, options: Config) -> (r: Result<(), ConsensusError>) {
        match self.clean_and_validate(
            options.required_binance_positions,
            options.required_binance_spot_assets,
        ) {
            Ok(()) => Ok(()),
            Err(ContractError::Std { msg }) => Err(ConsensusError::PrepublishError { msg }),
            Err(_) => Err(ConsensusError::PrepublishError { msg: String::new() }),
        }
    }

    fn try_consensus(data: &[BinanceData], threshold: usize, delta_ppm: u64) -> (r: Option<BinanceData>) {
        let ghost dv = views(data@);
        let ghost t = threshold as int;
        if data.len() < threshold {
            return None;
        }
        if !shapes_agree(data) {
            return None;
        }
        proof {
            assert(dv[0] == data@[0]@);
        }
        let unimmr = match agree_scalar(data, 0, threshold, delta_ppm) {
            Some(x) => x,
            None => {
                return None;
            },
        };
        let um_balance_usdt = match agree_scalar(data, 1, threshold, delta_ppm) {
            Some(x) => x,
            None => {
                return None;
            },
        };
        let pm_account_actual_equity = match agree_scalar(data, 2, threshold, delta_ppm) {
            Some(x) => x,
            None => {
                return None;
            },
        };
        let withdrawable_usdt = match agree_scalar(data, 3, threshold, delta_ppm) {
            Some(x) => x,
            None => {
                return None;
            },
        };
        proof {
            assert forall|w: int| 0 <= w < 4 implies (#[trigger] dec_consensus(
                scalar_column(dv, w),
                t,
                delta_ppm,
            )) is Some by {
                assert(w == 0 || w == 1 || w == 2 || w == 3);
            }
        }
        proof {
            lemma_shapes(dv);
        }
        let positions = match agree_positions(data, threshold, delta_ppm) {
            Some(p) => p,
            None => {
                return None;
            },
        };
        let spots = match agree_spots(data, threshold, delta_ppm) {
            Some(sp) => sp,
            None => {
                return None;
            },
        };
        let r = BinanceData {
            unimmr,
            positions,
            um_balance_usdt,
            spot_balances: spots,
            pm_account_actual_equity,
            withdrawable_usdt,
        };
        proof {
            assert(r@ =~= agreed_binance(dv, t, delta_ppm));
        }
        Some(r)
    }
}

/// The sum of the first `k` decimals (in atomics).
pub open spec fn prefix_sum(s: Seq<SignedDecimal256>, k: int) -> int
    decreases k,
{
    if k <= 0 {
        0
    } else {
        prefix_sum(s, k - 1) + s[k - 1].value()
    }
}

/// Adding the decimals one by one never leaves the decimal range.
pub open spec fn sums_in_range(s: Seq<SignedDecimal256>) -> bool {
    forall|k: int| 0 <= k <= s.len() ==> fits_i256(#[trigger] prefix_sum(s, k))
}

/// A spot balance in BTC: its amount divided by the asset's price in BTC.
pub fn spot_balance_asset_in_btc(sb: &SpotBalance, price_in_btc: SignedDecimal256) -> (r: Result<
    SignedDecimal256,
    ContractError,
>)
    ensures
        match r {
            Ok(x) => price_in_btc.value() != 0 && x.value() == trunc_div_signed(
                sb.amount.value() * unit(),
                price_in_btc.value(),
            ),
            Err(e) => e is CheckedDiv && (price_in_btc.value() == 0 || !fits_i256(
                trunc_div_signed(sb.amount.value() * unit(), price_in_btc.value()),
            )),
        },
{
    match sb.amount.checked_div(price_in_btc) {
        Some(x) => Ok(x),
        None => Err(ContractError::CheckedDiv {}),
    }
}

/// The total of the spot balances in BTC; an overflow error when a running total
/// leaves the decimal range.
pub fn total_spot_in_btc(spot_in_btc: &[SignedDecimal256]) -> (r: Result<SignedDecimal256, ContractError>)
    ensures
        sums_in_range(spot_in_btc@) ==> (r matches Ok(x) && x.value() == prefix_sum(
            spot_in_btc@,
            spot_in_btc@.len() as int,
        )),
        !sums_in_range(spot_in_btc@) ==> (r matches Err(e) && e is Overflow),
{
    let mut total = SignedDecimal256::zero();
    let mut k: usize = 0;
    while k < spot_in_btc.len()
        invariant
            k <= spot_in_btc@.len(),
            total.value() == prefix_sum(spot_in_btc@, k as int),
            forall|m: int| 0 <= m <= k ==> fits_i256(#[trigger] prefix_sum(spot_in_btc@, m)),
        decreases spot_in_btc@.len() - k,
    {
        match total.checked_add(spot_in_btc[k]) {
            Some(t) => {
                total = t;
            },
            None => {
                proof {
                    assert(!fits_i256(prefix_sum(spot_in_btc@, k + 1)));
                }
                return Err(ContractError::Overflow {});
            },
        }
        k += 1;
    }
    Ok(total)
}

/// Amounts with 18 decimal places expressed in uwBTC (8 decimal places), truncated.
pub open spec fn to_uwbtc(atomics: int) -> int {
    trunc_div(atomics, 10_000_000_000)
}

/// The AUM in uwBTC: the portfolio margin equity divided by the BTC price, plus the
/// spot balances in BTC, scaled to 8 decimal places.
pub fn binance_aum_in_wbtc(
    pm_account_actual_equity: SignedDecimal256,
    btc_price_in_usd: SignedDecimal256,
    spot_total_in_btc: SignedDecimal256,
) -> (r: Int256Parts)
    requires
        btc_price_in_usd.value() != 0,
        fits_i256(trunc_div_signed(pm_account_actual_equity.value() * unit(), btc_price_in_usd.value())),
        fits_i256(
            trunc_div_signed(pm_account_actual_equity.value() * unit(), btc_price_in_usd.value())
                + spot_total_in_btc.value(),
        ),
    ensures
        r.value() == to_uwbtc(
            trunc_div_signed(pm_account_actual_equity.value() * unit(), btc_price_in_usd.value())
                + spot_total_in_btc.value(),
        ),
{
    let equity_in_btc = pm_account_actual_equity.checked_div(btc_price_in_usd).unwrap();
    let aum = equity_in_btc.checked_add(spot_total_in_btc).unwrap();
    trunc_div_by(aum.atomics, 10_000_000_000)
}

/// Agreed data is too old once its validity period has passed.
pub fn check_data_fresh(timestamp: u64, valid_period: u64, now: u64) -> (r: Result<(), ContractError>)
    requires
        timestamp + valid_period <= u64::MAX,
    ensures
        r is Ok <==> timestamp + valid_period >= now,
        r matches Err(e) ==> e is PublishedDataTooOld,
{
    if timestamp + valid_period < now {
        Err(ContractError::PublishedDataTooOld {})
    } else {
        Ok(())
    }
}

/// Changes to the Binance configurations; every field is optional.
#[derive(Clone, Debug, PartialEq)]
pub struct UpdateConfig {
    pub owner: Option<String>,
    pub consensus_data_valid_period: Option<u64>,
    pub price_data_valid_period: Option<u64>,
    pub required_binance_positions: Option<Vec<String>>,
    pub required_binance_spot_assets: Option<Vec<String>>,
    pub price_oracle_contract: Option<String>,
    pub messengers: Option<Vec<String>>,
    pub threshold: Option<u32>,
    pub data_delta_ppm: Option<u64>,
    pub round_length: Option<u64>,
}

/// The contract configuration after an update: each field that is given replaces
/// the stored one.
pub open spec fn updated_config(c: Config, u: UpdateConfig) -> Config {
    Config {
        owner: match u.owner {
            Some(x) => x,
            None => c.owner,
        },
        price_oracle_contract: match u.price_oracle_contract {
            Some(x) => x,
            None => c.price_oracle_contract,
        },
        consensus_data_valid_period: match u.consensus_data_valid_period {
            Some(x) => x,
            None => c.consensus_data_valid_period,
        },
        price_data_valid_period: match u.price_data_valid_period {
            Some(x) => x,
            None => c.price_data_valid_period,
        },
        required_binance_positions: match u.required_binance_positions {
            Some(x) => x,
            None => c.required_binance_positions,
        },
        required_binance_spot_assets: match u.required_binance_spot_assets {
            Some(x) => x,
            None => c.required_binance_spot_assets,
        },
    }
}

/// The consensus configuration after an update.
pub open spec fn updated_consensus_config(c: ConsensusConfig, u: UpdateConfig) -> ConsensusConfig {
    ConsensusConfig {
        messengers: match u.messengers {
            Some(x) => x,
            None => c.messengers,
        },
        threshold: match u.threshold {
            Some(x) => x,
            None => c.threshold,
        },
        data_delta_ppm: match u.data_delta_ppm {
            Some(x) => x,
            None => c.data_delta_ppm,
        },
        round_length: match u.round_length {
            Some(x) => x,
            None => c.round_length,
        },
    }
}

/// The owner updates both configurations.
pub fn execute_update_config(
    config: Config,
    consensus_config: ConsensusConfig,
    sender: &String,
    new_config: UpdateConfig,
) -> (r: Result<(Config, ConsensusConfig), ContractError>)
    ensures
        sender@ != config.owner@ ==> r == Err::<(Config, ConsensusConfig), ContractError>(ContractError::Unauthorized {}),
        sender@ == config.owner@ ==> r == Ok::<(Config, ConsensusConfig), ContractError>(
            (updated_config(config, new_config), updated_consensus_config(consensus_config, new_config)),
        ),
{
    if !str_eq(sender, &config.owner) {
        return Err(ContractError::Unauthorized {});
    }
    let UpdateConfig {
        owner,
        consensus_data_valid_period,
        price_data_valid_period,
        required_binance_positions,
        required_binance_spot_assets,
        price_oracle_contract,
        messengers,
        threshold,
        data_delta_ppm,
        round_length,
    } = new_config;
    let mut c = config;
    if let Some(x) = owner {
        c.owner = x;
    }
    if let Some(x) = consensus_data_valid_period {
        c.consensus_data_valid_period = x;
    }
    if let Some(x) = price_data_valid_period {
        c.price_data_valid_period = x;
    }
    if let Some(x) = required_binance_positions {
        c.required_binance_positions = x;
    }
    if let Some(x) = required_binance_spot_assets {
        c.required_binance_spot_assets = x;
    }
    if let Some(x) = price_oracle_contract {
        c.price_oracle_contract = x;
    }
    let mut cc = consensus_config;
    if let Some(x) = messengers {
        cc.messengers = x;
    }
    if let Some(x) = threshold {
        cc.threshold = x;
    }
    if let Some(x) = data_delta_ppm {
        cc.data_delta_ppm = x;
    }
    if let Some(x) = round_length {
        cc.round_length = x;
    }
    Ok((c, cc))
}

/// The consensus result inside a result of the Binance contract.
pub open spec fn consensus_result(r: Result<(PublishResult<BinanceData>, Round), ContractError>) -> Result<
    (PublishResult<BinanceData>, Round),
    ConsensusError,
> {
    match r {
        Ok(x) => Ok(x),
        Err(ContractError::ConsensusError(e)) => Err(e),
        Err(_) => Err(ConsensusError::Std { msg: arbitrary() }),
    }
}

/// A messenger of the consensus configuration publishes Binance data at time `now`;
/// the data is cleaned against the contract configuration and joins the round.
pub fn execute_publish_data(
    state: &mut State<BinanceData, Config>,
    config: Config,
    now: u64,
    sender: String,
    new_data: BinanceData,
) -> (r: Result<(PublishResult<BinanceData>, Round), ContractError>)
    requires
        old(state).wf(),
        publish_safe::<BinanceData, Config>(*old(state), now, sender@, new_data@, config),
    ensures
        final(state).wf(),
        !strs(old(state).config.messengers@).contains(sender@) ==> r == Err::<
            (PublishResult<BinanceData>, Round),
            ContractError,
        >(ContractError::Unauthorized {}) && *final(state) == *old(state),
        strs(old(state).config.messengers@).contains(sender@) ==> (r is Ok || (r matches Err(e) && e is ConsensusError))
            && publish_post::<BinanceData, Config>(
            *old(state),
            *final(state),
            now,
            sender@,
            new_data@,
            config,
            consensus_result(r),
        ),
{
    if !contains_str(&state.config.messengers, &sender) {
        return Err(ContractError::Unauthorized {});
    }
    match state.publish_data(now, sender, new_data, config) {
        Ok(x) => Ok(x),
        Err(e) => Err(ContractError::ConsensusError(e)),
    }
}

/// A column on which all submissions agree is agreed on that value.
proof fn lemma_dec_unanimous(v: SignedDecimal256, n: nat, t: int, d: u64)
    requires
        n >= t,
        n > 0,
    ensures
        dec_consensus(Seq::new(n, |k: int| v.value()), t, d) == Some(v.value()),
{
    reveal(dec_consensus);
    lemma_consensus_unanimous::<SignedDecimal256>(v, n, t, d);
}

/// Law: when at least `t` messengers submit the same data, that data is the
/// consensus.
pub proof fn lemma_binance_consensus_unanimous(x: BinanceDataView, n: nat, t: int, d: u64)
    requires
        n >= t,
        n > 0,
    ensures
        binance_consensus(Seq::new(n, |k: int| x), t, d) == Some(x),
{
    let data = Seq::new(n, |k: int| x);
    assert(shapes_match(data)) by {
        reveal(shapes_match);
    }
    let scalars = seq![x.unimmr, x.um_balance_usdt, x.pm_account_actual_equity, x.withdrawable_usdt];
    assert forall|w: int| 0 <= w < 4 implies #[trigger] dec_consensus(scalar_column(data, w), t, d) == Some(
        scalars[w].value(),
    ) by {
        assert(scalar_column(data, w) =~= Seq::new(n, |k: int| scalars[w].value()));
        lemma_dec_unanimous(scalars[w], n, t, d);
    }
    assert forall|i: int, w: int| 0 <= i < x.positions.len() && 0 <= w < 2 implies #[trigger] dec_consensus(
        position_column(data, i, w),
        t,
        d,
    ) == Some(if w == 0 { x.positions[i].amount.value() } else { x.positions[i].pnl.value() }) by {
        let v = if w == 0 {
            x.positions[i].amount
        } else {
            x.positions[i].pnl
        };
        assert(position_column(data, i, w) =~= Seq::new(n, |k: int| v.value()));
        lemma_dec_unanimous(v, n, t, d);
    }
    assert forall|i: int| 0 <= i < x.spot_balances.len() implies #[trigger] dec_consensus(spot_column(data, i), t, d)
        == Some(x.spot_balances[i].amount.value()) by {
        assert(spot_column(data, i) =~= Seq::new(n, |k: int| x.spot_balances[i].amount.value()));
        lemma_dec_unanimous(x.spot_balances[i].amount, n, t, d);
    }
    assert(columns_agree(data, t, d));
    let a = agreed_binance(data, t, d);
    assert(dec_consensus(scalar_column(data, 0), t, d) == Some(scalars[0].value()));
    assert(dec_consensus(scalar_column(data, 1), t, d) == Some(scalars[1].value()));
    assert(dec_consensus(scalar_column(data, 2), t, d) == Some(scalars[2].value()));
    assert(dec_consensus(scalar_column(data, 3), t, d) == Some(scalars[3].value()));
    assert forall|i: int| 0 <= i < x.positions.len() implies #[trigger] a.positions[i] == x.positions[i] by {
        assert(dec_consensus(position_column(data, i, 0), t, d) == Some(x.positions[i].amount.value()));
        assert(dec_consensus(position_column(data, i, 1), t, d) == Some(x.positions[i].pnl.value()));
    }
    assert forall|i: int| 0 <= i < x.spot_balances.len() implies #[trigger] a.spot_balances[i] == x.spot_balances[i] by {
        assert(dec_consensus(spot_column(data, i), t, d) == Some(x.spot_balances[i].amount.value()));
    }
    assert(a.positions =~= x.positions);
    assert(a.spot_balances =~= x.spot_balances);
}

/// The agreed decimal of a column whose values are decimals is its consensus value.
proof fn lemma_agreed_dec_value(vals: Seq<int>, t: int, d: u64)
    requires
        dec_consensus(vals, t, d) is Some,
        forall|k: int| 0 <= k < vals.len() ==> fits_i256(#[trigger] vals[k]),
    ensures
        Some(agreed_dec(vals, t, d).value()) == spec_consensus::<SignedDecimal256>(vals, t, d),
{
    reveal(dec_consensus);
    crate::items::lemma_consensus_within_reports::<SignedDecimal256>(vals, t, d);
    let c = spec_consensus::<SignedDecimal256>(vals, t, d)->0;
    let (lo, hi) = choose|lo: int, hi: int| vals.contains(lo) && vals.contains(hi) && lo <= c <= hi;
    crate::decimal::lemma_parts_of(c);
}

/// The agreed spot balance `i` is the consensus of its amounts.
proof fn lemma_agreed_spot(data: Seq<BinanceDataView>, t: int, d: u64, i: int)
    requires
        0 <= i < data[0].spot_balances.len(),
        dec_consensus(spot_column(data, i), t, d) is Some,
    ensures
        Some(agreed_dec(spot_column(data, i), t, d).value()) == spec_consensus::<SignedDecimal256>(
            Seq::new(data.len(), |j: int| data[j].spot_balances[i].amount.value()),
            t,
            d,
        ),
{
    let col = spot_column(data, i);
    assert forall|k: int| 0 <= k < col.len() implies fits_i256(#[trigger] col[k]) by {
        lemma_parts_roundtrip(data[k].spot_balances[i].amount.atomics);
    }
    lemma_agreed_dec_value(col, t, d);
    assert(col =~= Seq::new(data.len(), |j: int| data[j].spot_balances[i].amount.value()));
}

/// The agreed amount and PnL of position `i` are the consensus of their columns.
proof fn lemma_agreed_position(data: Seq<BinanceDataView>, t: int, d: u64, i: int)
    requires
        0 <= i < data[0].positions.len(),
        dec_consensus(position_column(data, i, 0), t, d) is Some,
        dec_consensus(position_column(data, i, 1), t, d) is Some,
    ensures
        Some(agreed_dec(position_column(data, i, 0), t, d).value()) == spec_consensus::<SignedDecimal256>(
            Seq::new(data.len(), |j: int| data[j].positions[i].amount.value()),
            t,
            d,
        ),
        Some(agreed_dec(position_column(data, i, 1), t, d).value()) == spec_consensus::<SignedDecimal256>(
            Seq::new(data.len(), |j: int| data[j].positions[i].pnl.value()),
            t,
            d,
        ),
{
    let c0 = position_column(data, i, 0);
    let c1 = position_column(data, i, 1);
    assert forall|k: int| 0 <= k < c0.len() implies fits_i256(#[trigger] c0[k]) by {
        lemma_parts_roundtrip(data[k].positions[i].amount.atomics);
    }
    assert forall|k: int| 0 <= k < c1.len() implies fits_i256(#[trigger] c1[k]) by {
        lemma_parts_roundtrip(data[k].positions[i].pnl.atomics);
    }
    lemma_agreed_dec_value(c0, t, d);
    lemma_agreed_dec_value(c1, t, d);
    assert(c0 =~= Seq::new(data.len(), |j: int| data[j].positions[i].amount.value()));
    assert(c1 =~= Seq::new(data.len(), |j: int| data[j].positions[i].pnl.value()));
}

/// The agreed account figure `w` is the consensus of its column.
proof fn lemma_agreed_scalar(data: Seq<BinanceDataView>, t: int, d: u64, w: int)
    requires
        0 <= w < 4,
        dec_consensus(scalar_column(data, w), t, d) is Some,
    ensures
        Some(agreed_dec(scalar_column(data, w), t, d).value()) == spec_consensus::<SignedDecimal256>(
            Seq::new(data.len(), |j: int| scalar_field(data[j], w)),
            t,
            d,
        ),
{
    let col = scalar_column(data, w);
    assert forall|k: int| 0 <= k < col.len() implies fits_i256(#[trigger] col[k]) by {
        lemma_parts_roundtrip(data[k].unimmr.atomics);
        lemma_parts_roundtrip(data[k].um_balance_usdt.atomics);
        lemma_parts_roundtrip(data[k].pm_account_actual_equity.atomics);
        lemma_parts_roundtrip(data[k].withdrawable_usdt.atomics);
    }
    lemma_agreed_dec_value(col, t, d);
    assert(col =~= Seq::new(data.len(), |j: int| scalar_field(data[j], w)));
}

/// Law: each agreed account figure of Binance data is the numeric consensus (the
/// median of the first tolerance window of at least `t` values) of that figure over
/// all submissions.
#[verifier::rlimit(60)]
pub proof fn lemma_binance_agreed_figures(data: Seq<BinanceDataView>, t: int, d: u64, x: BinanceDataView)
    requires
        binance_consensus(data, t, d) == Some(x),
    ensures
        Some(x.unimmr.value()) == spec_consensus::<SignedDecimal256>(
            Seq::new(data.len(), |j: int| data[j].unimmr.value()),
            t,
            d,
        ),
        Some(x.um_balance_usdt.value()) == spec_consensus::<SignedDecimal256>(
            Seq::new(data.len(), |j: int| data[j].um_balance_usdt.value()),
            t,
            d,
        ),
        Some(x.pm_account_actual_equity.value()) == spec_consensus::<SignedDecimal256>(
            Seq::new(data.len(), |j: int| data[j].pm_account_actual_equity.value()),
            t,
            d,
        ),
        Some(x.withdrawable_usdt.value()) == spec_consensus::<SignedDecimal256>(
            Seq::new(data.len(), |j: int| data[j].withdrawable_usdt.value()),
            t,
            d,
        ),
{
    assert(columns_agree(data, t, d));
    assert(x == agreed_binance(data, t, d));
    assert(dec_consensus(scalar_column(data, 0), t, d) is Some);
    assert(dec_consensus(scalar_column(data, 1), t, d) is Some);
    assert(dec_consensus(scalar_column(data, 2), t, d) is Some);
    assert(dec_consensus(scalar_column(data, 3), t, d) is Some);
    lemma_agreed_scalar(data, t, d, 0);
    lemma_agreed_scalar(data, t, d, 1);
    lemma_agreed_scalar(data, t, d, 2);
    lemma_agreed_scalar(data, t, d, 3);
    assert(Seq::new(data.len(), |j: int| scalar_field(data[j], 0)) =~= Seq::new(data.len(), |j: int| data[j].unimmr.value()));
    assert(Seq::new(data.len(), |j: int| scalar_field(data[j], 1)) =~= Seq::new(data.len(), |j: int| data[j].um_balance_usdt.value()));
    assert(Seq::new(data.len(), |j: int| scalar_field(data[j], 2)) =~= Seq::new(data.len(), |j: int| data[j].pm_account_actual_equity.value()));
    assert(Seq::new(data.len(), |j: int| scalar_field(data[j], 3)) =~= Seq::new(data.len(), |j: int| data[j].withdrawable_usdt.value()));
}

/// Law: each agreed spot balance of Binance data carries the first submission's
/// asset and, as its amount, the numeric consensus of that balance's amounts over
/// all submissions (so it depends only on the reported amounts, not on which
/// submission comes first).
pub proof fn lemma_binance_agreed_spots(data: Seq<BinanceDataView>, t: int, d: u64, x: BinanceDataView)
    requires
        binance_consensus(data, t, d) == Some(x),
    ensures
        x.spot_balances.len() == data[0].spot_balances.len(),
        forall|i: int|
            0 <= i < x.spot_balances.len() ==> (#[trigger] x.spot_balances[i]).asset == data[0].spot_balances[i].asset
                && Some(x.spot_balances[i].amount.value()) == spec_consensus::<SignedDecimal256>(
                Seq::new(data.len(), |j: int| data[j].spot_balances[i].amount.value()),
                t,
                d,
            ),
{
    assert(columns_agree(data, t, d));
    assert(x == agreed_binance(data, t, d));
    assert forall|i: int| 0 <= i < x.spot_balances.len() implies (#[trigger] x.spot_balances[i]).asset
        == data[0].spot_balances[i].asset && Some(x.spot_balances[i].amount.value())
        == spec_consensus::<SignedDecimal256>(
        Seq::new(data.len(), |j: int| data[j].spot_balances[i].amount.value()),
        t,
        d,
    ) by {
        assert(dec_consensus(spot_column(data, i), t, d) is Some);
        lemma_agreed_spot(data, t, d, i);
    }
}

/// Law: each agreed position of Binance data carries the first submission's symbol
/// and, as amount and PnL, the numeric consensus of those fields over all submissions.
pub proof fn lemma_binance_agreed_positions(data: Seq<BinanceDataView>, t: int, d: u64, x: BinanceDataView)
    requires
        binance_consensus(data, t, d) == Some(x),
    ensures
        x.positions.len() == data[0].positions.len(),
        forall|i: int|
            0 <= i < x.positions.len() ==> (#[trigger] x.positions[i]).symbol == data[0].positions[i].symbol
                && Some(x.positions[i].amount.value()) == spec_consensus::<SignedDecimal256>(
                Seq::new(data.len(), |j: int| data[j].positions[i].amount.value()),
                t,
                d,
            ) && Some(x.positions[i].pnl.value()) == spec_consensus::<SignedDecimal256>(
                Seq::new(data.len(), |j: int| data[j].positions[i].pnl.value()),
                t,
                d,
            ),
{
    assert(columns_agree(data, t, d));
    assert(x == agreed_binance(data, t, d));
    assert forall|i: int| 0 <= i < x.positions.len() implies (#[trigger] x.positions[i]).symbol
        == data[0].positions[i].symbol && Some(x.positions[i].amount.value())
        == spec_consensus::<SignedDecimal256>(
        Seq::new(data.len(), |j: int| data[j].positions[i].amount.value()),
        t,
        d,
    ) && Some(x.positions[i].pnl.value()) == spec_consensus::<SignedDecimal256>(
        Seq::new(data.len(), |j: int| data[j].positions[i].pnl.value()),
        t,
        d,
    ) by {
        assert(dec_consensus(position_column(data, i, 0), t, d) is Some);
        assert(dec_consensus(position_column(data, i, 1), t, d) is Some);
        lemma_agreed_position(data, t, d, i);
    }
}

/// The sum of a prefix does not depend on what follows it.
proof fn lemma_prefix_sum_prefix(s: Seq<SignedDecimal256>, x: SignedDecimal256, k: int)
    requires
        0 <= k <= s.len(),
    ensures
        prefix_sum(s.push(x), k) == prefix_sum(s, k),
    decreases k,
{
    if k > 0 {
        lemma_prefix_sum_prefix(s, x, k - 1);
        assert(s.push(x)[k - 1] == s[k - 1]);
    }
}

/// Law: the total of the spot balances in BTC adds up every balance: no balances give
/// zero, and one more balance adds exactly its own value.
pub proof fn lemma_spot_total_adds_each_balance(s: Seq<SignedDecimal256>, x: SignedDecimal256)
    ensures
        prefix_sum(s, 0) == 0,
        prefix_sum(s.push(x), s.len() + 1int) == prefix_sum(s, s.len() as int) + x.value(),
{
    lemma_prefix_sum_prefix(s, x, s.len() as int);
    assert(s.push(x)[s.len() as int] == x);
}

} // verus!
