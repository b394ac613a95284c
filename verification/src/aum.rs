use crate::decimal::{unit, Decimal};
use crate::sequences::{lemma_filter_prefix, lemma_filter_suffix};
use crate::twaer::{average_over, rate_times};
use vstd::prelude::*;
use vstd::string::StringExecFns;

verus! {

/// Errors of the AUM contract.
#[derive(Clone, Debug, PartialEq)]
pub enum ContractError {
    Std { msg: String },
    Unauthorized {},
    Overflow {},
    CheckedDiv {},
}

/// The contract's configuration.
#[derive(Clone, Debug, PartialEq)]
pub struct Config {
    pub owner: String,
    pub oracles: Vec<String>,
    pub maxbtc_denom: String,
    pub twa_window_seconds: u64,
}

/// Changes to the configuration; every field is optional.
#[derive(Clone, Debug, PartialEq)]
pub struct UpdateConfig {
    pub owner: Option<String>,
    pub oracles: Option<Vec<String>>,
    pub twa_window_seconds: Option<u64>,
}

/// An exchange rate recorded at a time and block height.
#[derive(Clone, Copy, Debug, PartialEq, Eq, Structural)]
pub struct ExchangeRateDataPoint {
    pub rate: Decimal,
    pub timestamp: u64,
    pub block_height: u64,
}

/// The recorded rates within the window, and how many there are.
#[derive(Clone, Debug, PartialEq)]
pub struct GetHistoricalDataResponse {
    pub data_points: Vec<ExchangeRateDataPoint>,
    pub total_count: u32,
}

/// The recorded rates are in strictly ascending time.
pub open spec fn points_ascending(h: Seq<ExchangeRateDataPoint>) -> bool {
    forall|i: int, j: int| 0 <= i < j < h.len() ==> h[i].timestamp < h[j].timestamp
}

/// The start of the window that ends at `now`.
pub open spec fn window_start(now: u64, window: u64) -> u64 {
    if now >= window {
        (now - window) as u64
    } else {
        0
    }
}

/// The points recorded at or after time `w`.
pub open spec fn at_or_after(w: u64) -> spec_fn(ExchangeRateDataPoint) -> bool {
    |p: ExchangeRateDataPoint| p.timestamp >= w
}

/// The points recorded before time `t`.
pub open spec fn before(t: u64) -> spec_fn(ExchangeRateDataPoint) -> bool {
    |p: ExchangeRateDataPoint| p.timestamp < t
}

/// The points recorded after time `t`.
pub open spec fn after(t: u64) -> spec_fn(ExchangeRateDataPoint) -> bool {
    |p: ExchangeRateDataPoint| p.timestamp > t
}

/// The points of the window ending at `now`.
pub open spec fn in_window(h: Seq<ExchangeRateDataPoint>, now: u64, window: u64) -> Seq<ExchangeRateDataPoint> {
    h.filter(at_or_after(window_start(now, window)))
}

/// The time point `k` of the window counts for: until the next point, the last one until `now`.
pub open spec fn weight_of(p: Seq<ExchangeRateDataPoint>, now: u64, k: int) -> int {
    (if k + 1 < p.len() {
        p[k + 1].timestamp as int
    } else {
        now as int
    }) - p[k].timestamp
}

/// The first `i` rates, each weighted by the time it counts for.
pub open spec fn weighted_upto(p: Seq<ExchangeRateDataPoint>, now: u64, i: int) -> int
    decreases i,
{
    if i <= 0 {
        0
    } else {
        weighted_upto(p, now, i - 1) + p[i - 1].rate.value() * weight_of(p, now, i - 1)
    }
}

/// Each rate weighted by the time until the next one, the last one until `now`.
pub open spec fn weighted_until(p: Seq<ExchangeRateDataPoint>, now: u64) -> int {
    weighted_upto(p, now, p.len() as int)
}

/// The time-weighted average of the window ending at `now`: `None` for an empty
/// window, the last rate when no time has passed, an overflow when the weighted
/// sum leaves the decimal range.
pub open spec fn twa_of(p: Seq<ExchangeRateDataPoint>, now: u64) -> Result<Option<Decimal>, ()> {
    if p.len() == 0 {
        Ok(None)
    } else if weighted_until(p, now) > u128::MAX {
        Err(())
    } else if now - p[0].timestamp == 0 {
        Ok(Some(p.last().rate))
    } else {
        Ok(Some(Decimal { atomics: (weighted_until(p, now) / (now - p[0].timestamp)) as u128 }))
    }
}

/// The number of points recorded before `w`, in ascending time.
fn count_before(h: &Vec<ExchangeRateDataPoint>, w: u64) -> (k: usize)
    requires
        points_ascending(h@),
    ensures
        k <= h@.len(),
        forall|i: int| 0 <= i < k ==> (#[trigger] h@[i]).timestamp < w,
        forall|i: int| k <= i < h@.len() ==> (#[trigger] h@[i]).timestamp >= w,
{
    let mut k: usize = 0;
    while k < h.len() && h[k].timestamp < w
        invariant
            k <= h@.len(),
            points_ascending(h@),
            forall|i: int| 0 <= i < k ==> (#[trigger] h@[i]).timestamp < w,
        decreases h@.len() - k,
    {
        k += 1;
    }
    proof {
        assert forall|i: int| k <= i < h@.len() implies (#[trigger] h@[i]).timestamp >= w by {
            if i > k {
                assert(h@[k as int].timestamp < h@[i].timestamp);
            }
        }
    }
    k
}

/// The points of the history from position `k` on.
fn suffix_from(h: &Vec<ExchangeRateDataPoint>, k: usize) -> (r: Vec<ExchangeRateDataPoint>)
    requires
        k <= h@.len(),
    ensures
        r@ == h@.subrange(k as int, h@.len() as int),
{
    let mut out: Vec<ExchangeRateDataPoint> = Vec::new();
    let mut i: usize = k;
    while i < h.len()
        invariant
            k <= i <= h@.len(),
            out@ == h@.subrange(k as int, i as int),
        decreases h@.len() - i,
    {
        out.push(h[i]);
        proof {
            assert(out@ =~= h@.subrange(k as int, i + 1));
        }
        i += 1;
    }
    out
}

/// The points of the window ending at `now`.
pub fn points_in_window(history: &Vec<ExchangeRateDataPoint>, now: u64, window: u64) -> (r: Vec<
    ExchangeRateDataPoint,
>)
    requires
        points_ascending(history@),
    ensures
        r@ == in_window(history@, now, window),
        points_ascending(r@),
{
    let start = now.saturating_sub(window);
    let k = count_before(history, start);
    proof {
        lemma_filter_suffix(history@, at_or_after(start), k as int);
    }
    suffix_from(history, k)
}

/// Removes the points older than the window ending at `current_timestamp`.
pub fn cleanup_old_data_points(
    history: &mut Vec<ExchangeRateDataPoint>,
    current_timestamp: u64,
    twa_window_seconds: u64,
)
    requires
        points_ascending(old(history)@),
    ensures
        final(history)@ == in_window(old(history)@, current_timestamp, twa_window_seconds),
        points_ascending(final(history)@),
{
    let kept = points_in_window(history, current_timestamp, twa_window_seconds);
    *history = kept;
}

/// Records a rate (replacing one at the same time) and drops the points older than
/// the window.
pub fn store_exchange_rate(
    history: &mut Vec<ExchangeRateDataPoint>,
    point: ExchangeRateDataPoint,
    twa_window_seconds: u64,
)
    requires
        points_ascending(old(history)@),
    ensures
        final(history)@ == in_window(
            old(history)@.filter(before(point.timestamp)) + seq![point] + old(history)@.filter(
                after(point.timestamp),
            ),
            point.timestamp,
            twa_window_seconds,
        ),
        points_ascending(final(history)@),
{
    let ghost h = history@;
    let t = point.timestamp;
    let k = count_before(history, t);
    proof {
        lemma_filter_prefix(h, before(t), k as int);
    }
    if k < history.len() && history[k].timestamp == t {
        history.set(k, point);
        proof {
            assert forall|i: int| 0 <= i < k + 1 implies !(after(t)(#[trigger] h[i])) by {
                if i < k {
                    assert(h[i].timestamp < t);
                }
            }
            assert forall|i: int| k + 1 <= i < h.len() implies after(t)(#[trigger] h[i]) by {
                assert(h[k as int].timestamp < h[i].timestamp);
            }
            lemma_filter_suffix(h, after(t), k + 1);
            assert(history@ =~= h.subrange(0, k as int) + seq![point] + h.subrange(k + 1, h.len() as int));
        }
    } else {
        history.insert(k, point);
        proof {
            assert forall|i: int| 0 <= i < k implies !(after(t)(#[trigger] h[i])) by {
                assert(h[i].timestamp < t);
            }
            assert forall|i: int| k <= i < h.len() implies after(t)(#[trigger] h[i]) by {
                if i == k {
                    assert(h[i].timestamp != t);
                }
            }
            lemma_filter_suffix(h, after(t), k as int);
            assert(history@ =~= h.subrange(0, k as int) + seq![point] + h.subrange(k as int, h.len() as int));
        }
    }
    cleanup_old_data_points(history, t, twa_window_seconds);
}

/// Each weighted prefix is at most the next one, when the times do not go back.
proof fn lemma_weighted_grows(p: Seq<ExchangeRateDataPoint>, now: u64, i: int, j: int)
    requires
        0 <= i <= j <= p.len(),
        points_ascending(p),
        p.len() > 0 ==> now >= p.last().timestamp,
    ensures
        0 <= weighted_upto(p, now, i) <= weighted_upto(p, now, j),
    decreases j,
{
    if j > 0 {
        if i < j {
            lemma_weighted_grows(p, now, i, j - 1);
        } else {
            lemma_weighted_grows(p, now, i - 1, j - 1);
        }
        let k = j - 1;
        assert(weight_of(p, now, k) >= 0) by {
            if k + 1 < p.len() {
                assert(p[k].timestamp < p[k + 1].timestamp);
            } else {
                assert(p[k] == p.last());
            }
        }
        assert(p[k].rate.value() * weight_of(p, now, k) >= 0) by (nonlinear_arith)
            requires
                p[k].rate.value() >= 0,
                weight_of(p, now, k) >= 0,
        ;
    }
}

/// The time-weighted average exchange rate of the window ending at `now`; `None`
/// when the window holds no rate (the instant rate is used then).
pub fn calculate_twa_exchange_rate(history: &Vec<ExchangeRateDataPoint>, now: u64, twa_window_seconds: u64) -> (r:
    Result<Option<Decimal>, ContractError>)
    requires
        points_ascending(history@),
        in_window(history@, now, twa_window_seconds).len() > 0 ==> now >= in_window(
            history@,
            now,
            twa_window_seconds,
        ).last().timestamp,
    ensures
        match twa_of(in_window(history@, now, twa_window_seconds), now) {
            Ok(x) => r == Ok::<Option<Decimal>, ContractError>(x),
            Err(()) => r matches Err(e) && e is Overflow,
        },
{
    let points = points_in_window(history, now, twa_window_seconds);
    let ghost p = points@;
    let n = points.len();
    if n == 0 {
        return Ok(None);
    }
    let mut weighted_sum = Decimal::zero();
    let mut total_weight: u64 = 0;
    let mut i: usize = 0;
    while i < n
        invariant
            n == p.len(),
            n > 0,
            p == points@,
            p == in_window(history@, now, twa_window_seconds),
            i <= n,
            points_ascending(p),
            now >= p.last().timestamp,
            weighted_sum.value() == weighted_upto(p, now, i as int),
            total_weight == (if i == 0 {
                p[0].timestamp as int
            } else if i < n {
                p[i as int].timestamp as int
            } else {
                now as int
            }) - p[0].timestamp,
        decreases n - i,
    {
        let next_timestamp = if i + 1 < n {
            points[i + 1].timestamp
        } else {
            now
        };
        proof {
            if i + 1 < n {
                assert(p[i as int].timestamp < p[i + 1].timestamp);
            } else {
                assert(p[i as int] == p.last());
            }
            if i > 0 {
                assert(p[0].timestamp < p[i as int].timestamp);
            }
        }
        let weight = next_timestamp - points[i].timestamp;
        proof {
            assert(weight as int == weight_of(p, now, i as int));
            lemma_weighted_grows(p, now, 0, i as int);
        }
        let contribution = match rate_times(points[i].rate, weight) {
            Some(c) => c,
            None => {
                proof {
                    assert(weighted_upto(p, now, i as int + 1) == weighted_upto(p, now, i as int)
                        + p[i as int].rate.value() * weight_of(p, now, i as int));
                    lemma_weighted_grows(p, now, i as int + 1, n as int);
                }
                return Err(ContractError::Overflow {});
            },
        };
        proof {
            assert(weighted_upto(p, now, i as int + 1) == weighted_upto(p, now, i as int)
                + contribution.value());
        }
        weighted_sum = match weighted_sum.checked_add(contribution) {
            Some(x) => x,
            None => {
                proof {
                    lemma_weighted_grows(p, now, i as int + 1, n as int);
                }
                return Err(ContractError::Overflow {});
            },
        };
        total_weight = total_weight + weight;
        i += 1;
    }
    if total_weight == 0 {
        return Ok(Some(points[n - 1].rate));
    }
    Ok(Some(average_over(weighted_sum, total_weight)))
}

/// The points of the window ending at `now`, at most the last `limit` of them
/// (100 when no limit is given), with the number of points in the window.
pub fn query_get_historical_data(history: &Vec<ExchangeRateDataPoint>, now: u64, twa_window_seconds: u64, limit: Option<u32>) -> (r:
    GetHistoricalDataResponse)
    requires
        points_ascending(history@),
    ensures
        ({
            let w = in_window(history@, now, twa_window_seconds);
            let l = match limit {
                Some(l) => l as int,
                None => 100,
            };
            &&& r.total_count == w.len() as u32
            &&& r.data_points@ == (if w.len() > l {
                w.subrange(w.len() - l, w.len() as int)
            } else {
                w
            })
        }),
{
    let points = points_in_window(history, now, twa_window_seconds);
    let total_count = points.len() as u32;
    let limit = match limit {
        Some(l) => l,
        None => 100,
    };
    if points.len() > limit as usize {
        let data_points = suffix_from(&points, points.len() - limit as usize);
        GetHistoricalDataResponse { data_points, total_count }
    } else {
        GetHistoricalDataResponse { data_points: points, total_count }
    }
}

/// The number of points in the window ending at `now`.
pub fn query_get_data_point_count(history: &Vec<ExchangeRateDataPoint>, now: u64, twa_window_seconds: u64) -> (r: u32)
    requires
        points_ascending(history@),
    ensures
        r == in_window(history@, now, twa_window_seconds).len() as u32,
{
    let points = points_in_window(history, now, twa_window_seconds);
    points.len() as u32
}

/// The sender must be the owner.
pub fn check_owner(config: &Config, sender: &String) -> (r: Result<(), ContractError>)
    ensures
        r is Ok <==> sender@ == config.owner@,
        r matches Err(e) ==> e is Unauthorized,
{
    if crate::strings::str_eq(sender, &config.owner) {
        Ok(())
    } else {
        Err(ContractError::Unauthorized {})
    }
}

/// The configuration after an update by `sender`: only the owner may update it, and
/// each field that is given replaces the stored one.
pub fn execute_update_config(config: Config, sender: &String, new_config: UpdateConfig) -> (r: Result<
    Config,
    ContractError,
>)
    ensures
        sender@ != config.owner@ ==> (r matches Err(e) && e is Unauthorized),
        sender@ == config.owner@ ==> (r matches Ok(c) && c == (Config {
            owner: match new_config.owner {
                Some(o) => o,
                None => config.owner,
            },
            oracles: match new_config.oracles {
                Some(o) => o,
                None => config.oracles,
            },
            maxbtc_denom: config.maxbtc_denom,
            twa_window_seconds: match new_config.twa_window_seconds {
                Some(t) => t,
                None => config.twa_window_seconds,
            },
        })),
{
    match check_owner(&config, sender) {
        Ok(()) => {},
        Err(e) => {
            return Err(e);
        },
    }
    let mut c = config;
    if let Some(oracles) = new_config.oracles {
        c.oracles = oracles;
    }
    if let Some(owner) = new_config.owner {
        c.owner = owner;
    }
    if let Some(t) = new_config.twa_window_seconds {
        c.twa_window_seconds = t;
    }
    Ok(c)
}

/// The history after recording `point`: the point replaces one at the same time,
/// and only the points of the window ending at the point's time stay.
pub open spec fn recorded_history(h: Seq<ExchangeRateDataPoint>, point: ExchangeRateDataPoint, window: u64) -> Seq<
    ExchangeRateDataPoint,
> {
    in_window(h.filter(before(point.timestamp)) + seq![point] + h.filter(after(point.timestamp)), point.timestamp, window)
}

/// The message of the error for a TWA rate that was never calculated.
pub open spec fn twa_missing(e: ContractError) -> bool {
    e matches ContractError::Std { msg } && msg@
        == "TWA exchange rate not yet calculated. Call UpdateTwaExchangeRate first."@
}

/// The stored state of the AUM contract: the recorded instant rates, in ascending
/// time, and the last TWA rate that was calculated.
pub struct AumState {
    pub history: Vec<ExchangeRateDataPoint>,
    pub twa_exchange_rate: Option<Decimal>,
}

impl AumState {
    pub open spec fn wf(self) -> bool {
        points_ascending(self.history@)
    }

    /// The state of a new contract: no rate recorded, no TWA rate.
    pub fn new() -> (s: AumState)
        ensures
            s.wf(),
            s.history@.len() == 0,
            s.twa_exchange_rate is None,
    {
        AumState { history: Vec::new(), twa_exchange_rate: None }
    }

    /// The owner records the instant rate `rate` at time `now` and height `height`;
    /// the points older than the window are dropped.
    pub fn store_instant_exchange_rate(
        &mut self,
        config: &Config,
        sender: &String,
        rate: Decimal,
        now: u64,
        height: u64,
    ) -> (r: Result<(), ContractError>)
        requires
            old(self).wf(),
        ensures
            final(self).wf(),
            final(self).twa_exchange_rate == old(self).twa_exchange_rate,
            sender@ != config.owner@ ==> (r matches Err(e) && e is Unauthorized) && final(self).history@
                == old(self).history@,
            sender@ == config.owner@ ==> r is Ok && final(self).history@ == recorded_history(
                old(self).history@,
                ExchangeRateDataPoint { rate, timestamp: now, block_height: height },
                config.twa_window_seconds,
            ),
    {
        match check_owner(config, sender) {
            Ok(()) => {},
            Err(e) => {
                return Err(e);
            },
        }
        let point = ExchangeRateDataPoint { rate, timestamp: now, block_height: height };
        store_exchange_rate(&mut self.history, point, config.twa_window_seconds);
        Ok(())
    }

    /// The owner asks for the TWA rate at time `now`: it is stored and returned as
    /// `Some` when the window holds a rate; `None` asks for the instant rate, which
    /// `save_twa_exchange_rate` then stores.
    pub fn update_twa_exchange_rate(&mut self, config: &Config, sender: &String, now: u64) -> (r: Result<
        Option<Decimal>,
        ContractError,
    >)
        requires
            old(self).wf(),
            in_window(old(self).history@, now, config.twa_window_seconds).len() > 0 ==> now >= in_window(
                old(self).history@,
                now,
                config.twa_window_seconds,
            ).last().timestamp,
        ensures
            final(self).wf(),
            final(self).history@ == old(self).history@,
            sender@ != config.owner@ ==> (r matches Err(e) && e is Unauthorized),
            sender@ == config.owner@ ==> match twa_of(in_window(old(self).history@, now, config.twa_window_seconds), now) {
                Ok(x) => r == Ok::<Option<Decimal>, ContractError>(x),
                Err(()) => r matches Err(e) && e is Overflow,
            },
            r matches Ok(Some(x)) ==> final(self).twa_exchange_rate == Some(x),
            !(r matches Ok(Some(_))) ==> final(self).twa_exchange_rate == old(self).twa_exchange_rate,
    {
        match check_owner(config, sender) {
            Ok(()) => {},
            Err(e) => {
                return Err(e);
            },
        }
        let twa = calculate_twa_exchange_rate(&self.history, now, config.twa_window_seconds);
        if let Ok(Some(x)) = twa {
            self.twa_exchange_rate = Some(x);
        }
        twa
    }

    /// Stores `rate` as the TWA rate.
    pub fn save_twa_exchange_rate(&mut self, rate: Decimal)
        requires
            old(self).wf(),
        ensures
            final(self).wf(),
            final(self).history@ == old(self).history@,
            final(self).twa_exchange_rate == Some(rate),
    {
        self.twa_exchange_rate = Some(rate);
    }

    /// The last TWA rate that was calculated.
    pub fn query_get_twa_exchange_rate(&self) -> (r: Result<Decimal, ContractError>)
        ensures
            match self.twa_exchange_rate {
                Some(x) => r == Ok::<Decimal, ContractError>(x),
                None => r matches Err(e) && twa_missing(e),
            },
            r is Ok <==> twa_answer(self.twa_exchange_rate) is Some,
            r matches Ok(x) ==> twa_answer(self.twa_exchange_rate) == Some(x),
    {
        match self.twa_exchange_rate {
            Some(x) => Ok(x),
            None => Err(
                ContractError::Std {
                    msg: String::from_str(
                        "TWA exchange rate not yet calculated. Call UpdateTwaExchangeRate first.",
                    ),
                },
            ),
        }
    }
}

/// The instant exchange rate: the AUM over the maxBTC supply.
pub fn calc_exchange_rate(aum: u128, supply: u128) -> (r: Decimal)
    requires
        supply > 0,
        aum * unit() / (supply as int) <= u128::MAX,
    ensures
        r.value() == aum * unit() / (supply as int),
{
    Decimal::checked_from_ratio(aum, supply).unwrap()
}

/// The sum of the first `k` AUMs.
pub open spec fn sum_of(s: Seq<u128>, k: int) -> int
    decreases k,
{
    if k <= 0 {
        0
    } else {
        sum_of(s, k - 1) + s[k - 1]
    }
}

/// The total of the oracles' AUMs.
pub fn get_aum(oracle_aums: &[u128]) -> (r: u128)
    requires
        sum_of(oracle_aums@, oracle_aums@.len() as int) <= u128::MAX,
    ensures
        r == sum_of(oracle_aums@, oracle_aums@.len() as int),
{
    let mut total: u128 = 0;
    let mut k: usize = 0;
    while k < oracle_aums.len()
        invariant
            k <= oracle_aums@.len(),
            total == sum_of(oracle_aums@, k as int),
            sum_of(oracle_aums@, oracle_aums@.len() as int) <= u128::MAX,
        decreases oracle_aums@.len() - k,
    {
        proof {
            lemma_sum_grows(oracle_aums@, k as int + 1, oracle_aums@.len() as int);
        }
        total = total + oracle_aums[k];
        k += 1;
    }
    total
}

proof fn lemma_sum_grows(s: Seq<u128>, i: int, j: int)
    requires
        0 <= i <= j <= s.len(),
    ensures
        0 <= sum_of(s, i) <= sum_of(s, j),
    decreases j,
{
    if j > 0 {
        if i < j {
            lemma_sum_grows(s, i, j - 1);
        } else {
            lemma_sum_grows(s, i - 1, j - 1);
        }
    }
}

/// The TWA rate that the query answers with, if one was stored.
pub open spec fn twa_answer(stored: Option<Decimal>) -> Option<Decimal> {
    stored
}

/// A TWA rate that the owner's update stored is what the query answers afterwards.
pub proof fn lemma_update_then_query(r: Result<Option<Decimal>, ContractError>, stored: Option<Decimal>, x: Decimal)
    requires
        r == Ok::<Option<Decimal>, ContractError>(Some(x)),
        r matches Ok(Some(y)) ==> stored == Some(y),
    ensures
        twa_answer(stored) == Some(x),
{
}

/// A recorded rate is kept in the history: it lies within the window that ends
/// at its own time.
pub proof fn lemma_recorded_point_kept(h: Seq<ExchangeRateDataPoint>, point: ExchangeRateDataPoint, window: u64)
    ensures
        recorded_history(h, point, window).contains(point),
{
    let t = point.timestamp;
    let all = h.filter(before(t)) + seq![point] + h.filter(after(t));
    let k = h.filter(before(t)).len() as int;
    assert(all[k] == point);
    assert(at_or_after(window_start(t, window))(point));
    all.lemma_filter_contains(at_or_after(window_start(t, window)), k);
}

/// The sum of a prefix does not depend on what follows it.
proof fn lemma_sum_of_prefix(s: Seq<u128>, x: u128, k: int)
    requires
        0 <= k <= s.len(),
    ensures
        sum_of(s.push(x), k) == sum_of(s, k),
    decreases k,
{
    if k > 0 {
        lemma_sum_of_prefix(s, x, k - 1);
        assert(s.push(x)[k - 1] == s[k - 1]);
    }
}

/// Law: the total AUM adds up every oracle's AUM: no oracles give zero, and one more
/// oracle adds exactly its own AUM.
pub proof fn lemma_get_aum_adds_each_oracle(s: Seq<u128>, x: u128)
    ensures
        sum_of(s, 0) == 0,
        sum_of(s.push(x), s.len() + 1int) == sum_of(s, s.len() as int) + x,
{
    lemma_sum_of_prefix(s, x, s.len() as int);
    assert(s.push(x)[s.len() as int] == x);
}

} // verus!
