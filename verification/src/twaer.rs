use crate::decimal::{fits_i256, unit, Decimal, Int256Parts};
use vstd::string::StringExecFns;
use crate::sequences::{lemma_filter_prefix, lemma_filter_step, lemma_filter_suffix};
use vstd::prelude::*;

verus! {

/// Errors of the time-weighted exchange rate contract.
#[derive(Clone, Debug, PartialEq)]
pub enum ContractError {
    Std { msg: String },
    Unauthorized {},
    PublicationToSoon { next_pub_time: u64 },
    TwaerNotCalculated {},
    Overflow {},
    CheckedDiv {},
    DuplicateDataPoint { timestamp: u64 },
    NoNextTimestamp { timestamp: u64 },
    NoLatestRate {},
    ConversionError { aum: Int256Parts },
}

/// The contract's configuration.
#[derive(Clone, Debug, PartialEq)]
pub struct Config {
    /// the address allowed to record the exchange rate
    pub recorder: String,
    /// the address allowed to publish the TWAER
    pub publisher: String,
    /// the AUM oracles whose AUMs are summed up
    pub aum_oracles: Vec<String>,
    /// the maxBTC core contract
    pub maxbtc_core_contract: String,
    /// the time window of the average, in seconds
    pub twa_window_seconds: u64,
    /// the least number of seconds between two publications
    pub twaer_immutability_seconds: u64,
}

/// Changes to the configuration; every field is optional.
#[derive(Clone, Debug, PartialEq)]
pub struct UpdateConfig {
    pub publisher: Option<String>,
    pub recorder: Option<String>,
    pub aum_oracles: Option<Vec<String>>,
    pub maxbtc_core_contract: Option<String>,
    pub twa_window_seconds: Option<u64>,
    pub twaer_immutability_seconds: Option<u64>,
}

/// The configuration of the maxBTC core contract that this contract reads.
#[derive(Clone, Debug, PartialEq)]
pub struct MaxBTCCoreConfig {
    pub deposit_denom: String,
    pub maxbtc_denom: String,
}

/// The contract needs no data for a migration.
#[derive(Clone, Copy, Debug, PartialEq, Eq, Structural)]
pub struct MigrateMsg {}

/// The incremental state of the time-weighted average over the recorded rates.
#[derive(Clone, Copy, Debug, PartialEq, Eq, Structural)]
pub struct TwaAggregator {
    /// the sum of each rate times the time until the next one (in decimal atomics)
    pub weighted_sum: Decimal,
    /// the weighted sum over the length of the window
    pub current_twa: Decimal,
    /// the time of the oldest rate in the window
    pub window_start: u64,
    /// the time of the newest rate in the window
    pub window_end: u64,
}

impl TwaAggregator {
    /// The aggregator of a window with a single rate.
    pub fn from_single_point(timestamp: u64, rate: Decimal) -> (r: TwaAggregator)
        ensures
            r == single_point(timestamp, rate),
    {
        TwaAggregator { weighted_sum: Decimal::zero(), current_twa: rate, window_start: timestamp, window_end: timestamp }
    }
}

pub open spec fn single_point(timestamp: u64, rate: Decimal) -> TwaAggregator {
    TwaAggregator {
        weighted_sum: Decimal { atomics: 0 },
        current_twa: rate,
        window_start: timestamp,
        window_end: timestamp,
    }
}

/// The times of the recorded rates are strictly ascending.
pub open spec fn times_ascending(h: Seq<(u64, Decimal)>) -> bool {
    forall|i: int, j: int| 0 <= i < j < h.len() ==> h[i].0 < h[j].0
}

/// Each rate times the time until the next one, summed (in decimal atomics).
pub open spec fn weighted_sum_of(h: Seq<(u64, Decimal)>) -> int
    decreases h.len(),
{
    if h.len() < 2 {
        0
    } else {
        weighted_sum_of(h.drop_last()) + h[h.len() - 2].1.value() * (h.last().0 - h[h.len() - 2].0)
    }
}

/// The aggregator recomputed from the history: none for an empty history, a
/// single point for one rate; otherwise the weighted sum and its average over the
/// window, or an overflow when the weighted sum leaves the decimal range.
pub open spec fn recalculated(h: Seq<(u64, Decimal)>) -> Result<Option<TwaAggregator>, ()> {
    if h.len() == 0 {
        Ok(None)
    } else if h.len() == 1 {
        Ok(Some(single_point(h[0].0, h[0].1)))
    } else if weighted_sum_of(h) > u128::MAX {
        Err(())
    } else {
        let ws = weighted_sum_of(h);
        let span = h.last().0 - h[0].0;
        Ok(
            Some(
                TwaAggregator {
                    weighted_sum: Decimal { atomics: ws as u128 },
                    current_twa: Decimal { atomics: (ws / span) as u128 },
                    window_start: h[0].0,
                    window_end: h.last().0,
                },
            ),
        )
    }
}

/// `rate` times a whole number of seconds, as `rate * Decimal::from_ratio(seconds, 1)`.
pub fn rate_times(rate: Decimal, seconds: u64) -> (r: Option<Decimal>)
    ensures
        match r {
            Some(x) => x.value() == rate.value() * seconds && rate.value() * seconds <= u128::MAX,
            None => rate.value() * seconds > u128::MAX,
        },
{
    let factor = Decimal::checked_from_ratio(seconds as u128, 1).unwrap();
    proof {
        vstd::arithmetic::div_mod::lemma_div_by_multiple(seconds as int, unit());
        assert(rate.value() * (seconds * unit()) == (rate.value() * seconds) * unit()) by (nonlinear_arith);
        assert(rate.value() * seconds >= 0) by (nonlinear_arith)
            requires
                rate.value() >= 0,
        ;
        vstd::arithmetic::div_mod::lemma_div_by_multiple(rate.value() * seconds, unit());
    }
    rate.checked_mul(factor)
}

/// The weighted sum over a span, as `sum / Decimal::from_ratio(span, 1)`.
pub fn average_over(sum: Decimal, span: u64) -> (r: Decimal)
    requires
        span > 0,
    ensures
        r.value() == sum.value() / (span as int),
{
    let divisor = Decimal::checked_from_ratio(span as u128, 1).unwrap();
    proof {
        vstd::arithmetic::div_mod::lemma_div_by_multiple(span as int, unit());
        assert((sum.value() * unit()) / (span * unit()) == sum.value() / (span as int)) by {
            vstd::arithmetic::div_mod::lemma_div_denominator(sum.value() * unit(), unit(), span as int);
            vstd::arithmetic::div_mod::lemma_div_by_multiple(sum.value(), unit());
            assert(span * unit() == unit() * span) by (nonlinear_arith);
        }
        assert(sum.value() / (span as int) <= sum.value()) by {
            vstd::arithmetic::div_mod::lemma_div_is_ordered_by_denominator(sum.value(), 1, span as int);
        }
    }
    sum.checked_div(divisor).unwrap()
}

/// Recalculates the aggregator from scratch from the history (in ascending time).
pub fn recalculate_twa_aggregator(history: &[(u64, Decimal)]) -> (r: Result<Option<TwaAggregator>, ContractError>)
    requires
        times_ascending(history@),
    ensures
        match recalculated(history@) {
            Ok(a) => r == Ok::<Option<TwaAggregator>, ContractError>(a),
            Err(()) => r matches Err(e) && e is Overflow,
        },
{
    let n = history.len();
    if n == 0 {
        return Ok(None);
    }
    if n == 1 {
        let (timestamp, rate) = history[0];
        return Ok(Some(TwaAggregator::from_single_point(timestamp, rate)));
    }
    let mut weighted_sum = Decimal::zero();
    let mut i: usize = 0;
    while i < n - 1
        invariant
            n == history@.len(),
            n >= 2,
            i <= n - 1,
            times_ascending(history@),
            weighted_sum.value() == weighted_sum_of(history@.subrange(0, i + 1)),
        decreases n - 1 - i,
    {
        let (start_ts, start_rate) = history[i];
        let (end_ts, _) = history[i + 1];
        let duration = end_ts - start_ts;
        proof {
            let p = history@.subrange(0, i + 2);
            assert(p.drop_last() =~= history@.subrange(0, i + 1));
        }
        let contribution = match rate_times(start_rate, duration) {
            Some(c) => c,
            None => {
                proof {
                    lemma_weighted_sum_grows(history@, i + 2);
                }
                return Err(ContractError::Overflow {});
            },
        };
        weighted_sum = match weighted_sum.checked_add(contribution) {
            Some(s) => s,
            None => {
                proof {
                    lemma_weighted_sum_grows(history@, i + 2);
                }
                return Err(ContractError::Overflow {});
            },
        };
        i += 1;
    }
    proof {
        assert(history@.subrange(0, n as int) =~= history@);
    }
    let window_start = history[0].0;
    let window_end = history[n - 1].0;
    let current_twa = average_over(weighted_sum, window_end - window_start);
    Ok(Some(TwaAggregator { weighted_sum, current_twa, window_start, window_end }))
}

/// The weighted sum of a prefix is at most that of the whole history.
proof fn lemma_weighted_sum_grows(h: Seq<(u64, Decimal)>, k: int)
    requires
        0 <= k <= h.len(),
        times_ascending(h),
    ensures
        weighted_sum_of(h.subrange(0, k)) <= weighted_sum_of(h),
        weighted_sum_of(h.subrange(0, k)) >= 0,
    decreases h.len() - k,
{
    assert(times_ascending(h.subrange(0, k)));
    lemma_weighted_sum_nonneg(h.subrange(0, k));
    if k < h.len() {
        lemma_weighted_sum_grows(h, k + 1);
        let p = h.subrange(0, k + 1);
        assert(p.drop_last() =~= h.subrange(0, k));
        if k >= 1 {
            assert(p[k - 1].1.value() * (p[k].0 - p[k - 1].0) >= 0) by (nonlinear_arith)
                requires
                    p[k - 1].1.value() >= 0,
                    p[k].0 - p[k - 1].0 >= 0,
            ;
        }
    } else {
        assert(h.subrange(0, k) =~= h);
        lemma_weighted_sum_nonneg(h);
    }
}

proof fn lemma_weighted_sum_nonneg(h: Seq<(u64, Decimal)>)
    requires
        times_ascending(h),
    ensures
        weighted_sum_of(h) >= 0,
    decreases h.len(),
{
    if h.len() >= 2 {
        let d = h.drop_last();
        lemma_weighted_sum_nonneg(d);
        assert(h[h.len() - 2].1.value() * (h.last().0 - h[h.len() - 2].0) >= 0) by (nonlinear_arith)
            requires
                h[h.len() - 2].1.value() >= 0,
                h.last().0 - h[h.len() - 2].0 >= 0,
        ;
    }
}

/// The history with the rate at time `t` set to `r` (added or replaced).
pub open spec fn upsert(h: Seq<(u64, Decimal)>, t: u64, r: Decimal) -> Seq<(u64, Decimal)> {
    h.filter(|p: (u64, Decimal)| p.0 < t) + seq![(t, r)] + h.filter(|p: (u64, Decimal)| p.0 > t)
}

/// The rates not recorded at time `t`.
pub open spec fn not_at(t: u64) -> spec_fn((u64, Decimal)) -> bool {
    |p: (u64, Decimal)| p.0 != t
}

/// The history without the rate at time `t`.
pub open spec fn without(h: Seq<(u64, Decimal)>, t: u64) -> Seq<(u64, Decimal)> {
    h.filter(not_at(t))
}

/// The rates recorded at or after time `w`.
pub open spec fn from_time(h: Seq<(u64, Decimal)>, w: u64) -> Seq<(u64, Decimal)> {
    h.filter(|p: (u64, Decimal)| p.0 >= w)
}

/// The rates recorded before time `w`.
pub open spec fn before_time(h: Seq<(u64, Decimal)>, w: u64) -> Seq<(u64, Decimal)> {
    h.filter(|p: (u64, Decimal)| p.0 < w)
}

/// The number of rates recorded before time `w`, in a history in ascending time.
fn count_before(h: &Vec<(u64, Decimal)>, w: u64) -> (k: usize)
    requires
        times_ascending(h@),
    ensures
        k <= h@.len(),
        forall|i: int| 0 <= i < k ==> (#[trigger] h@[i]).0 < w,
        forall|i: int| k <= i < h@.len() ==> (#[trigger] h@[i]).0 >= w,
{
    let mut k: usize = 0;
    while k < h.len() && h[k].0 < w
        invariant
            k <= h@.len(),
            times_ascending(h@),
            forall|i: int| 0 <= i < k ==> (#[trigger] h@[i]).0 < w,
        decreases h@.len() - k,
    {
        k += 1;
    }
    proof {
        assert forall|i: int| k <= i < h@.len() implies (#[trigger] h@[i]).0 >= w by {
            if i > k {
                assert(h@[k as int].0 < h@[i].0);
            }
        }
    }
    k
}

/// The rates of the history recorded before `window_start`, in ascending time.
pub fn determine_expired_rates(history: &Vec<(u64, Decimal)>, window_start: u64) -> (r: Vec<(u64, Decimal)>)
    requires
        times_ascending(history@),
    ensures
        r@ == before_time(history@, window_start),
{
    let k = count_before(history, window_start);
    let mut out: Vec<(u64, Decimal)> = Vec::new();
    let mut i: usize = 0;
    while i < k
        invariant
            i <= k <= history@.len(),
            out@ == history@.subrange(0, i as int),
        decreases k - i,
    {
        out.push(history[i]);
        proof {
            assert(out@ =~= history@.subrange(0, i + 1));
        }
        i += 1;
    }
    proof {
        lemma_filter_prefix(history@, |p: (u64, Decimal)| p.0 < window_start, k as int);
    }
    out
}

/// The history keeping only the rates recorded at or after `window_start`.
fn keep_from(history: &Vec<(u64, Decimal)>, window_start: u64) -> (r: Vec<(u64, Decimal)>)
    requires
        times_ascending(history@),
    ensures
        r@ == from_time(history@, window_start),
        times_ascending(r@),
{
    let k = count_before(history, window_start);
    let mut out: Vec<(u64, Decimal)> = Vec::new();
    let mut i: usize = k;
    while i < history.len()
        invariant
            k <= i <= history@.len(),
            out@ == history@.subrange(k as int, i as int),
        decreases history@.len() - i,
    {
        out.push(history[i]);
        proof {
            assert(out@ =~= history@.subrange(k as int, i + 1));
        }
        i += 1;
    }
    proof {
        lemma_filter_suffix(history@, |p: (u64, Decimal)| p.0 >= window_start, k as int);
    }
    out
}

/// Sets the rate at time `t`, keeping the history in ascending time.
fn upsert_rate(history: &mut Vec<(u64, Decimal)>, t: u64, rate: Decimal)
    requires
        times_ascending(old(history)@),
    ensures
        final(history)@ == upsert(old(history)@, t, rate),
        times_ascending(final(history)@),
{
    let ghost h = history@;
    let k = count_before(history, t);
    proof {
        lemma_filter_prefix(h, |p: (u64, Decimal)| p.0 < t, k as int);
    }
    if k < history.len() && history[k].0 == t {
        history.set(k, (t, rate));
        proof {
            assert forall|i: int| 0 <= i < k + 1 implies !((|p: (u64, Decimal)| p.0 > t)(#[trigger] h[i])) by {
                if i < k {
                    assert(h[i].0 < t);
                }
            }
            assert forall|i: int| k + 1 <= i < h.len() implies (|p: (u64, Decimal)| p.0 > t)(#[trigger] h[i]) by {
                assert(h[k as int].0 < h[i].0);
            }
            lemma_filter_suffix(h, |p: (u64, Decimal)| p.0 > t, k + 1);
            assert(history@ =~= h.subrange(0, k as int) + seq![(t, rate)] + h.subrange(k + 1, h.len() as int));
        }
    } else {
        history.insert(k, (t, rate));
        proof {
            assert forall|i: int| 0 <= i < k implies !((|p: (u64, Decimal)| p.0 > t)(#[trigger] h[i])) by {
                assert(h[i].0 < t);
            }
            assert forall|i: int| k <= i < h.len() implies (|p: (u64, Decimal)| p.0 > t)(#[trigger] h[i]) by {
                if i == k {
                    assert(h[i].0 != t);
                }
            }
            lemma_filter_suffix(h, |p: (u64, Decimal)| p.0 > t, k as int);
            assert(history@ =~= h.subrange(0, k as int) + seq![(t, rate)] + h.subrange(k as int, h.len() as int));
        }
    }
}

/// The history without the rate at time `t`, in ascending time.
fn remove_rate(history: &Vec<(u64, Decimal)>, t: u64) -> (r: Vec<(u64, Decimal)>)
    requires
        times_ascending(history@),
    ensures
        r@ == without(history@, t),
        times_ascending(r@),
{
    let ghost h = history@;
    let ghost keep = not_at(t);
    let mut out: Vec<(u64, Decimal)> = Vec::new();
    let mut i: usize = 0;
    while i < history.len()
        invariant
            i <= h.len(),
            h == history@,
            keep == not_at(t),
            times_ascending(h),
            out@ == h.subrange(0, i as int).filter(keep),
            forall|a: int| 0 <= a < out@.len() ==> exists|b: int| 0 <= b < i && #[trigger] out@[a] == h[b],
            times_ascending(out@),
            out@.len() > 0 ==> exists|b: int| 0 <= b < i && out@.last() == h[b],
        decreases h.len() - i,
    {
        proof {
            lemma_filter_step(h, i as int, keep);
        }
        if history[i].0 != t {
            let ghost prev = out@;
            out.push(history[i]);
            proof {
                assert forall|a: int, c: int| 0 <= a < c < out@.len() implies out@[a].0 < out@[c].0 by {
                    if c == out@.len() - 1 && a < c {
                        let b = choose|b: int| 0 <= b < i && #[trigger] prev[a] == h[b];
                        assert(out@[a] == prev[a]);
                    }
                }
                assert forall|a: int| 0 <= a < out@.len() implies exists|b: int|
                    0 <= b < i + 1 && #[trigger] out@[a] == h[b] by {
                    if a == out@.len() - 1 {
                        assert(out@[a] == h[i as int]);
                    } else {
                        assert(out@[a] == prev[a]);
                    }
                }
            }
        }
        i += 1;
    }
    proof {
        assert(h.subrange(0, h.len() as int) =~= h);
    }
    out
}

/// A copy of the recorded rates.
fn copy_history(h: &Vec<(u64, Decimal)>) -> (r: Vec<(u64, Decimal)>)
    ensures
        r@ == h@,
{
    let mut out: Vec<(u64, Decimal)> = Vec::new();
    let mut i: usize = 0;
    while i < h.len()
        invariant
            i <= h@.len(),
            out@ == h@.subrange(0, i as int),
        decreases h@.len() - i,
    {
        out.push(h[i]);
        proof {
            assert(out@ =~= h@.subrange(0, i + 1));
        }
        i += 1;
    }
    proof {
        assert(h@.subrange(0, h@.len() as int) =~= h@);
    }
    out
}

/// The contract's state: the recorded rates (in ascending time), the aggregator
/// over them, and the last published TWAER with its publication time.
pub struct TwaerState {
    pub history: Vec<(u64, Decimal)>,
    pub aggregator: Option<TwaAggregator>,
    pub twaer: Option<(Decimal, u64)>,
}

/// The window information of the history.
#[derive(Clone, Debug, PartialEq)]
pub struct ErWindowInfoResponse {
    pub window_start: u64,
    pub window_end: u64,
    pub total_points: u64,
    pub data_points: Vec<(u64, Decimal)>,
}

/// The published TWAER.
#[derive(Clone, Copy, Debug, PartialEq, Eq, Structural)]
pub struct GetTwaerResponse {
    pub twaer: Decimal,
    pub published_at: u64,
}

pub open spec fn aggregator_missing(e: ContractError) -> bool {
    e matches ContractError::Std { msg } && msg@ == "twa_aggregator not found"@
}

/// What recording rate `rate` at time `t` makes of the history and aggregator, for
/// a window of `window` seconds: the error, or the new history and aggregator.
pub open spec fn recorded(
    h: Seq<(u64, Decimal)>,
    aggr: Option<TwaAggregator>,
    t: u64,
    rate: Decimal,
    window: u64,
) -> Result<(Seq<(u64, Decimal)>, Option<TwaAggregator>), ContractError> {
    match aggr {
        None => Ok((upsert(h, t, rate), Some(single_point(t, rate)))),
        Some(a) => {
            let d = t - a.window_end;
            if d == 0 {
                Err(ContractError::DuplicateDataPoint { timestamp: t })
            } else if h.len() == 0 {
                Err(ContractError::NoLatestRate {})
            } else if h.last().1.value() * d > u128::MAX || a.weighted_sum.value() + h.last().1.value()
                * d > u128::MAX {
                Err(ContractError::Overflow {})
            } else {
                let h2 = from_time(upsert(h, t, rate), (t - window) as u64);
                match recalculated(h2) {
                    Ok(agg) => Ok((h2, agg)),
                    Err(()) => Err(ContractError::Overflow {}),
                }
            }
        },
    }
}

/// Whether recording the rate at time `t` gets as far as dropping the rates older
/// than the window: there is an aggregator, `t` is past its end, there is a last
/// rate, and accounting for it does not overflow.
pub open spec fn reaches_window_start(h: Seq<(u64, Decimal)>, aggr: Option<TwaAggregator>, t: u64) -> bool {
    match aggr {
        None => false,
        Some(a) => {
            let d = t - a.window_end;
            &&& d != 0
            &&& h.len() > 0
            &&& h.last().1.value() * d <= u128::MAX
            &&& a.weighted_sum.value() + h.last().1.value() * d <= u128::MAX
        },
    }
}

/// The TWAER at time `now`: the aggregator's average up to its last rate, and after
/// it the last rate carried on until `now`.
pub open spec fn predicted_twaer(h: Seq<(u64, Decimal)>, aggr: Option<TwaAggregator>, now: u64) -> Result<
    Decimal,
    (),
> {
    match aggr {
        None => Err(()),
        Some(a) => if now <= a.window_end {
            Ok(a.current_twa)
        } else {
            let last = h.last().1.value();
            let add = now - a.window_end;
            let total = a.weighted_sum.value() + last * add;
            if last * add > u128::MAX || total > u128::MAX {
                Err(())
            } else {
                Ok(Decimal { atomics: (total / (a.window_end - a.window_start + add)) as u128 })
            }
        },
    }
}

impl TwaerState {
    /// The history is in ascending time and the aggregator is its recalculation.
    pub open spec fn wf(self) -> bool {
        &&& times_ascending(self.history@)
        &&& recalculated(self.history@) == Ok::<Option<TwaAggregator>, ()>(self.aggregator)
    }

    /// The state before any rate is recorded.
    pub fn new() -> (s: TwaerState)
        ensures
            s.wf(),
            s.history@.len() == 0,
            s.aggregator is None,
            s.twaer is None,
    {
        TwaerState { history: Vec::new(), aggregator: None, twaer: None }
    }

    /// Records the rate at time `t`: the rate that held since the last record is
    /// accounted for, rates older than the window are dropped and the aggregator is
    /// recalculated. A second record at the same time is refused.
    pub fn record_er_at(&mut self, new_rate: Decimal, new_timestamp: u64, twa_window_seconds: u64) -> (r:
        Result<(), ContractError>)
        requires
            old(self).wf(),
            old(self).aggregator matches Some(a) ==> new_timestamp >= a.window_end,
            reaches_window_start(old(self).history@, old(self).aggregator, new_timestamp) ==> new_timestamp
                >= twa_window_seconds,
        ensures
            final(self).wf(),
            final(self).twaer == old(self).twaer,
            match recorded(
                old(self).history@,
                old(self).aggregator,
                new_timestamp,
                new_rate,
                twa_window_seconds,
            ) {
                Ok((h, a)) => r is Ok && final(self).history@ == h && final(self).aggregator == a,
                Err(e) => r == Err::<(), ContractError>(e) && final(self).history@ == old(self).history@
                    && final(self).aggregator == old(self).aggregator,
            },
    {
        let aggr = match self.aggregator {
            None => {
                proof {
                    assert(self.history@.len() == 0);
                }
                upsert_rate(&mut self.history, new_timestamp, new_rate);
                self.aggregator = Some(TwaAggregator::from_single_point(new_timestamp, new_rate));
                proof {
                    reveal(Seq::filter);
                    assert(self.history@ =~= seq![(new_timestamp, new_rate)]);
                }
                return Ok(());
            },
            Some(a) => a,
        };
        let latest_rate_duration = new_timestamp - aggr.window_end;
        if latest_rate_duration == 0 {
            return Err(ContractError::DuplicateDataPoint { timestamp: new_timestamp });
        }
        let n = self.history.len();
        if n == 0 {
            return Err(ContractError::NoLatestRate {});
        }
        let latest_rate = self.history[n - 1].1;
        let contribution = match rate_times(latest_rate, latest_rate_duration) {
            Some(c) => c,
            None => {
                return Err(ContractError::Overflow {});
            },
        };
        match aggr.weighted_sum.checked_add(contribution) {
            Some(_) => {},
            None => {
                return Err(ContractError::Overflow {});
            },
        }
        let mut updated = copy_history(&self.history);
        upsert_rate(&mut updated, new_timestamp, new_rate);
        let window_start = new_timestamp - twa_window_seconds;
        let kept = keep_from(&updated, window_start);
        match recalculate_twa_aggregator(kept.as_slice()) {
            Ok(a) => {
                self.history = kept;
                self.aggregator = a;
                Ok(())
            },
            Err(e) => Err(e),
        }
    }

    /// Predicts the TWAER at time `now` from the aggregator and the last rate.
    pub fn calculate_twaer(&self, now: u64) -> (r: Result<Decimal, ContractError>)
        requires
            self.wf(),
        ensures
            self.aggregator is None ==> (r matches Err(e) && aggregator_missing(e)),
            self.aggregator is Some ==> match predicted_twaer(self.history@, self.aggregator, now) {
                Ok(x) => r == Ok::<Decimal, ContractError>(x),
                Err(()) => r matches Err(e) && e is Overflow,
            },
    {
        let a = match self.aggregator {
            None => {
                return Err(ContractError::Std { msg: String::from_str("twa_aggregator not found") });
            },
            Some(a) => a,
        };
        if now <= a.window_end {
            return Ok(a.current_twa);
        }
        let n = self.history.len();
        if n == 0 {
            return Err(ContractError::NoLatestRate {});
        }
        let last_rate = self.history[n - 1].1;
        let additional_duration = now - a.window_end;
        let additional_contribution = match rate_times(last_rate, additional_duration) {
            Some(c) => c,
            None => {
                return Err(ContractError::Overflow {});
            },
        };
        let total_weighted_sum = match a.weighted_sum.checked_add(additional_contribution) {
            Some(s) => s,
            None => {
                return Err(ContractError::Overflow {});
            },
        };
        let total_duration = a.window_end - a.window_start + additional_duration;
        if total_duration == 0 {
            return Ok(last_rate);
        }
        Ok(average_over(total_weighted_sum, total_duration))
    }

    /// Publishes the TWAER at time `now` when the sender is the owner or the
    /// publisher and the last publication is at least the immutability period old.
    pub fn publish_twaer(&mut self, config: &Config, sender: &String, sender_is_owner: bool, now: u64) -> (r:
        Result<Decimal, ContractError>)
        requires
            old(self).wf(),
            (match old(self).twaer {
                Some((_, t)) => t as int,
                None => 0,
            }) + config.twaer_immutability_seconds <= u64::MAX,
        ensures
            final(self).wf(),
            final(self).history == old(self).history,
            final(self).aggregator == old(self).aggregator,
            !sender_is_owner && sender@ != config.publisher@ ==> r == Err::<Decimal, ContractError>(
                ContractError::Unauthorized {},
            ) && final(self).twaer == old(self).twaer,
            (sender_is_owner || sender@ == config.publisher@) && now < (match old(self).twaer {
                Some((_, t)) => t as int,
                None => 0,
            }) + config.twaer_immutability_seconds ==> r == Err::<Decimal, ContractError>(
                ContractError::PublicationToSoon {
                    next_pub_time: ((match old(self).twaer {
                        Some((_, t)) => t as int,
                        None => 0,
                    }) + config.twaer_immutability_seconds) as u64,
                },
            ) && final(self).twaer == old(self).twaer,
            r matches Ok(x) ==> final(self).twaer == Some((x, now)) && (sender_is_owner || sender@
                == config.publisher@) && predicted_twaer(old(self).history@, old(self).aggregator, now)
                == Ok::<Decimal, ()>(x),
            r is Err ==> final(self).twaer == old(self).twaer,
            (sender_is_owner || sender@ == config.publisher@) && now >= (match old(self).twaer {
                Some((_, t)) => t as int,
                None => 0,
            }) + config.twaer_immutability_seconds && old(self).aggregator is Some && predicted_twaer(
                old(self).history@,
                old(self).aggregator,
                now,
            ) is Ok ==> r is Ok,
    {
        if !sender_is_owner && !crate::strings::str_eq(sender, &config.publisher) {
            return Err(ContractError::Unauthorized {});
        }
        let prev_pub_time = match self.twaer {
            Some((_, t)) => t,
            None => 0,
        };
        let next_pub_time = prev_pub_time + config.twaer_immutability_seconds;
        if now < next_pub_time {
            return Err(ContractError::PublicationToSoon { next_pub_time });
        }
        let twaer = match self.calculate_twaer(now) {
            Ok(x) => x,
            Err(e) => {
                return Err(e);
            },
        };
        self.twaer = Some((twaer, now));
        Ok(twaer)
    }

    /// Sets the TWAER to `value` at time `now` and restarts the history from it.
    pub fn reset_twaer_to(&mut self, value: Decimal, now: u64)
        ensures
            final(self).wf(),
            final(self).twaer == Some((value, now)),
            final(self).history@ == seq![(now, value)],
            final(self).aggregator == Some(single_point(now, value)),
    {
        self.twaer = Some((value, now));
        self.aggregator = Some(TwaAggregator::from_single_point(now, value));
        let mut history: Vec<(u64, Decimal)> = Vec::new();
        history.push((now, value));
        self.history = history;
    }

    /// Removes the rate recorded at time `er_timestamp` and recalculates the aggregator.
    pub fn remove_er_datapoint(&mut self, er_timestamp: u64) -> (r: Result<(), ContractError>)
        requires
            old(self).wf(),
        ensures
            final(self).wf(),
            final(self).twaer == old(self).twaer,
            match recalculated(without(old(self).history@, er_timestamp)) {
                Ok(a) => r is Ok && final(self).history@ == without(old(self).history@, er_timestamp)
                    && final(self).aggregator == a,
                Err(()) => (r matches Err(e) && e is Overflow) && final(self).history@ == old(
                    self,
                ).history@ && final(self).aggregator == old(self).aggregator,
            },
    {
        let kept = remove_rate(&self.history, er_timestamp);
        match recalculate_twa_aggregator(kept.as_slice()) {
            Ok(a) => {
                self.history = kept;
                self.aggregator = a;
                Ok(())
            },
            Err(e) => Err(e),
        }
    }

    /// The published TWAER.
    pub fn query_get_twaer(&self) -> (r: Result<GetTwaerResponse, ContractError>)
        ensures
            r == twaer_answer(self.twaer),
    {
        match self.twaer {
            Some((twaer, published_at)) => Ok(GetTwaerResponse { twaer, published_at }),
            None => Err(ContractError::TwaerNotCalculated {}),
        }
    }

    /// The window of the recorded rates and the rates themselves.
    pub fn query_er_window_info(&self) -> (r: Result<ErWindowInfoResponse, ContractError>)
        ensures
            match self.aggregator {
                Some(a) => r matches Ok(info) && info.window_start == a.window_start && info.window_end
                    == a.window_end && info.total_points == self.history@.len() && info.data_points@
                    == self.history@,
                None => r matches Err(e) && aggregator_missing(e),
            },
    {
        match self.aggregator {
            Some(a) => Ok(
                ErWindowInfoResponse {
                    window_start: a.window_start,
                    window_end: a.window_end,
                    total_points: self.history.len() as u64,
                    data_points: copy_history(&self.history),
                },
            ),
            None => Err(ContractError::Std { msg: String::from_str("twa_aggregator not found") }),
        }
    }
}

/// The instant exchange rate: the AUM over the maxBTC supply, one while nothing is
/// supplied; an AUM outside the unsigned 128-bit range cannot be converted.
pub fn calc_exchange_rate(maxbtc_supply: u128, aum: Int256Parts) -> (r: Result<Decimal, ContractError>)
    requires
        maxbtc_supply > 0 && 0 <= aum.value() <= u128::MAX ==> aum.value() * unit() / (maxbtc_supply as int)
            <= u128::MAX,
    ensures
        maxbtc_supply == 0 ==> r == Ok::<Decimal, ContractError>(Decimal { atomics: unit() as u128 }),
        maxbtc_supply > 0 && !(0 <= aum.value() <= u128::MAX) ==> r == Err::<Decimal, ContractError>(
            ContractError::ConversionError { aum },
        ),
        maxbtc_supply > 0 && 0 <= aum.value() <= u128::MAX ==> (r matches Ok(x) && x.value() == aum.value()
            * unit() / (maxbtc_supply as int)),
{
    if maxbtc_supply == 0 {
        return Ok(Decimal::one());
    }
    if aum.hi != 0 {
        proof {
            assert(aum.hi < 0 ==> aum.value() < 0);
            assert(aum.hi > 0 ==> aum.value() > u128::MAX);
        }
        return Err(ContractError::ConversionError { aum });
    }
    Ok(Decimal::checked_from_ratio(aum.lo, maxbtc_supply).unwrap())
}

/// The sum of the first `k` AUMs.
pub open spec fn aum_sum(s: Seq<Int256Parts>, k: int) -> int
    decreases k,
{
    if k <= 0 {
        0
    } else {
        aum_sum(s, k - 1) + s[k - 1].value()
    }
}

/// The total AUM: the oracles' AUMs (in uwBTC) plus the maxBTC core contract's balance.
pub fn total_aum(oracle_aums: &[Int256Parts], maxbtc_balance: u128) -> (r: Int256Parts)
    requires
        forall|k: int| 0 <= k <= oracle_aums@.len() ==> fits_i256(#[trigger] aum_sum(oracle_aums@, k)),
        fits_i256(aum_sum(oracle_aums@, oracle_aums@.len() as int) + maxbtc_balance),
    ensures
        r.value() == aum_sum(oracle_aums@, oracle_aums@.len() as int) + maxbtc_balance,
{
    let mut total = Int256Parts::zero();
    let mut k: usize = 0;
    while k < oracle_aums.len()
        invariant
            k <= oracle_aums@.len(),
            total.value() == aum_sum(oracle_aums@, k as int),
            forall|m: int| 0 <= m <= oracle_aums@.len() ==> fits_i256(#[trigger] aum_sum(oracle_aums@, m)),
        decreases oracle_aums@.len() - k,
    {
        proof {
            assert(fits_i256(aum_sum(oracle_aums@, k + 1)));
        }
        total = total.checked_add(oracle_aums[k]).unwrap();
        k += 1;
    }
    let balance = Int256Parts { hi: 0, lo: maxbtc_balance };
    total.checked_add(balance).unwrap()
}

/// The error of an action that only the owner may take.
pub open spec fn not_owner(e: ContractError) -> bool {
    e matches ContractError::Std { msg } && msg@ == "Caller is not the contract's current owner"@
}

/// Only the owner may go on.
pub fn check_owner(sender_is_owner: bool) -> (r: Result<(), ContractError>)
    ensures
        sender_is_owner <==> r is Ok,
        r matches Err(e) ==> not_owner(e),
{
    if sender_is_owner {
        Ok(())
    } else {
        Err(ContractError::Std { msg: String::from_str("Caller is not the contract's current owner") })
    }
}

/// Only the owner or the recorder may record an exchange rate.
pub fn check_recorder(config: &Config, sender: &String, sender_is_owner: bool) -> (r: Result<(), ContractError>)
    ensures
        r is Ok <==> sender_is_owner || sender@ == config.recorder@,
        r matches Err(e) ==> e is Unauthorized,
{
    if !sender_is_owner && !crate::strings::str_eq(sender, &config.recorder) {
        return Err(ContractError::Unauthorized {});
    }
    Ok(())
}

/// The configuration after an update: each field that is given replaces the stored one.
pub open spec fn updated(c: Config, u: UpdateConfig) -> Config {
    Config {
        recorder: match u.recorder {
            Some(x) => x,
            None => c.recorder,
        },
        publisher: match u.publisher {
            Some(x) => x,
            None => c.publisher,
        },
        aum_oracles: match u.aum_oracles {
            Some(x) => x,
            None => c.aum_oracles,
        },
        maxbtc_core_contract: match u.maxbtc_core_contract {
            Some(x) => x,
            None => c.maxbtc_core_contract,
        },
        twa_window_seconds: match u.twa_window_seconds {
            Some(x) => x,
            None => c.twa_window_seconds,
        },
        twaer_immutability_seconds: match u.twaer_immutability_seconds {
            Some(x) => x,
            None => c.twaer_immutability_seconds,
        },
    }
}

/// Only the owner may update the configuration.
pub fn execute_update_config(config: Config, sender_is_owner: bool, new_config: UpdateConfig) -> (r: Result<
    Config,
    ContractError,
>)
    ensures
        !sender_is_owner ==> (r matches Err(e) && not_owner(e)),
        sender_is_owner ==> r == Ok::<Config, ContractError>(updated(config, new_config)),
{
    match check_owner(sender_is_owner) {
        Ok(()) => {},
        Err(e) => {
            return Err(e);
        },
    }
    let UpdateConfig {
        publisher,
        recorder,
        aum_oracles,
        maxbtc_core_contract,
        twa_window_seconds,
        twaer_immutability_seconds,
    } = new_config;
    let mut c = config;
    if let Some(x) = aum_oracles {
        c.aum_oracles = x;
    }
    if let Some(x) = recorder {
        c.recorder = x;
    }
    if let Some(x) = publisher {
        c.publisher = x;
    }
    if let Some(x) = maxbtc_core_contract {
        c.maxbtc_core_contract = x;
    }
    if let Some(x) = twa_window_seconds {
        c.twa_window_seconds = x;
    }
    if let Some(x) = twaer_immutability_seconds {
        c.twaer_immutability_seconds = x;
    }
    Ok(c)
}

/// What the TWAER query answers for the stored publication.
pub open spec fn twaer_answer(t: Option<(Decimal, u64)>) -> Result<GetTwaerResponse, ContractError> {
    match t {
        Some((x, at)) => Ok(GetTwaerResponse { twaer: x, published_at: at }),
        None => Err(ContractError::TwaerNotCalculated {}),
    }
}

/// A TWAER published at time `now` is what the query answers afterwards, with
/// `now` as its publication time.
pub proof fn lemma_publish_then_query(published: Option<(Decimal, u64)>, x: Decimal, now: u64)
    requires
        published == Some((x, now)),
    ensures
        twaer_answer(published) == Ok::<GetTwaerResponse, ContractError>(
            GetTwaerResponse { twaer: x, published_at: now },
        ),
{
}

/// Every entry kept after a filter comes from the filtered sequence.
proof fn lemma_filter_from(h: Seq<(u64, Decimal)>, keep: spec_fn((u64, Decimal)) -> bool)
    ensures
        forall|j: int| 0 <= j < h.filter(keep).len() ==> h.contains(#[trigger] h.filter(keep)[j]),
    decreases h.len(),
{
    reveal(Seq::filter);
    if h.len() > 0 {
        let prev = h.drop_last();
        lemma_filter_from(prev, keep);
        assert forall|j: int| 0 <= j < h.filter(keep).len() implies h.contains(#[trigger] h.filter(keep)[j]) by {
            if j < prev.filter(keep).len() {
                assert(h.filter(keep)[j] == prev.filter(keep)[j]);
                let k = choose|k: int| 0 <= k < prev.len() && prev[k] == prev.filter(keep)[j];
                assert(h[k] == prev[k]);
            } else {
                assert(h.filter(keep)[j] == h.last());
                assert(h[h.len() - 1] == h.last());
            }
        }
    }
}

/// Law: removing the data point at time `t` removes exactly the entries at `t`:
/// every entry at another time (earlier or later) is kept, no entry at `t` is left,
/// and nothing else appears.
pub proof fn lemma_remove_only_that_point(h: Seq<(u64, Decimal)>, t: u64)
    ensures
        forall|i: int| 0 <= i < h.len() && h[i].0 != t ==> without(h, t).contains(#[trigger] h[i]),
        forall|j: int|
            0 <= j < without(h, t).len() ==> (#[trigger] without(h, t)[j]).0 != t && h.contains(without(h, t)[j]),
        without(h, t).len() <= h.len(),
{
    broadcast use vstd::seq_lib::group_filter_ensures;
    assert forall|i: int| 0 <= i < h.len() && h[i].0 != t implies without(h, t).contains(#[trigger] h[i]) by {
        assert(not_at(t)(h[i]));
        h.lemma_filter_contains(not_at(t), i);
    }
    assert forall|j: int| 0 <= j < without(h, t).len() implies (#[trigger] without(h, t)[j]).0 != t by {
        h.lemma_filter_pred(not_at(t), j);
    }
    lemma_filter_from(h, not_at(t));
}

/// The sum of a prefix does not depend on what follows it.
proof fn lemma_aum_sum_prefix(s: Seq<Int256Parts>, x: Int256Parts, k: int)
    requires
        0 <= k <= s.len(),
    ensures
        aum_sum(s.push(x), k) == aum_sum(s, k),
    decreases k,
{
    if k > 0 {
        lemma_aum_sum_prefix(s, x, k - 1);
        assert(s.push(x)[k - 1] == s[k - 1]);
    }
}

/// Law: the total AUM adds up every oracle's AUM: with no oracles it is the maxBTC
/// balance, and one more oracle adds exactly its own AUM.
pub proof fn lemma_total_aum_adds_each_oracle(s: Seq<Int256Parts>, x: Int256Parts, balance: u128)
    ensures
        aum_sum(s, 0) + balance == balance,
        aum_sum(s.push(x), s.len() + 1int) + balance == (aum_sum(s, s.len() as int) + balance) + x.value(),
{
    lemma_aum_sum_prefix(s, x, s.len() as int);
    assert(s.push(x)[s.len() as int] == x);
}

} // verus!
