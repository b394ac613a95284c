use vstd::prelude::*;
use crate::decimal::SignedDecimal256;
use vstd::relations::sorted_by;
use vstd::std_specs::cmp::PartialEqSpec;

verus! {

broadcast use vstd::seq_lib::group_to_multiset_ensures;


/// A numeric value on which messengers can reach a consensus.
///
/// `value` is the number the item stands for (for decimals: its atomics).
/// The bound check and the midpoint are those of the cosmwasm decimal
/// arithmetic for each concrete type.
pub trait ConsensusItem: Sized + Copy {
    spec fn value(self) -> int;

    /// Whether the bound check can convert `high` at all (otherwise it yields `None`).
    spec fn high_ok(high: int) -> bool;

    /// Whether the bound check for `high` stays free of arithmetic overflow.
    spec fn bound_safe(high: int, delta_ppm: u64) -> bool;

    /// `high` and `low` are considered equal under a tolerance of `delta_ppm`.
    spec fn within(high: int, low: int, delta_ppm: u64) -> bool;

    /// The midpoint of two values, as `(a + b) / 2` computes it for this type.
    spec fn mid(a: int, b: int) -> int;

    /// Whether `(a + b) / 2` stays free of arithmetic overflow.
    spec fn mid_safe(a: int, b: int) -> bool;

    proof fn lemma_value_injective(a: Self, b: Self)
        ensures
            a.value() == b.value() ==> a == b,
    ;

    proof fn lemma_high_monotone(a: int, b: int, delta_ppm: u64)
        requires
            a <= b,
            Self::high_ok(b),
            Self::bound_safe(b, delta_ppm),
        ensures
            Self::high_ok(a),
            Self::bound_safe(a, delta_ppm),
    ;

    proof fn lemma_within_refl(a: Self, delta_ppm: u64)
        ensures
            Self::within(a.value(), a.value(), delta_ppm),
    ;

    proof fn lemma_mid_between(a: int, b: int)
        requires
            a <= b,
        ensures
            a <= Self::mid(a, b) <= b,
    ;

    fn less_eq(&self, other: &Self) -> (r: bool)
        ensures
            r == (self.value() <= other.value()),
    ;

    fn in_bounds(high: Self, low: Self, delta_ppm: u64) -> (r: Option<bool>)
        requires
            Self::bound_safe(high.value(), delta_ppm),
        ensures
            r == (if Self::high_ok(high.value()) {
                Some(Self::within(high.value(), low.value(), delta_ppm))
            } else {
                None
            }),
    ;

    fn midpoint(a: Self, b: Self) -> (r: Self)
        requires
            Self::mid_safe(a.value(), b.value()),
        ensures
            r.value() == Self::mid(a.value(), b.value()),
    ;
}

pub open spec fn abs_int(x: int) -> int {
    if x < 0 {
        -x
    } else {
        x
    }
}

/// Bound check of the unsigned variants: `|high - low| <= floor(high * delta_ppm / 10^6)`,
/// which is what `Decimal::from_atomics(high, 0) * Decimal::from_ratio(delta_ppm, 10^6)`
/// floored to an integer computes.
pub open spec fn unsigned_within(high: int, low: int, delta_ppm: u64) -> bool {
    abs_int(high - low) <= (high * delta_ppm) / 1_000_000
}

/// `Decimal::from_atomics(high, 0) * ppm` does not overflow the 128-bit decimal.
pub open spec fn unsigned_bound_fits(high: int, delta_ppm: u64) -> bool {
    high * delta_ppm * 1_000_000_000_000 <= u128::MAX
}

proof fn lemma_unsigned_monotone(a: int, b: int, delta_ppm: u64)
    requires
        0 <= a <= b,
        unsigned_bound_fits(b, delta_ppm),
    ensures
        unsigned_bound_fits(a, delta_ppm),
{
    assert(a * delta_ppm <= b * delta_ppm) by (nonlinear_arith)
        requires
            0 <= a <= b,
            delta_ppm >= 0,
    ;
    assert(a * delta_ppm * 1_000_000_000_000 <= b * delta_ppm * 1_000_000_000_000) by (nonlinear_arith)
        requires
            a * delta_ppm <= b * delta_ppm,
    ;
}

proof fn lemma_unsigned_within_refl(a: int, delta_ppm: u64)
    requires
        a >= 0,
    ensures
        unsigned_within(a, a, delta_ppm),
{
    assert(a * delta_ppm >= 0) by (nonlinear_arith)
        requires
            a >= 0,
            delta_ppm >= 0,
    ;
}

impl ConsensusItem for u64 {
    open spec fn value(self) -> int {
        self as int
    }

    open spec fn high_ok(high: int) -> bool {
        true
    }

    open spec fn bound_safe(high: int, delta_ppm: u64) -> bool {
        unsigned_bound_fits(high, delta_ppm)
    }

    open spec fn within(high: int, low: int, delta_ppm: u64) -> bool {
        unsigned_within(high, low, delta_ppm)
    }

    open spec fn mid(a: int, b: int) -> int {
        (a + b) / 2
    }

    open spec fn mid_safe(a: int, b: int) -> bool {
        a + b <= u64::MAX
    }

    proof fn lemma_value_injective(a: Self, b: Self) {
    }

    proof fn lemma_high_monotone(a: int, b: int, delta_ppm: u64) {
        if a >= 0 {
            lemma_unsigned_monotone(a, b, delta_ppm);
        } else {
            assert(a * delta_ppm <= 0) by (nonlinear_arith)
                requires
                    a < 0,
                    delta_ppm >= 0,
            ;
            assert(a * delta_ppm * 1_000_000_000_000 <= 0) by (nonlinear_arith)
                requires
                    a * delta_ppm <= 0,
            ;
        }
    }

    proof fn lemma_within_refl(a: Self, delta_ppm: u64) {
        lemma_unsigned_within_refl(a as int, delta_ppm);
    }

    proof fn lemma_mid_between(a: int, b: int) {
    }

    fn less_eq(&self, other: &Self) -> (r: bool) {
        *self <= *other
    }

    fn in_bounds(high: Self, low: Self, delta_ppm: u64) -> (r: Option<bool>) {
        let diff: u64 = if high >= low {
            high - low
        } else {
            low - high
        };
        assert((high as int) * (delta_ppm as int) <= u128::MAX) by (nonlinear_arith)
            requires
                0 <= high <= u64::MAX,
                0 <= delta_ppm <= u64::MAX,
        ;
        let max_dispersion: u128 = (high as u128) * (delta_ppm as u128) / 1_000_000;
        Some((diff as u128) <= max_dispersion)
    }

    fn midpoint(a: Self, b: Self) -> (r: Self) {
        (a + b) / 2
    }
}

impl ConsensusItem for u128 {
    open spec fn value(self) -> int {
        self as int
    }

    /// `Decimal::from_atomics(high, 0)` succeeds.
    open spec fn high_ok(high: int) -> bool {
        high * 1_000_000_000_000_000_000 <= u128::MAX
    }

    open spec fn bound_safe(high: int, delta_ppm: u64) -> bool {
        Self::high_ok(high) ==> unsigned_bound_fits(high, delta_ppm)
    }

    open spec fn within(high: int, low: int, delta_ppm: u64) -> bool {
        unsigned_within(high, low, delta_ppm)
    }

    open spec fn mid(a: int, b: int) -> int {
        (a + b) / 2
    }

    open spec fn mid_safe(a: int, b: int) -> bool {
        a + b <= u128::MAX
    }

    proof fn lemma_value_injective(a: Self, b: Self) {
    }

    proof fn lemma_high_monotone(a: int, b: int, delta_ppm: u64) {
        if a >= 0 {
            lemma_unsigned_monotone(a, b, delta_ppm);
        } else {
            assert(a * delta_ppm <= 0) by (nonlinear_arith)
                requires
                    a < 0,
                    delta_ppm >= 0,
            ;
            assert(a * delta_ppm * 1_000_000_000_000 <= 0) by (nonlinear_arith)
                requires
                    a * delta_ppm <= 0,
            ;
        }
    }

    proof fn lemma_within_refl(a: Self, delta_ppm: u64) {
        lemma_unsigned_within_refl(a as int, delta_ppm);
    }

    proof fn lemma_mid_between(a: int, b: int) {
    }

    fn less_eq(&self, other: &Self) -> (r: bool) {
        *self <= *other
    }

    fn in_bounds(high: Self, low: Self, delta_ppm: u64) -> (r: Option<bool>) {
        if high > 340_282_366_920_938_463_463 {
            return None;
        }
        let diff: u128 = if high >= low {
            high - low
        } else {
            low - high
        };
        assert((high as int) * (delta_ppm as int) <= u128::MAX) by (nonlinear_arith)
            requires
                (high as int) * (delta_ppm as int) * 1_000_000_000_000 <= u128::MAX,
                high >= 0,
                delta_ppm >= 0,
        ;
        let max_dispersion: u128 = high * (delta_ppm as u128) / 1_000_000;
        Some(diff <= max_dispersion)
    }

    fn midpoint(a: Self, b: Self) -> (r: Self) {
        (a + b) / 2
    }
}

impl ConsensusItem for u8 {
    open spec fn value(self) -> int {
        self as int
    }

    open spec fn high_ok(high: int) -> bool {
        true
    }

    open spec fn bound_safe(high: int, delta_ppm: u64) -> bool {
        unsigned_bound_fits(high, delta_ppm)
    }

    open spec fn within(high: int, low: int, delta_ppm: u64) -> bool {
        unsigned_within(high, low, delta_ppm)
    }

    open spec fn mid(a: int, b: int) -> int {
        (a + b) / 2
    }

    open spec fn mid_safe(a: int, b: int) -> bool {
        a + b <= u8::MAX
    }

    proof fn lemma_value_injective(a: Self, b: Self) {
    }

    proof fn lemma_high_monotone(a: int, b: int, delta_ppm: u64) {
        if a >= 0 {
            lemma_unsigned_monotone(a, b, delta_ppm);
        } else {
            assert(a * delta_ppm <= 0) by (nonlinear_arith)
                requires
                    a < 0,
                    delta_ppm >= 0,
            ;
            assert(a * delta_ppm * 1_000_000_000_000 <= 0) by (nonlinear_arith)
                requires
                    a * delta_ppm <= 0,
            ;
        }
    }

    proof fn lemma_within_refl(a: Self, delta_ppm: u64) {
        lemma_unsigned_within_refl(a as int, delta_ppm);
    }

    proof fn lemma_mid_between(a: int, b: int) {
    }

    fn less_eq(&self, other: &Self) -> (r: bool) {
        *self <= *other
    }

    fn in_bounds(high: Self, low: Self, delta_ppm: u64) -> (r: Option<bool>) {
        let diff: u8 = if high >= low {
            high - low
        } else {
            low - high
        };
        assert((high as int) * (delta_ppm as int) <= u128::MAX) by (nonlinear_arith)
            requires
                0 <= high <= u8::MAX,
                0 <= delta_ppm <= u64::MAX,
        ;
        let max_dispersion: u128 = (high as u128) * (delta_ppm as u128) / 1_000_000;
        Some((diff as u128) <= max_dispersion)
    }

    fn midpoint(a: Self, b: Self) -> (r: Self) {
        (a + b) / 2
    }
}

/// Consensus on `u64` values (custody amounts).
pub fn consensus_on_items_u64(items: &[u64], threshold: usize, delta_ppm: u64) -> (r: Option<u64>)
    requires
        consensus_safe::<u64>(values(items@), threshold as int, delta_ppm),
    ensures
        r is Some <==> spec_consensus::<u64>(values(items@), threshold as int, delta_ppm) is Some,
        r matches Some(x) ==> spec_consensus::<u64>(values(items@), threshold as int, delta_ppm)
            == Some(x as int),
{
    consensus_on_items(items, threshold, delta_ppm)
}

/// Consensus on `Uint128` values (balances and supplies).
pub fn consensus_on_items_uint128(items: &[u128], threshold: usize, delta_ppm: u64) -> (r: Option<
    u128,
>)
    requires
        consensus_safe::<u128>(values(items@), threshold as int, delta_ppm),
    ensures
        r is Some <==> spec_consensus::<u128>(values(items@), threshold as int, delta_ppm) is Some,
        r matches Some(x) ==> spec_consensus::<u128>(values(items@), threshold as int, delta_ppm)
            == Some(x as int),
{
    consensus_on_items(items, threshold, delta_ppm)
}

/// Consensus on `u8` values (token decimals).
pub fn consensus_on_items_u8(items: &[u8], threshold: usize, delta_ppm: u64) -> (r: Option<u8>)
    requires
        consensus_safe::<u8>(values(items@), threshold as int, delta_ppm),
    ensures
        r is Some <==> spec_consensus::<u8>(values(items@), threshold as int, delta_ppm) is Some,
        r matches Some(x) ==> spec_consensus::<u8>(values(items@), threshold as int, delta_ppm)
            == Some(x as int),
{
    consensus_on_items(items, threshold, delta_ppm)
}

/// The numeric values of a sequence of items.
pub open spec fn values<T: ConsensusItem>(items: Seq<T>) -> Seq<int> {
    items.map_values(|x: T| x.value())
}

/// The values are in ascending order.
pub open spec fn ascending(s: Seq<int>) -> bool {
    forall|i: int, j: int| 0 <= i < j < s.len() ==> s[i] <= s[j]
}

/// `[i, j)` is a window of the sorted values `s` that holds at least `threshold`
/// values and whose extremes lie within the tolerance.
pub open spec fn window_found<T: ConsensusItem>(
    s: Seq<int>,
    threshold: int,
    delta_ppm: u64,
    i: int,
    j: int,
) -> bool {
    &&& 0 <= i < j
    &&& i + threshold <= j <= s.len()
    &&& T::within(s[j - 1], s[i], delta_ppm)
}

pub open spec fn has_window<T: ConsensusItem>(
    s: Seq<int>,
    threshold: int,
    delta_ppm: u64,
    i: int,
) -> bool {
    exists|j: int| window_found::<T>(s, threshold, delta_ppm, i, j)
}

/// The least start index from which a window exists.
pub open spec fn first_start<T: ConsensusItem>(s: Seq<int>, threshold: int, delta_ppm: u64) -> int {
    choose|i: int|
        has_window::<T>(s, threshold, delta_ppm, i) && forall|k: int|
            0 <= k < i ==> !has_window::<T>(s, threshold, delta_ppm, k)
}

/// The largest end index of a window starting at `i`.
pub open spec fn last_end<T: ConsensusItem>(
    s: Seq<int>,
    threshold: int,
    delta_ppm: u64,
    i: int,
) -> int {
    choose|j: int|
        window_found::<T>(s, threshold, delta_ppm, i, j) && forall|k: int|
            j < k <= s.len() ==> !window_found::<T>(s, threshold, delta_ppm, i, k)
}

/// The median of a sorted sequence of values.
pub open spec fn spec_median<T: ConsensusItem>(w: Seq<int>) -> int {
    let n = w.len() as int;
    if n % 2 == 1 {
        w[n / 2]
    } else {
        T::mid(w[n / 2 - 1], w[n / 2])
    }
}

/// The window of the sorted values on which consensus is formed: the window
/// with the least start, and for it the largest end.
pub open spec fn spec_window<T: ConsensusItem>(vals: Seq<int>, threshold: int, delta_ppm: u64) -> Option<(int, int)> {
    let s = vals.sort();
    if vals.len() < threshold {
        None
    } else if s.len() > 0 && !T::high_ok(s[s.len() - 1]) {
        None
    } else if exists|i: int| has_window::<T>(s, threshold, delta_ppm, i) {
        let i = first_start::<T>(s, threshold, delta_ppm);
        Some((i, last_end::<T>(s, threshold, delta_ppm, i)))
    } else {
        None
    }
}

/// The consensus value of a collection of values: the median of the chosen window.
pub open spec fn spec_consensus<T: ConsensusItem>(vals: Seq<int>, threshold: int, delta_ppm: u64) -> Option<int> {
    match spec_window::<T>(vals, threshold, delta_ppm) {
        Some((i, j)) => Some(spec_median::<T>(vals.sort().subrange(i, j))),
        None => None,
    }
}

/// The inputs on which the consensus computation stays free of arithmetic overflow.
pub open spec fn consensus_safe<T: ConsensusItem>(vals: Seq<int>, threshold: int, delta_ppm: u64) -> bool {
    let s = vals.sort();
    &&& (vals.len() >= threshold && s.len() > 0) ==> T::bound_safe(s[s.len() - 1], delta_ppm)
    &&& match spec_window::<T>(vals, threshold, delta_ppm) {
        Some((i, j)) => (j - i) % 2 == 0 ==> T::mid_safe(
            s[i + (j - i) / 2 - 1],
            s[i + (j - i) / 2],
        ),
        None => true,
    }
}

/// The median of a slice that is sorted by value. `None` for an empty slice.
pub fn median<T: ConsensusItem>(slice: &[T]) -> (r: Option<T>)
    requires
        slice@.len() > 0 && slice@.len() % 2 == 0 ==> T::mid_safe(
            slice@[slice@.len() as int / 2 - 1].value(),
            slice@[slice@.len() as int / 2].value(),
        ),
    ensures
        r is None <==> slice@.len() == 0,
        r matches Some(x) ==> x.value() == spec_median::<T>(values(slice@)),
{
    let n = slice.len();
    if n == 0 {
        return None;
    }
    if n % 2 == 1 {
        Some(slice[n / 2])
    } else {
        Some(T::midpoint(slice[n / 2 - 1], slice[n / 2]))
    }
}

/// Forms a consensus value out of the messengers' items: the items are sorted,
/// the window with the least start (and for it the largest end) whose extremes
/// lie within the tolerance and that holds at least `threshold` items is taken,
/// and its median is returned. `None` when no such window exists.
pub fn consensus_on_items<T: ConsensusItem>(items: &[T], threshold: usize, delta_ppm: u64) -> (r: Option<
    T,
>)
    requires
        consensus_safe::<T>(values(items@), threshold as int, delta_ppm),
    ensures
        r is Some <==> spec_consensus::<T>(values(items@), threshold as int, delta_ppm) is Some,
        r matches Some(x) ==> spec_consensus::<T>(values(items@), threshold as int, delta_ppm)
            == Some(x.value()),
{
    let ghost vals = values(items@);
    let ghost t = threshold as int;
    if items.len() < threshold {
        return None;
    }
    let sorted = sort_items(items);
    let n = sorted.len();
    let ghost s = values(sorted@);
    assert(s.len() == n);
    if n > 0 {
        if T::in_bounds(sorted[n - 1], sorted[0], delta_ppm).is_none() {
            return None;
        }
        proof {
            assert forall|k: int| 0 <= k < n implies T::high_ok(#[trigger] s[k]) && T::bound_safe(
                s[k],
                delta_ppm,
            ) by {
                lemma_sort_ascending(vals);
                T::lemma_high_monotone(s[k], s[n - 1], delta_ppm);
            }
        }
    }
    let mut found = false;
    let mut bi: usize = 0;
    let mut bj: usize = 0;
    let mut i: usize = 0;
    while i < n && !found
        invariant
            i <= n,
            n == s.len(),
            s == values(sorted@),
            t == threshold as int,
            threshold <= n,
            forall|k: int| 0 <= k < n ==> T::high_ok(#[trigger] s[k]) && T::bound_safe(s[k], delta_ppm),
            !found ==> forall|k: int| 0 <= k < i ==> !has_window::<T>(s, t, delta_ppm, k),
            found ==> {
                &&& window_found::<T>(s, t, delta_ppm, bi as int, bj as int)
                &&& forall|k: int| 0 <= k < bi ==> !has_window::<T>(s, t, delta_ppm, k)
                &&& forall|k: int| bj < k <= n ==> !window_found::<T>(s, t, delta_ppm, bi as int, k)
            },
        decreases n - i + (if found { 0int } else { 1int }),
    {
        if threshold <= n - i {
            let lo = if threshold > 1 { i + threshold } else { i + 1 };
            let mut j = n;
            while j >= lo && !found
                invariant
                    i < n,
                    lo <= n,
                    lo == (if threshold > 1 { i + threshold } else { i + 1 }),
                    j <= n,
                    lo <= j + 1,
                    n == s.len(),
                    s == values(sorted@),
                    t == threshold as int,
                    forall|k: int| 0 <= k < n ==> T::high_ok(#[trigger] s[k]) && T::bound_safe(s[k], delta_ppm),
                    forall|k: int| 0 <= k < i ==> !has_window::<T>(s, t, delta_ppm, k),
                    !found ==> forall|k: int| j < k <= n ==> !window_found::<T>(s, t, delta_ppm, i as int, k),
                    found ==> {
                        &&& bi == i
                        &&& window_found::<T>(s, t, delta_ppm, bi as int, bj as int)
                        &&& forall|k: int| bj < k <= n ==> !window_found::<T>(s, t, delta_ppm, bi as int, k)
                    },
                decreases j + (if found { 0int } else { 1int }),
            {
                assert(T::high_ok(s[j - 1]) && T::bound_safe(s[j - 1], delta_ppm));
                assert(sorted@[j - 1].value() == s[j - 1] && sorted@[i as int].value() == s[i as int]);
                match T::in_bounds(sorted[j - 1], sorted[i], delta_ppm) {
                    None => {
                        return None;
                    },
                    Some(true) => {
                        found = true;
                        bi = i;
                        bj = j;
                    },
                    Some(false) => {
                        j -= 1;
                    },
                }
            }
            if !found {
                proof {
                    if has_window::<T>(s, t, delta_ppm, i as int) {
                        let jj = choose|jj: int| window_found::<T>(s, t, delta_ppm, i as int, jj);
                        assert(jj >= lo);
                        assert(false);
                    }
                }
            }
        } else {
            proof {
                if has_window::<T>(s, t, delta_ppm, i as int) {
                    let jj = choose|jj: int| window_found::<T>(s, t, delta_ppm, i as int, jj);
                    assert(false);
                }
            }
        }
        if !found {
            i += 1;
        }
    }
    proof {
        assert(s == vals.sort());
    }
    if !found {
        proof {
            assert(!exists|k: int| has_window::<T>(s, t, delta_ppm, k));
        }
        return None;
    }
    proof {
        assert(has_window::<T>(s, t, delta_ppm, bi as int));
        let fs = first_start::<T>(s, t, delta_ppm);
        assert(fs == bi);
        let le = last_end::<T>(s, t, delta_ppm, bi as int);
        assert(le == bj);
    }
    let mut w: Vec<T> = Vec::new();
    let mut k = bi;
    while k < bj
        invariant
            bi <= k <= bj <= n,
            n == sorted@.len(),
            values(w@) =~= s.subrange(bi as int, k as int),
            s == values(sorted@),
        decreases bj - k,
    {
        assert(sorted@[k as int].value() == s[k as int]);
        w.push(sorted[k]);
        assert(s.subrange(bi as int, k + 1) =~= s.subrange(bi as int, k as int).push(s[k as int]));
        k += 1;
    }
    median(w.as_slice())
}

/// Consensus on `SignedDecimal256` values.
pub fn consensus_on_items_dec256(items: &[SignedDecimal256], threshold: usize, delta_ppm: u64) -> (r: Option<SignedDecimal256>)
    ensures
        r is Some <==> spec_consensus::<SignedDecimal256>(values(items@), threshold as int, delta_ppm) is Some,
        r matches Some(x) ==> spec_consensus::<SignedDecimal256>(values(items@), threshold as int, delta_ppm)
            == Some(x.value()),
{
    consensus_on_items(items, threshold, delta_ppm)
}

/// Every item equals the first one, by the `==` of `T`.
pub open spec fn all_equal_to_first<T: PartialEq>(items: Seq<T>) -> bool {
    forall|i: int| 0 <= i < items.len() ==> #[trigger] items[i].eq_spec(&items[0])
}

/// The first item, when all items are equal to it; `None` for no items or when
/// one item differs.
pub fn all_items_equal<T: Eq + Clone>(items: &[T]) -> (r: Option<T>)
    ensures
        items@.len() == 0 ==> r is None,
        T::obeys_eq_spec() ==> (r is Some <==> items@.len() > 0 && all_equal_to_first(items@)),
        r matches Some(x) ==> items@.len() > 0 && cloned(items@[0], x),
{
    if items.len() == 0 {
        return None;
    }
    let item = &items[0];
    let mut k: usize = 0;
    while k < items.len()
        invariant
            k <= items@.len(),
            items@.len() > 0,
            *item == items@[0],
            T::obeys_eq_spec() ==> forall|i: int| 0 <= i < k ==> #[trigger] items@[i].eq_spec(&items@[0]),
        decreases items@.len() - k,
    {
        if items[k] != *item {
            return None;
        }
        k += 1;
    }
    Some(item.clone())
}

/// Law: the consensus depends only on which values were reported, not on the
/// order in which the messengers reported them; so does whether forming it is
/// free of overflow, so a reordering of any input the consensus is formed for is
/// one too, with the same result.
pub proof fn lemma_consensus_order_independent<T: ConsensusItem>(
    a: Seq<int>,
    b: Seq<int>,
    threshold: int,
    delta_ppm: u64,
)
    requires
        a.to_multiset() == b.to_multiset(),
    ensures
        spec_consensus::<T>(a, threshold, delta_ppm) == spec_consensus::<T>(b, threshold, delta_ppm),
        consensus_safe::<T>(a, threshold, delta_ppm) == consensus_safe::<T>(b, threshold, delta_ppm),
{
    lemma_sort_ascending(a);
    lemma_sort_ascending(b);
    a.lemma_sort_ensures();
    b.lemma_sort_ensures();
    assert(vstd::relations::total_ordering(|x: int, y: int| x <= y));
    vstd::seq_lib::lemma_sorted_unique(a.sort(), b.sort(), |x: int, y: int| x <= y);
    assert(a.len() == a.to_multiset().len());
    assert(b.len() == b.to_multiset().len());
}

/// Law: a consensus is only formed from at least `threshold` reports, and the
/// consensus value lies between two of the reported values.
pub proof fn lemma_consensus_within_reports<T: ConsensusItem>(v: Seq<int>, threshold: int, delta_ppm: u64)
    requires
        spec_consensus::<T>(v, threshold, delta_ppm) is Some,
    ensures
        v.len() >= threshold,
        exists|lo: int, hi: int|
            v.contains(lo) && v.contains(hi) && lo <= spec_consensus::<T>(v, threshold, delta_ppm)->0
                <= hi,
{
    let s = v.sort();
    lemma_sort_ascending(v);
    let win = spec_window::<T>(v, threshold, delta_ppm)->0;
    lemma_window_range::<T>(v, threshold, delta_ppm);
    let i = win.0;
    let j = win.1;
    let c = spec_consensus::<T>(v, threshold, delta_ppm)->0;
    lemma_median_between::<T>(s, i, j);
    lemma_sorted_contains(v, i);
    lemma_sorted_contains(v, j - 1);
    assert(v.contains(s[i]) && v.contains(s[j - 1]) && s[i] <= c <= s[j - 1]);
}

proof fn lemma_least(p: spec_fn(int) -> bool, i: int)
    requires
        i >= 0,
        p(i),
    ensures
        exists|m: int| 0 <= m <= i && #[trigger] p(m) && forall|k: int| 0 <= k < m ==> !#[trigger] p(k),
    decreases i,
{
    if exists|k: int| 0 <= k < i && #[trigger] p(k) {
        let k = choose|k: int| 0 <= k < i && #[trigger] p(k);
        lemma_least(p, k);
    } else {
        assert(0 <= i <= i && p(i) && forall|k: int| 0 <= k < i ==> !#[trigger] p(k));
    }
}

proof fn lemma_greatest(p: spec_fn(int) -> bool, j: int, n: int)
    requires
        j <= n,
        p(j),
    ensures
        exists|m: int| j <= m <= n && #[trigger] p(m) && forall|k: int| m < k <= n ==> !#[trigger] p(k),
    decreases n - j,
{
    if exists|k: int| j < k <= n && #[trigger] p(k) {
        let k = choose|k: int| j < k <= n && #[trigger] p(k);
        lemma_greatest(p, k, n);
    } else {
        assert(j <= j <= n && p(j) && forall|k: int| j < k <= n ==> !#[trigger] p(k));
    }
}

proof fn lemma_first_start<T: ConsensusItem>(s: Seq<int>, t: int, delta_ppm: u64, i0: int)
    requires
        has_window::<T>(s, t, delta_ppm, i0),
    ensures
        has_window::<T>(s, t, delta_ppm, first_start::<T>(s, t, delta_ppm)),
        forall|k: int|
            0 <= k < first_start::<T>(s, t, delta_ppm) ==> !has_window::<T>(s, t, delta_ppm, k),
{
    let p = |i: int| has_window::<T>(s, t, delta_ppm, i);
    assert(p(i0));
    lemma_least(p, i0);
    let m = choose|m: int| 0 <= m <= i0 && #[trigger] p(m) && forall|k: int| 0 <= k < m ==> !#[trigger] p(k);
    assert(has_window::<T>(s, t, delta_ppm, m));
    assert forall|k: int| 0 <= k < m implies !has_window::<T>(s, t, delta_ppm, k) by {
        assert(!p(k));
    }
}

proof fn lemma_last_end<T: ConsensusItem>(s: Seq<int>, t: int, delta_ppm: u64, i: int)
    requires
        has_window::<T>(s, t, delta_ppm, i),
    ensures
        window_found::<T>(s, t, delta_ppm, i, last_end::<T>(s, t, delta_ppm, i)),
        forall|k: int|
            last_end::<T>(s, t, delta_ppm, i) < k <= s.len() ==> !window_found::<T>(s, t, delta_ppm, i, k),
{
    let j0 = choose|j: int| window_found::<T>(s, t, delta_ppm, i, j);
    let q = |j: int| window_found::<T>(s, t, delta_ppm, i, j);
    let n = s.len() as int;
    assert(q(j0));
    lemma_greatest(q, j0, n);
    let m = choose|m: int| j0 <= m <= n && #[trigger] q(m) && forall|k: int| m < k <= n ==> !#[trigger] q(k);
    assert(window_found::<T>(s, t, delta_ppm, i, m));
    assert forall|k: int| m < k <= s.len() implies !window_found::<T>(s, t, delta_ppm, i, k) by {
        assert(!q(k));
    }
}

/// The chosen window exists and lies within the sorted values.
proof fn lemma_window_range<T: ConsensusItem>(v: Seq<int>, threshold: int, delta_ppm: u64)
    requires
        spec_window::<T>(v, threshold, delta_ppm) is Some,
    ensures
        v.len() >= threshold,
        spec_window::<T>(v, threshold, delta_ppm) matches Some((i, j)) && 0 <= i < j <= v.len(),
{
    let s = v.sort();
    lemma_sort_ascending(v);
    let t = threshold;
    let i0 = choose|i: int| has_window::<T>(s, t, delta_ppm, i);
    lemma_first_start::<T>(s, t, delta_ppm, i0);
    let i = first_start::<T>(s, t, delta_ppm);
    lemma_last_end::<T>(s, t, delta_ppm, i);
}

proof fn lemma_median_between<T: ConsensusItem>(s: Seq<int>, i: int, j: int)
    requires
        ascending(s),
        0 <= i < j <= s.len(),
    ensures
        s[i] <= spec_median::<T>(s.subrange(i, j)) <= s[j - 1],
{
    let w = s.subrange(i, j);
    let n = j - i;
    if n % 2 == 1 {
        assert(w[n / 2] == s[i + n / 2]);
    } else {
        T::lemma_mid_between(w[n / 2 - 1], w[n / 2]);
        assert(w[n / 2 - 1] == s[i + n / 2 - 1]);
        assert(w[n / 2] == s[i + n / 2]);
    }
}

proof fn lemma_sorted_contains(v: Seq<int>, k: int)
    requires
        0 <= k < v.sort().len(),
    ensures
        v.contains(v.sort()[k]),
{
    let s = v.sort();
    lemma_sort_ascending(v);
    assert(s.contains(s[k]));
    vstd::seq_lib::to_multiset_contains(s, s[k]);
    vstd::seq_lib::to_multiset_contains(v, s[k]);
}

/// Law: when all reports agree on one value (and there are at least `threshold`
/// of them), that value is the consensus.
pub proof fn lemma_consensus_unanimous<T: ConsensusItem>(x: T, n: nat, threshold: int, delta_ppm: u64)
    requires
        n >= threshold,
        n > 0,
        T::high_ok(x.value()),
    ensures
        spec_consensus::<T>(Seq::new(n, |k: int| x.value()), threshold, delta_ppm) == Some(x.value()),
{
    let v = Seq::new(n, |k: int| x.value());
    let s = v.sort();
    lemma_sort_ascending(v);
    v.lemma_sort_ensures();
    assert(sorted_by(v, |a: int, b: int| a <= b));
    assert(vstd::relations::total_ordering(|a: int, b: int| a <= b));
    vstd::seq_lib::lemma_sorted_unique(v, s, |a: int, b: int| a <= b);
    assert(s =~= v);
    T::lemma_within_refl(x, delta_ppm);
    let t = threshold;
    assert(window_found::<T>(s, t, delta_ppm, 0, n as int));
    assert(has_window::<T>(s, t, delta_ppm, 0));
    let i = first_start::<T>(s, t, delta_ppm);
    assert(i == 0);
    let j = last_end::<T>(s, t, delta_ppm, 0);
    assert(j == n);
    T::lemma_mid_between(x.value(), x.value());
    assert(s.subrange(0, n as int) =~= s);
}

/// Sorting keeps the length and the elements, and orders ascending.
pub proof fn lemma_sort_ascending(v: Seq<int>)
    ensures
        ascending(v.sort()),
        v.sort().len() == v.len(),
        v.sort().to_multiset() == v.to_multiset(),
{
    v.lemma_sort_ensures();
    let s = v.sort();
    assert forall|a: int, b: int| 0 <= a < b < s.len() implies s[a] <= s[b] by {
        assert((|x: int, y: int| x <= y)(s[a], s[b]));
    }
    assert(s.len() == s.to_multiset().len());
    assert(v.len() == v.to_multiset().len());
}

/// Sorts items by value (insertion sort).
fn sort_items<T: ConsensusItem>(items: &[T]) -> (out: Vec<T>)
    ensures
        values(out@) == values(items@).sort(),
        out@.len() == items@.len(),
{
    let mut out: Vec<T> = Vec::new();
    let n = items.len();
    let mut k: usize = 0;
    while k < n
        invariant
            k <= n,
            n == items@.len(),
            values(out@).to_multiset() == values(items@.subrange(0, k as int)).to_multiset(),
            ascending(values(out@)),
        decreases n - k,
    {
        let x = items[k];
        let mut p: usize = 0;
        let len = out.len();
        while p < len && out[p].less_eq(&x)
            invariant
                p <= len,
                len == out@.len(),
                forall|q: int| 0 <= q < p ==> out@[q].value() <= x.value(),
            decreases len - p,
        {
            p += 1;
        }
        let ghost old_out = out@;
        out.insert(p, x);
        proof {
            assert(values(items@.subrange(0, k as int + 1)) =~= values(items@.subrange(0, k as int)).push(x.value()));
            assert(values(out@) =~= values(old_out).insert(p as int, x.value()));
            vstd::seq_lib::to_multiset_insert(values(old_out), p as int, x.value());
            let ov = values(old_out);
            let nv = values(out@);
            let xv = x.value();
            assert forall|a: int, b: int| 0 <= a < b < nv.len() implies nv[a] <= nv[b] by {
                if p < len {
                    assert(!(old_out[p as int].value() <= xv));
                    assert(xv < ov[p as int]);
                }
                if a < p && b < p {
                    assert(nv[a] == ov[a] && nv[b] == ov[b]);
                } else if a < p && b == p {
                    assert(nv[a] == ov[a] && nv[b] == xv);
                } else if a < p {
                    assert(nv[a] == ov[a] && nv[b] == ov[b - 1]);
                } else if a == p {
                    assert(nv[b] == ov[b - 1]);
                    assert(ov[p as int] <= ov[b - 1]);
                } else {
                    assert(nv[a] == ov[a - 1] && nv[b] == ov[b - 1]);
                }
            }
        }
        k += 1;
    }
    proof {
        assert(items@.subrange(0, n as int) =~= items@);
        let vs = values(items@);
        vs.lemma_sort_ensures();
        assert(sorted_by(values(out@), |x: int, y: int| x <= y));
        assert(values(out@).len() == values(out@).to_multiset().len());
        vstd::seq_lib::lemma_sorted_unique(values(out@), vs.sort(), |x: int, y: int| x <= y);
    }
    out
}

/// The consensus on one decimal field, which `extract` reads from each submission.
pub fn consensus_on_field<T, F: Fn(&T) -> SignedDecimal256>(
    data: &[T],
    extract: F,
    threshold: usize,
    delta_ppm: u64,
) -> (r: Option<SignedDecimal256>)
    requires
        forall|k: int| 0 <= k < data@.len() ==> extract.requires((&data@[k],)),
    ensures
        exists|ys: Seq<SignedDecimal256>|
            {
                &&& ys.len() == data@.len()
                &&& forall|k: int| 0 <= k < data@.len() ==> extract.ensures((&data@[k],), #[trigger] ys[k])
                &&& r is Some <==> spec_consensus::<SignedDecimal256>(
                    values(ys),
                    threshold as int,
                    delta_ppm,
                ) is Some
                &&& r matches Some(x) ==> spec_consensus::<SignedDecimal256>(
                    values(ys),
                    threshold as int,
                    delta_ppm,
                ) == Some(x.value())
            },
{
    let n = data.len();
    let mut items: Vec<SignedDecimal256> = Vec::new();
    let mut k: usize = 0;
    while k < n
        invariant
            k <= n,
            n == data@.len(),
            items@.len() == k,
            forall|m: int| 0 <= m < data@.len() ==> extract.requires((&data@[m],)),
            forall|m: int| 0 <= m < k ==> extract.ensures((&data@[m],), #[trigger] items@[m]),
        decreases n - k,
    {
        let y = extract(&data[k]);
        items.push(y);
        k += 1;
    }
    consensus_on_items_dec256(items.as_slice(), threshold, delta_ppm)
}

} // verus!
