use crate::items::{abs_int, ConsensusItem};
use cosmwasm_std::{Int256, Uint128, Uint256};
use vstd::prelude::*;

verus! {

/// 10^18, the fixed-point scale of cosmwasm decimals.
pub open spec fn unit() -> int {
    1_000_000_000_000_000_000
}

pub open spec fn pow10(k: nat) -> int
    decreases k,
{
    if k == 0 {
        1
    } else {
        10 * pow10((k - 1) as nat)
    }
}

/// Division rounding toward zero (Rust's `/` on signed integers), for `d > 0`.
pub open spec fn trunc_div(n: int, d: int) -> int {
    if n >= 0 {
        n / d
    } else {
        -((-n) / d)
    }
}

/// Signed division rounding toward zero for any nonzero divisor.
pub open spec fn trunc_div_signed(n: int, d: int) -> int {
    if d > 0 {
        trunc_div(n, d)
    } else {
        -trunc_div(n, -d)
    }
}

pub open spec fn fits_i128(x: int) -> bool {
    i128::MIN <= x <= i128::MAX
}

/// 2^128.
pub open spec fn two_pow_128() -> int {
    0x1_0000_0000_0000_0000_0000_0000_0000_0000int
}

/// Whether a value lies in the range of a signed 256-bit integer.
pub open spec fn fits_i256(x: int) -> bool {
    -two_pow_128() * 0x8000_0000_0000_0000_0000_0000_0000_0000 <= x < two_pow_128()
        * 0x8000_0000_0000_0000_0000_0000_0000_0000
}

/// A signed 256-bit integer (the atomics of a cosmwasm `SignedDecimal256`) as two
/// 128-bit halves: the signed upper half and the unsigned lower half.
#[derive(Clone, Copy, Debug, PartialEq, Eq, Structural)]
pub struct Int256Parts {
    pub hi: i128,
    pub lo: u128,
}

impl Int256Parts {
    pub open spec fn value(self) -> int {
        self.hi * two_pow_128() + self.lo
    }

    /// The halves of a 128-bit value.
    pub fn from_i128(x: i128) -> (r: Int256Parts)
        ensures
            r.value() == x,
    {
        if x >= 0 {
            Int256Parts { hi: 0, lo: x as u128 }
        } else {
            let m = magnitude(x);
            Int256Parts { hi: -1, lo: u128::MAX - m + 1 }
        }
    }

    pub fn zero() -> (r: Int256Parts)
        ensures
            r.value() == 0,
    {
        Int256Parts { hi: 0, lo: 0 }
    }

    /// `self <= other`.
    pub fn le(&self, other: &Int256Parts) -> (r: bool)
        ensures
            r == (self.value() <= other.value()),
    {
        self.hi < other.hi || (self.hi == other.hi && self.lo <= other.lo)
    }

    /// `self < other`.
    pub fn lt(&self, other: &Int256Parts) -> (r: bool)
        ensures
            r == (self.value() < other.value()),
    {
        self.hi < other.hi || (self.hi == other.hi && self.lo < other.lo)
    }

    /// `self < 0`.
    pub fn is_negative(&self) -> (r: bool)
        ensures
            r == (self.value() < 0),
    {
        self.hi < 0
    }

    /// The sum; `None` when it leaves the signed 256-bit range.
    pub fn checked_add(self, other: Int256Parts) -> (r: Option<Int256Parts>)
        ensures
            r is Some <==> fits_i256(self.value() + other.value()),
            r matches Some(q) ==> q.value() == self.value() + other.value(),
    {
        let (lo, carry): (u128, i128) = match self.lo.checked_add(other.lo) {
            Some(l) => (l, 0),
            None => (self.lo - (u128::MAX - other.lo) - 1, 1),
        };
        proof {
            assert(self.lo + other.lo == lo + carry * two_pow_128());
        }
        let hi = match self.hi.checked_add(other.hi) {
            Some(h) => h.checked_add(carry),
            None => if carry == 1 && self.hi < 0 {
                (self.hi + 1).checked_add(other.hi)
            } else {
                None
            },
        };
        match hi {
            Some(h) => Some(Int256Parts { hi: h, lo }),
            None => None,
        }
    }
}

/// The halves of a signed 256-bit value: the quotient and remainder by 2^128.
pub open spec fn parts_of(x: int) -> Int256Parts {
    Int256Parts { hi: (x / two_pow_128()) as i128, lo: (x % two_pow_128()) as u128 }
}

/// The halves of a value are those it was made of.
pub proof fn lemma_parts_roundtrip(p: Int256Parts)
    ensures
        parts_of(p.value()) == p,
        fits_i256(p.value()),
{
    vstd::arithmetic::div_mod::lemma_fundamental_div_mod_converse(p.value(), two_pow_128(), p.hi as int, p.lo as int);
}

/// The halves of a signed 256-bit value stand for it.
pub proof fn lemma_parts_of(x: int)
    requires
        fits_i256(x),
    ensures
        parts_of(x).value() == x,
{
    let c = two_pow_128();
    assert(x == (x / c) * c + x % c) by (nonlinear_arith)
        requires
            c > 0,
    ;
    assert(0 <= x % c < c) by (nonlinear_arith)
        requires
            c > 0,
    ;
    assert(i128::MIN <= x / c <= i128::MAX) by (nonlinear_arith)
        requires
            c == two_pow_128(),
            fits_i256(x),
    ;
}


/// An unsigned fixed-point decimal with 18 decimal places (cosmwasm `Decimal`),
/// held as its atomics.
#[derive(Clone, Copy, Debug, PartialEq, Eq, Structural)]
pub struct Decimal {
    pub atomics: u128,
}

/// A signed fixed-point decimal with 18 decimal places (cosmwasm `SignedDecimal256`),
/// held as its signed 256-bit atomics.
#[derive(Clone, Copy, Debug, PartialEq, Eq, Structural)]
pub struct SignedDecimal256 {
    pub atomics: Int256Parts,
}

/// `Decimal::checked_from_ratio`: `numerator * 10^18 / denominator` rounded down,
/// an error when the denominator is zero or the result exceeds the 128-bit range.
#[verifier::external_body]
fn decimal_checked_from_ratio(numerator: u128, denominator: u128) -> (r: Option<u128>)
    ensures
        r == (if denominator == 0 || numerator * unit() / (denominator as int) > u128::MAX {
            None
        } else {
            Some((numerator * unit() / (denominator as int)) as u128)
        }),
{
    cosmwasm_std::Decimal::checked_from_ratio(numerator, denominator).ok().map(
        |d| d.atomics().u128(),
    )
}

/// `Decimal::checked_mul`: `a * b / 10^18` rounded down, an error when the result
/// exceeds the 128-bit range.
#[verifier::external_body]
fn decimal_checked_mul(a: u128, b: u128) -> (r: Option<u128>)
    ensures
        r == (if a * b / unit() > u128::MAX {
            None
        } else {
            Some((a * b / unit()) as u128)
        }),
{
    let x = cosmwasm_std::Decimal::new(Uint128::new(a));
    let y = cosmwasm_std::Decimal::new(Uint128::new(b));
    x.checked_mul(y).ok().map(|d| d.atomics().u128())
}

/// `SignedDecimal256::checked_from_ratio`: `numerator * 10^18 / denominator` rounded
/// toward zero, an error when the denominator is zero or the result leaves the
/// signed 256-bit range. Values go in and out as their 128-bit halves.
#[verifier::external_body]
fn signed_checked_from_ratio(numerator: Int256Parts, denominator: Int256Parts) -> (r: Option<Int256Parts>)
    ensures
        r == (if denominator.value() == 0 || !fits_i256(
            trunc_div_signed(numerator.value() * unit(), denominator.value()),
        ) {
            None
        } else {
            Some(parts_of(trunc_div_signed(numerator.value() * unit(), denominator.value())))
        }),
{
    let mut n = [0u8; 32];
    n[..16].copy_from_slice(&numerator.hi.to_be_bytes());
    n[16..].copy_from_slice(&numerator.lo.to_be_bytes());
    let mut d = [0u8; 32];
    d[..16].copy_from_slice(&denominator.hi.to_be_bytes());
    d[16..].copy_from_slice(&denominator.lo.to_be_bytes());
    let r = cosmwasm_std::SignedDecimal256::checked_from_ratio(Int256::from_be_bytes(n), Int256::from_be_bytes(d));
    let b = r.ok()?.atomics().to_be_bytes();
    let hi = i128::from_be_bytes(b[..16].try_into().unwrap());
    Some(Int256Parts { hi, lo: u128::from_be_bytes(b[16..].try_into().unwrap()) })
}

/// `SignedDecimal256::checked_mul`: `a * b / 10^18` rounded toward zero, an error
/// when the result leaves the signed 256-bit range. Values go in and out as their
/// 128-bit halves.
#[verifier::external_body]
fn signed_checked_mul(a: Int256Parts, b: Int256Parts) -> (r: Option<Int256Parts>)
    ensures
        r == (if !fits_i256(trunc_div(a.value() * b.value(), unit())) {
            None
        } else {
            Some(parts_of(trunc_div(a.value() * b.value(), unit())))
        }),
{
    let mut x = [0u8; 32];
    x[..16].copy_from_slice(&a.hi.to_be_bytes());
    x[16..].copy_from_slice(&a.lo.to_be_bytes());
    let mut y = [0u8; 32];
    y[..16].copy_from_slice(&b.hi.to_be_bytes());
    y[16..].copy_from_slice(&b.lo.to_be_bytes());
    let x = cosmwasm_std::SignedDecimal256::new(Int256::from_be_bytes(x));
    let bytes = x.checked_mul(cosmwasm_std::SignedDecimal256::new(Int256::from_be_bytes(y))).ok()?.atomics().to_be_bytes();
    let hi = i128::from_be_bytes(bytes[..16].try_into().unwrap());
    Some(Int256Parts { hi, lo: u128::from_be_bytes(bytes[16..].try_into().unwrap()) })
}

/// The atomics that `SignedDecimal256::from_atomics(atomics, decimal_places)` yields:
/// scaled up to 18 decimal places, or truncated down when more are given.
pub open spec fn spec_from_atomics(atomics: int, decimal_places: nat) -> int {
    if decimal_places <= 18 {
        atomics * pow10((18 - decimal_places) as nat)
    } else {
        atomics / pow10((decimal_places - 18) as nat)
    }
}

/// `SignedDecimal256::from_atomics` for an unsigned amount, the atomics given as
/// their 128-bit halves; an error when the result leaves the signed 256-bit range.
#[verifier::external_body]
fn signed_from_atomics(atomics: u128, decimal_places: u32) -> (r: Option<Int256Parts>)
    ensures
        r == (if !fits_i256(spec_from_atomics(atomics as int, decimal_places as nat)) {
            None
        } else {
            Some(parts_of(spec_from_atomics(atomics as int, decimal_places as nat)))
        }),
{
    let r = cosmwasm_std::SignedDecimal256::from_atomics(Uint128::new(atomics), decimal_places);
    let b = r.ok()?.atomics().to_be_bytes();
    let hi = i128::from_be_bytes(b[..16].try_into().unwrap());
    Some(Int256Parts { hi, lo: u128::from_be_bytes(b[16..].try_into().unwrap()) })
}

impl Decimal {
    pub open spec fn value(self) -> int {
        self.atomics as int
    }

    pub fn zero() -> (r: Decimal)
        ensures
            r.value() == 0,
    {
        Decimal { atomics: 0 }
    }

    pub fn one() -> (r: Decimal)
        ensures
            r.value() == unit(),
    {
        Decimal { atomics: 1_000_000_000_000_000_000 }
    }

    /// The decimal `numerator / denominator`; `None` on a zero denominator or overflow.
    pub fn checked_from_ratio(numerator: u128, denominator: u128) -> (r: Option<Decimal>)
        ensures
            r is Some <==> denominator != 0 && numerator * unit() / (denominator as int)
                <= u128::MAX,
            r matches Some(d) ==> d.value() == numerator * unit() / (denominator as int),
    {
        match decimal_checked_from_ratio(numerator, denominator) {
            Some(a) => Some(Decimal { atomics: a }),
            None => None,
        }
    }

    pub fn checked_add(self, other: Decimal) -> (r: Option<Decimal>)
        ensures
            r is Some <==> self.value() + other.value() <= u128::MAX,
            r matches Some(d) ==> d.value() == self.value() + other.value(),
    {
        match self.atomics.checked_add(other.atomics) {
            Some(a) => Some(Decimal { atomics: a }),
            None => None,
        }
    }

    pub fn checked_mul(self, other: Decimal) -> (r: Option<Decimal>)
        ensures
            r is Some <==> self.value() * other.value() / unit() <= u128::MAX,
            r matches Some(d) ==> d.value() == self.value() * other.value() / unit(),
    {
        match decimal_checked_mul(self.atomics, other.atomics) {
            Some(a) => Some(Decimal { atomics: a }),
            None => None,
        }
    }

    pub fn checked_div(self, other: Decimal) -> (r: Option<Decimal>)
        ensures
            r is Some <==> other.value() != 0 && self.value() * unit() / other.value()
                <= u128::MAX,
            r matches Some(d) ==> d.value() == self.value() * unit() / other.value(),
    {
        Decimal::checked_from_ratio(self.atomics, other.atomics)
    }
}

/// The signed 256-bit atomics of `atomics` given with `decimal_places` decimal
/// places (`SignedDecimal256::from_atomics`), in the full 256-bit range.
pub fn wide_from_atomics(atomics: u128, decimal_places: u32) -> (r: Option<Int256Parts>)
    ensures
        r is Some <==> fits_i256(spec_from_atomics(atomics as int, decimal_places as nat)),
        r matches Some(q) ==> q.value() == spec_from_atomics(atomics as int, decimal_places as nat),
{
    let r = signed_from_atomics(atomics, decimal_places);
    proof {
        if fits_i256(spec_from_atomics(atomics as int, decimal_places as nat)) {
            lemma_parts_of(spec_from_atomics(atomics as int, decimal_places as nat));
        }
    }
    r
}

/// The quotient of two signed 256-bit decimals given by their atomics
/// (`SignedDecimal256::checked_div`): `a * 10^18 / b` rounded toward zero; `None`
/// on a zero divisor or when the result leaves the signed 256-bit range.
pub fn wide_checked_div(a: Int256Parts, b: Int256Parts) -> (r: Option<Int256Parts>)
    ensures
        r is Some <==> b.value() != 0 && fits_i256(trunc_div_signed(a.value() * unit(), b.value())),
        r matches Some(q) ==> q.value() == trunc_div_signed(a.value() * unit(), b.value()),
{
    let r = signed_checked_from_ratio(a, b);
    proof {
        if b.value() != 0 && fits_i256(trunc_div_signed(a.value() * unit(), b.value())) {
            lemma_parts_of(trunc_div_signed(a.value() * unit(), b.value()));
        }
    }
    r
}

/// The product of two signed 256-bit decimals given by their atomics
/// (`SignedDecimal256::checked_mul`): `a * b / 10^18` rounded toward zero; `None`
/// when the result leaves the signed 256-bit range.
pub fn wide_checked_mul(a: Int256Parts, b: Int256Parts) -> (r: Option<Int256Parts>)
    ensures
        r is Some <==> fits_i256(trunc_div(a.value() * b.value(), unit())),
        r matches Some(q) ==> q.value() == trunc_div(a.value() * b.value(), unit()),
{
    let r = signed_checked_mul(a, b);
    proof {
        if fits_i256(trunc_div(a.value() * b.value(), unit())) {
            lemma_parts_of(trunc_div(a.value() * b.value(), unit()));
        }
    }
    r
}

/// A quotient of 128-bit values scaled by 10^18 stays within 256 bits.
proof fn lemma_i128_ratio_fits(n: int, d: int)
    requires
        fits_i128(n),
        fits_i128(d),
        d != 0,
    ensures
        fits_i256(trunc_div_signed(n * unit(), d)),
{
    assert(fits_i256(n * unit())) by (nonlinear_arith)
        requires
            fits_i128(n),
    ;
    let a = if n * unit() >= 0 { n * unit() } else { -(n * unit()) };
    let e = if d > 0 { d } else { -d };
    assert(e >= 1);
    assert(a / e <= a) by (nonlinear_arith)
        requires
            a >= 0,
            e >= 1,
    ;
    assert(a / e >= 0) by (nonlinear_arith)
        requires
            a >= 0,
            e >= 1,
    ;
}

impl SignedDecimal256 {
    pub open spec fn value(self) -> int {
        self.atomics.value()
    }

    pub fn zero() -> (r: SignedDecimal256)
        ensures
            r.value() == 0,
    {
        SignedDecimal256 { atomics: Int256Parts { hi: 0, lo: 0 } }
    }

    /// The decimal `numerator / denominator`, rounded toward zero at 18 decimal places.
    pub fn checked_from_ratio(numerator: i128, denominator: i128) -> (r: Option<SignedDecimal256>)
        ensures
            r is Some <==> denominator != 0,
            r matches Some(d) ==> d.value() == trunc_div_signed(
                numerator * unit(),
                denominator as int,
            ),
    {
        let n = Int256Parts::from_i128(numerator);
        let d = Int256Parts::from_i128(denominator);
        proof {
            if denominator != 0 {
                lemma_i128_ratio_fits(numerator as int, denominator as int);
            }
        }
        match wide_checked_div(n, d) {
            Some(q) => Some(SignedDecimal256 { atomics: q }),
            None => None,
        }
    }

    /// The decimal of `atomics` given with `decimal_places` decimal places.
    pub fn from_atomics(atomics: u128, decimal_places: u32) -> (r: Option<SignedDecimal256>)
        ensures
            r is Some <==> fits_i256(spec_from_atomics(atomics as int, decimal_places as nat)),
            r matches Some(d) ==> d.value() == spec_from_atomics(
                atomics as int,
                decimal_places as nat,
            ),
    {
        match wide_from_atomics(atomics, decimal_places) {
            Some(q) => Some(SignedDecimal256 { atomics: q }),
            None => None,
        }
    }

    pub fn checked_add(self, other: SignedDecimal256) -> (r: Option<SignedDecimal256>)
        ensures
            r is Some <==> fits_i256(self.value() + other.value()),
            r matches Some(d) ==> d.value() == self.value() + other.value(),
    {
        match self.atomics.checked_add(other.atomics) {
            Some(a) => Some(SignedDecimal256 { atomics: a }),
            None => None,
        }
    }

    pub fn checked_mul(self, other: SignedDecimal256) -> (r: Option<SignedDecimal256>)
        ensures
            r is Some <==> fits_i256(trunc_div(self.value() * other.value(), unit())),
            r matches Some(d) ==> d.value() == trunc_div(self.value() * other.value(), unit()),
    {
        match wide_checked_mul(self.atomics, other.atomics) {
            Some(q) => Some(SignedDecimal256 { atomics: q }),
            None => None,
        }
    }

    pub fn checked_div(self, other: SignedDecimal256) -> (r: Option<SignedDecimal256>)
        ensures
            r is Some <==> other.value() != 0 && fits_i256(
                trunc_div_signed(self.value() * unit(), other.value()),
            ),
            r matches Some(d) ==> d.value() == trunc_div_signed(
                self.value() * unit(),
                other.value(),
            ),
    {
        match wide_checked_div(self.atomics, other.atomics) {
            Some(q) => Some(SignedDecimal256 { atomics: q }),
            None => None,
        }
    }
}

/// The magnitude of a signed value.
fn magnitude(x: i128) -> (m: u128)
    ensures
        m as int == abs_int(x as int),
{
    if x >= 0 {
        x as u128
    } else {
        ((-(x + 1)) as u128) + 1
    }
}

/// Bound check of the signed variant: `|high - low| <= max(|high|, |low|) * delta_ppm / 10^6`,
/// the bound rounded down in atomics, as the `Decimal256` product rounds it.
pub open spec fn signed_within(high: int, low: int, delta_ppm: u64) -> bool {
    let m = if abs_int(high) >= abs_int(low) {
        abs_int(high)
    } else {
        abs_int(low)
    };
    abs_int(high - low) <= (m * delta_ppm) / 1_000_000
}

pub open spec fn trunc_half(s: int) -> int {
    trunc_div(s, 2)
}

/// An unsigned 256-bit integer (the atomics of a cosmwasm `Decimal256`) as two
/// 128-bit halves.
#[derive(Clone, Copy, Debug, PartialEq, Eq, Structural)]
pub struct Uint256Parts {
    pub hi: u128,
    pub lo: u128,
}

impl Uint256Parts {
    pub open spec fn value(self) -> int {
        self.hi * two_pow_128() + self.lo
    }

    /// `self <= other`.
    pub fn le(&self, other: &Uint256Parts) -> (r: bool)
        ensures
            r == (self.value() <= other.value()),
    {
        self.hi < other.hi || (self.hi == other.hi && self.lo <= other.lo)
    }
}

/// The halves of an unsigned 256-bit value.
pub open spec fn uparts_of(x: int) -> Uint256Parts {
    Uint256Parts { hi: (x / two_pow_128()) as u128, lo: (x % two_pow_128()) as u128 }
}

/// The halves of an unsigned 256-bit value stand for it.
proof fn lemma_uparts_of(x: int)
    requires
        0 <= x < two_pow_128() * two_pow_128(),
    ensures
        uparts_of(x).value() == x,
{
    let c = two_pow_128();
    assert(x == (x / c) * c + x % c) by (nonlinear_arith)
        requires
            c > 0,
    ;
    assert(0 <= x % c < c) by (nonlinear_arith)
        requires
            c > 0,
    ;
    assert(0 <= x / c < c) by (nonlinear_arith)
        requires
            c > 0,
            0 <= x < c * c,
    ;
}

/// `SignedDecimal256::abs_diff`: the distance `|a - b|` as a `Decimal256`; values go
/// in and out as their 128-bit halves.
#[verifier::external_body]
fn signed_abs_diff(a: Int256Parts, b: Int256Parts) -> (r: Uint256Parts)
    ensures
        r == uparts_of(abs_int(a.value() - b.value())),
{
    let mut x = [0u8; 32];
    x[..16].copy_from_slice(&a.hi.to_be_bytes());
    x[16..].copy_from_slice(&a.lo.to_be_bytes());
    let mut y = [0u8; 32];
    y[..16].copy_from_slice(&b.hi.to_be_bytes());
    y[16..].copy_from_slice(&b.lo.to_be_bytes());
    let x = cosmwasm_std::SignedDecimal256::new(Int256::from_be_bytes(x));
    let bytes = x.abs_diff(cosmwasm_std::SignedDecimal256::new(Int256::from_be_bytes(y))).atomics().to_be_bytes();
    let hi = u128::from_be_bytes(bytes[..16].try_into().unwrap());
    Uint256Parts { hi, lo: u128::from_be_bytes(bytes[16..].try_into().unwrap()) }
}

/// `Decimal256::checked_mul`: `a * b / 10^18` rounded down, an error when the result
/// leaves the unsigned 256-bit range; values go in and out as their 128-bit halves.
#[verifier::external_body]
fn unsigned_checked_mul(a: Uint256Parts, b: Uint256Parts) -> (r: Option<Uint256Parts>)
    ensures
        r == (if a.value() * b.value() / unit() >= two_pow_128() * two_pow_128() {
            None
        } else {
            Some(uparts_of(a.value() * b.value() / unit()))
        }),
{
    let mut x = [0u8; 32];
    x[..16].copy_from_slice(&a.hi.to_be_bytes());
    x[16..].copy_from_slice(&a.lo.to_be_bytes());
    let mut y = [0u8; 32];
    y[..16].copy_from_slice(&b.hi.to_be_bytes());
    y[16..].copy_from_slice(&b.lo.to_be_bytes());
    let x = cosmwasm_std::Decimal256::new(Uint256::from_be_bytes(x));
    let bytes = x.checked_mul(cosmwasm_std::Decimal256::new(Uint256::from_be_bytes(y))).ok()?.atomics().to_be_bytes();
    let hi = u128::from_be_bytes(bytes[..16].try_into().unwrap());
    Some(Uint256Parts { hi, lo: u128::from_be_bytes(bytes[16..].try_into().unwrap()) })
}

/// The value divided by `k`, rounded toward zero (the decimal division by `k`).
pub fn trunc_div_by(a: Int256Parts, k: u128) -> (r: Int256Parts)
    requires
        0 < k,
        k * unit() <= u128::MAX,
    ensures
        r.value() == trunc_div(a.value(), k as int),
{
    let d = Int256Parts { hi: 0, lo: k * 1_000_000_000_000_000_000 };
    proof {
        lemma_parts_fit(a);
        lemma_ratio_by(a.value(), k as int);
    }
    wide_checked_div(a, d).unwrap()
}

/// Half of a value, rounded toward zero.
fn half(a: Int256Parts) -> (r: Int256Parts)
    ensures
        r.value() == trunc_div(a.value(), 2),
{
    trunc_div_by(a, 2)
}

/// `a * 10^18` over `k * 10^18`, rounded toward zero, is `a / k` rounded toward zero.
proof fn lemma_ratio_by(a: int, k: int)
    requires
        fits_i256(a),
        k > 0,
    ensures
        trunc_div_signed(a * unit(), k * unit()) == trunc_div(a, k),
        fits_i256(trunc_div(a, k)),
{
    let u = unit();
    let x = if a >= 0 { a } else { -a };
    assert((x * u) / (k * u) == x / k) by {
        vstd::arithmetic::div_mod::lemma_div_denominator(x * u, u, k);
        vstd::arithmetic::mul::lemma_mul_is_commutative(x, u);
        vstd::arithmetic::div_mod::lemma_div_multiples_vanish(x, u);
        vstd::arithmetic::mul::lemma_mul_is_commutative(u, k);
    }
    assert(a * u == if a >= 0 { x * u } else { -(x * u) });
    assert(x / k <= x) by (nonlinear_arith)
        requires
            x >= 0,
            k >= 1,
    ;
    assert(x / k >= 0) by (nonlinear_arith)
        requires
            x >= 0,
            k >= 1,
    ;
}

/// The remainder of halving toward zero: `-1`, `0` or `1`, with the sign of `a`.
fn half_remainder(a: Int256Parts) -> (r: i128)
    ensures
        r == a.value() - 2 * trunc_div(a.value(), 2),
{
    let ghost c = two_pow_128();
    assert(a.value() % 2 == a.lo % 2) by {
        assert(a.value() == a.hi * c + a.lo);
        assert(c == 2 * 0x8000_0000_0000_0000_0000_0000_0000_0000int);
        vstd::arithmetic::div_mod::lemma_mod_multiples_vanish(
            a.hi * 0x8000_0000_0000_0000_0000_0000_0000_0000int,
            a.lo as int,
            2,
        );
    }
    if a.lo % 2 == 0 {
        0
    } else if a.hi < 0 {
        -1
    } else {
        1
    }
}

impl ConsensusItem for SignedDecimal256 {
    open spec fn value(self) -> int {
        self.atomics.value()
    }

    open spec fn high_ok(high: int) -> bool {
        true
    }

    open spec fn bound_safe(high: int, delta_ppm: u64) -> bool {
        true
    }

    open spec fn within(high: int, low: int, delta_ppm: u64) -> bool {
        signed_within(high, low, delta_ppm)
    }

    open spec fn mid(a: int, b: int) -> int {
        trunc_half(a + b)
    }

    open spec fn mid_safe(a: int, b: int) -> bool {
        true
    }

    proof fn lemma_value_injective(a: Self, b: Self) {
        if a.value() == b.value() {
            let c = two_pow_128();
            assert((a.atomics.hi - b.atomics.hi) * c == b.atomics.lo - a.atomics.lo) by (nonlinear_arith)
                requires
                    a.atomics.hi * c + a.atomics.lo == b.atomics.hi * c + b.atomics.lo,
            ;
            if a.atomics.hi > b.atomics.hi {
                assert((a.atomics.hi - b.atomics.hi) * c >= c) by (nonlinear_arith)
                    requires
                        a.atomics.hi - b.atomics.hi >= 1,
                        c > 0,
                ;
            } else if a.atomics.hi < b.atomics.hi {
                assert((a.atomics.hi - b.atomics.hi) * c <= -c) by (nonlinear_arith)
                    requires
                        a.atomics.hi - b.atomics.hi <= -1,
                        c > 0,
                ;
            }
        }
    }

    proof fn lemma_high_monotone(a: int, b: int, delta_ppm: u64) {
    }

    proof fn lemma_within_refl(a: Self, delta_ppm: u64) {
        let m = abs_int(a.value());
        assert(m * delta_ppm >= 0) by (nonlinear_arith)
            requires
                m >= 0,
                delta_ppm >= 0,
        ;
    }

    proof fn lemma_mid_between(a: int, b: int) {
    }

    fn less_eq(&self, other: &Self) -> (r: bool) {
        self.atomics.le(&other.atomics)
    }

    fn in_bounds(high: Self, low: Self, delta_ppm: u64) -> (r: Option<bool>) {
        let h = high.atomics;
        let l = low.atomics;
        let zero = Int256Parts::zero();
        let diff = signed_abs_diff(h, l);
        let mh = signed_abs_diff(h, zero);
        let ml = signed_abs_diff(l, zero);
        let ghost c2 = two_pow_128() * two_pow_128();
        proof {
            lemma_parts_fit(h);
            lemma_parts_fit(l);
            lemma_uparts_of(abs_int(h.value() - l.value()));
            lemma_uparts_of(abs_int(h.value()));
            lemma_uparts_of(abs_int(l.value()));
        }
        let m = if mh.le(&ml) {
            ml
        } else {
            mh
        };
        let ppm = Uint256Parts { hi: 0, lo: (delta_ppm as u128) * 1_000_000_000_000 };
        let ghost x = m.value() * delta_ppm;
        proof {
            assert(x >= 0) by (nonlinear_arith)
                requires
                    m.value() >= 0,
                    delta_ppm >= 0,
                    x == m.value() * delta_ppm,
            ;
            assert(m.value() * ppm.value() == x * 1_000_000_000_000) by (nonlinear_arith)
                requires
                    ppm.value() == delta_ppm * 1_000_000_000_000,
                    x == m.value() * delta_ppm,
            ;
            lemma_scaled_ppm(x);
        }
        match unsigned_checked_mul(m, ppm) {
            None => {
                proof {
                    assert(diff.value() < c2);
                }
                Some(true)
            },
            Some(bound) => {
                proof {
                    lemma_uparts_of(m.value() * ppm.value() / unit());
                }
                Some(diff.le(&bound))
            },
        }
    }

    fn midpoint(a: Self, b: Self) -> (r: Self) {
        let x = a.atomics;
        let y = b.atomics;
        proof {
            lemma_parts_fit(x);
            lemma_parts_fit(y);
        }
        let qx = half(x);
        let qy = half(y);
        let rx = half_remainder(x);
        let ry = half_remainder(y);
        let t = qx.checked_add(qy).unwrap();
        let r = rx + ry;
        let adj: i128 = if r == 2 {
            1
        } else if r == -2 {
            -1
        } else if r == 1 {
            if t.is_negative() {
                1
            } else {
                0
            }
        } else if r == -1 {
            if Int256Parts::zero().lt(&t) {
                -1
            } else {
                0
            }
        } else {
            0
        };
        proof {
            assert(x.value() + y.value() == 2 * t.value() + r);
            lemma_parts_fit(t);
        }
        let m = t.checked_add(Int256Parts::from_i128(adj)).unwrap();
        SignedDecimal256 { atomics: m }
    }
}

/// `x * 10^12 / 10^18` is `x / 10^6`.
proof fn lemma_scaled_ppm(x: int)
    requires
        x >= 0,
    ensures
        (x * 1_000_000_000_000) / unit() == x / 1_000_000,
{
    assert(unit() == 1_000_000_000_000 * 1_000_000);
    vstd::arithmetic::div_mod::lemma_div_denominator(x * 1_000_000_000_000, 1_000_000_000_000, 1_000_000);
    vstd::arithmetic::mul::lemma_mul_is_commutative(x, 1_000_000_000_000);
    vstd::arithmetic::div_mod::lemma_div_multiples_vanish(x, 1_000_000_000_000);
}

/// Every pair of halves stands for a signed 256-bit value.
proof fn lemma_parts_fit(p: Int256Parts)
    ensures
        fits_i256(p.value()),
{
}

} // verus!
