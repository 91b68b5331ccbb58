//! Exact decimal fixed-point numbers.
//!
//! A value is an integer count of units of `10^-12`; every operation
//! rounds its mathematical result half away from zero to that grid and
//! saturates at `±LIMIT_RAW` units, so no operation can overflow or panic.

use vstd::arithmetic::div_mod::{lemma_div_nonincreasing, lemma_fundamental_div_mod};
use vstd::prelude::*;

verus! {

/// Number of raw units per 1.0.
pub const SCALE: i64 = 1_000_000_000_000;

/// Number of fractional decimal digits a value carries.
pub const SCALE_DIGITS: u32 = 12;

/// Largest magnitude, in raw units, a value can hold (4 * 10^6 whole units).
pub const LIMIT_RAW: i64 = 4_000_000_000_000_000_000;

/// Absolute value of an unbounded integer.
pub open spec fn abs_i(x: int) -> int {
    if x >= 0 {
        x
    } else {
        -x
    }
}

/// Saturate an unbounded integer into the representable raw range.
pub open spec fn clip_i(x: int) -> int {
    if x > LIMIT_RAW as int {
        LIMIT_RAW as int
    } else if x < -(LIMIT_RAW as int) {
        -(LIMIT_RAW as int)
    } else {
        x
    }
}

/// Quotient of `n / d` for `n >= 0 < d`, rounded half up.
pub open spec fn round_div_pos(n: int, d: int) -> int {
    n / d + if 2 * (n % d) >= d {
        1int
    } else {
        0int
    }
}

/// Quotient of `n / d` for `d > 0`, rounded half away from zero.
pub open spec fn round_div(n: int, d: int) -> int {
    if n >= 0 {
        round_div_pos(n, d)
    } else {
        -round_div_pos(-n, d)
    }
}

/// The product of two values in raw units, rounded and saturated.
pub open spec fn mul_v(a: int, b: int) -> int {
    clip_i(round_div(a * b, SCALE as int))
}

/// The quotient of two values in raw units, rounded and saturated; `b != 0`.
pub open spec fn div_v(a: int, b: int) -> int {
    if b > 0 {
        clip_i(round_div(a * SCALE, b))
    } else {
        clip_i(round_div(-(a * SCALE), -b))
    }
}

/// The sum of two values in raw units, saturated.
pub open spec fn add_v(a: int, b: int) -> int {
    clip_i(a + b)
}

/// The difference of two values in raw units, saturated.
pub open spec fn sub_v(a: int, b: int) -> int {
    clip_i(a - b)
}

/// 10 to the power `k`.
pub open spec fn pow10(k: nat) -> int
    decreases k,
{
    if k == 0 {
        1
    } else {
        10 * pow10((k - 1) as nat)
    }
}

/// A value rounded half away from zero to a multiple of `unit > 0`.
pub open spec fn round_unit(a: int, unit: int) -> int {
    clip_i(round_div(a, unit) * unit)
}

/// A value rounded to `p` fractional decimal digits; at or beyond the
/// carried precision the value is unchanged.
pub open spec fn round_places_v(a: int, p: int) -> int {
    if p >= SCALE_DIGITS {
        a
    } else if p < 0 {
        a
    } else {
        round_unit(a, pow10((SCALE_DIGITS - p) as nat))
    }
}

/// An exact decimal number with 12 fractional digits.
#[derive(Clone, Copy, Debug, PartialEq, Eq, Structural)]
pub struct Fp {
    raw: i64,
}

impl View for Fp {
    type V = int;

    closed spec fn view(&self) -> int {
        self.raw as int
    }
}

impl Fp {
    #[verifier::type_invariant]
    pub open spec fn inv(self) -> bool {
        -(LIMIT_RAW as int) <= self@ <= LIMIT_RAW as int
    }

    /// The zero value.
    pub fn zero() -> (r: Fp)
        ensures
            r@ == 0,
    {
        Fp { raw: 0 }
    }

    /// Build a value from a raw count of `10^-12` units, saturating.
    pub fn from_raw(raw: i64) -> (r: Fp)
        ensures
            r@ == clip_i(raw as int),
    {
        if raw > LIMIT_RAW {
            Fp { raw: LIMIT_RAW }
        } else if raw < -LIMIT_RAW {
            Fp { raw: -LIMIT_RAW }
        } else {
            Fp { raw }
        }
    }

    /// The raw count of `10^-12` units.
    pub fn raw(self) -> (r: i64)
        ensures
            r as int == self@,
    {
        self.raw
    }

    /// Build a value from a whole number, saturating.
    pub fn from_int(v: i64) -> (r: Fp)
        ensures
            r@ == clip_i(v * SCALE),
    {
        if v > 4_000_000 {
            Fp { raw: LIMIT_RAW }
        } else if v < -4_000_000 {
            Fp { raw: -LIMIT_RAW }
        } else {
            Fp { raw: v * SCALE }
        }
    }
}

/// The value holding a given (saturated) count of raw units: how
/// specifications name a value from its mathematical content.
pub closed spec fn fp_v(v: int) -> Fp {
    Fp { raw: clip_i(v) as i64 }
}

/// What `fp_v` holds.
pub proof fn lemma_fp_v(v: int)
    ensures
        fp_v(v)@ == clip_i(v),
{
}

/// A value whose content matches a saturated count is that count's
/// value: the view determines the value.
pub proof fn lemma_fp_v_eq(a: Fp, v: int)
    requires
        a@ == clip_i(v),
    ensures
        a == fp_v(v),
{
}

/// The product of nonnegative values is nonnegative.
pub proof fn lemma_mul_v_nonneg(a: int, b: int)
    requires
        0 <= a,
        0 <= b,
    ensures
        0 <= mul_v(a, b),
{
    assert(0 <= a * b) by (nonlinear_arith)
        requires
            0 <= a,
            0 <= b,
    ;
    vstd::arithmetic::div_mod::lemma_div_pos_is_pos(a * b, SCALE as int);
}

/// Saturate an `i128` into the raw range.
fn clip64(x: i128) -> (r: i64)
    ensures
        r as int == clip_i(x as int),
{
    if x > LIMIT_RAW as i128 {
        LIMIT_RAW
    } else if x < -(LIMIT_RAW as i128) {
        -LIMIT_RAW
    } else {
        x as i64
    }
}

/// Bound within which the division helpers operate; comfortably past any
/// product of two raw values, and comfortably under the `i128` range.
const RD_BOUND: u128 = 20_000_000_000_000_000_000_000_000_000_000_000_000;

/// The product of two integers is bounded by the product of their bounds.
proof fn lemma_mul_bounds(a: int, b: int, ab: int, bb: int)
    requires
        -ab <= a <= ab,
        -bb <= b <= bb,
        0 <= ab,
        0 <= bb,
    ensures
        -(ab * bb) <= a * b <= ab * bb,
{
    assert(-(ab * bb) <= a * b <= ab * bb) by (nonlinear_arith)
        requires
            -ab <= a <= ab,
            -bb <= b <= bb,
            0 <= ab,
            0 <= bb,
    ;
}

/// Unsigned division rounded half up.
fn rdiv_u(n: u128, d: u128) -> (q: u128)
    requires
        0 < d <= RD_BOUND,
        n <= RD_BOUND,
    ensures
        q as int == round_div_pos(n as int, d as int),
        q as int <= n as int,
{
    let quo = n / d;
    let rem = n % d;
    proof {
        lemma_fundamental_div_mod(n as int, d as int);
        lemma_div_nonincreasing(n as int, d as int);
        if rem > 0 {
            lemma_div_nonincreasing((n - rem) as int, d as int);
            assert((n - rem) as int / d as int == quo as int) by {
                lemma_fundamental_div_mod((n - rem) as int, d as int);
                vstd::arithmetic::div_mod::lemma_div_multiples_vanish(quo as int, d as int);
            }
        }
    }
    if rem >= d - rem {
        quo + 1
    } else {
        quo
    }
}

/// Signed division by a positive divisor, rounded half away from zero.
fn round_div_i(n: i128, d: i128) -> (q: i128)
    requires
        0 < d <= RD_BOUND as int,
        -(RD_BOUND as int) <= n <= RD_BOUND as int,
    ensures
        q as int == round_div(n as int, d as int),
        -(RD_BOUND as int) <= q <= RD_BOUND as int,
{
    if n >= 0 {
        rdiv_u(n as u128, d as u128) as i128
    } else {
        -(rdiv_u((-n) as u128, d as u128) as i128)
    }
}

impl Fp {
    /// Sum, saturating.
    pub fn add(self, o: Fp) -> (r: Fp)
        ensures
            r@ == add_v(self@, o@),
    {
        proof {
            use_type_invariant(self);
            use_type_invariant(o);
        }
        Fp { raw: clip64(self.raw as i128 + o.raw as i128) }
    }

    /// Difference, saturating.
    pub fn sub(self, o: Fp) -> (r: Fp)
        ensures
            r@ == sub_v(self@, o@),
    {
        proof {
            use_type_invariant(self);
            use_type_invariant(o);
        }
        Fp { raw: clip64(self.raw as i128 - o.raw as i128) }
    }

    /// Negation.
    pub fn neg(self) -> (r: Fp)
        ensures
            r@ == -self@,
    {
        proof {
            use_type_invariant(self);
        }
        Fp { raw: -self.raw }
    }

    /// Absolute value.
    pub fn abs(self) -> (r: Fp)
        ensures
            r@ == if self@ >= 0 { self@ } else { -self@ },
    {
        proof {
            use_type_invariant(self);
        }
        if self.raw >= 0 {
            self
        } else {
            Fp { raw: -self.raw }
        }
    }

    /// Product, rounded to the grid and saturating.
    pub fn mul(self, o: Fp) -> (r: Fp)
        ensures
            r@ == mul_v(self@, o@),
    {
        proof {
            use_type_invariant(self);
            use_type_invariant(o);
        }
        proof {
            lemma_mul_bounds(self.raw as int, o.raw as int, LIMIT_RAW as int, LIMIT_RAW as int);
        }
        let p: i128 = (self.raw as i128) * (o.raw as i128);
        let q = round_div_i(p, SCALE as i128);
        Fp { raw: clip64(q) }
    }

    /// Value compared with another: `self < o`.
    pub fn lt(self, o: Fp) -> (r: bool)
        ensures
            r == (self@ < o@),
    {
        self.raw < o.raw
    }

    /// Value compared with another: `self <= o`.
    pub fn le(self, o: Fp) -> (r: bool)
        ensures
            r == (self@ <= o@),
    {
        self.raw <= o.raw
    }

    /// Value compared with another: `self > o`.
    pub fn gt(self, o: Fp) -> (r: bool)
        ensures
            r == (self@ > o@),
    {
        self.raw > o.raw
    }

    /// Value compared with another: `self >= o`.
    pub fn ge(self, o: Fp) -> (r: bool)
        ensures
            r == (self@ >= o@),
    {
        self.raw >= o.raw
    }

    /// Value equality.
    pub fn eq_v(self, o: Fp) -> (r: bool)
        ensures
            r == (self@ == o@),
    {
        self.raw == o.raw
    }

    /// The smaller of two values.
    pub fn min(self, o: Fp) -> (r: Fp)
        ensures
            r@ == if self@ <= o@ { self@ } else { o@ },
    {
        if self.raw <= o.raw {
            self
        } else {
            o
        }
    }

    /// The larger of two values.
    pub fn max(self, o: Fp) -> (r: Fp)
        ensures
            r@ == if self@ >= o@ { self@ } else { o@ },
    {
        if self.raw >= o.raw {
            self
        } else {
            o
        }
    }

    /// Quotient, rounded to the grid and saturating.
    pub fn div(self, o: Fp) -> (r: Fp)
        requires
            o@ != 0,
        ensures
            r@ == div_v(self@, o@),
    {
        proof {
            use_type_invariant(self);
            use_type_invariant(o);
        }
        proof {
            lemma_mul_bounds(self.raw as int, SCALE as int, LIMIT_RAW as int, SCALE as int);
        }
        let n: i128 = (self.raw as i128) * (SCALE as i128);
        let q = if o.raw > 0 {
            round_div_i(n, o.raw as i128)
        } else {
            round_div_i(-n, -(o.raw as i128))
        };
        Fp { raw: clip64(q) }
    }
}

/// 10 to the power `k`, executable; `k` at most 18 so the result fits.
pub fn pow10_exec(k: u32) -> (r: i64)
    requires
        k <= 18,
    ensures
        r as int == pow10(k as nat),
        1 <= r <= 1_000_000_000_000_000_000,
{
    proof {
        reveal_with_fuel(pow10, 20);
    }
    let mut r: i64 = 1;
    let mut i: u32 = 0;
    while i < k
        invariant
            i <= k <= 18,
            r as int == pow10(i as nat),
            1 <= r <= 1_000_000_000_000_000_000,
        decreases k - i,
    {
        proof {
            reveal_with_fuel(pow10, 20);
            lemma_pow10_bound(k as nat);
            lemma_pow10_bound(i as nat);
            lemma_pow10_mono((i + 1) as nat, 18nat);
        }
        r = r * 10;
        i = i + 1;
    }
    r
}

/// `pow10` is positive.
pub proof fn lemma_pow10_pos(k: nat)
    ensures
        1 <= pow10(k),
    decreases k,
{
    if k > 0 {
        lemma_pow10_pos((k - 1) as nat);
    }
}

/// `pow10` is monotonic in its exponent.
pub proof fn lemma_pow10_mono(j: nat, k: nat)
    requires
        j <= k,
    ensures
        pow10(j) <= pow10(k),
    decreases k,
{
    if j < k {
        lemma_pow10_mono(j, (k - 1) as nat);
        lemma_pow10_pos((k - 1) as nat);
    }
}

/// `pow10` up to exponent 18 fits a signed 64-bit value.
pub proof fn lemma_pow10_bound(k: nat)
    ensures
        1 <= pow10(k),
        k <= 12 ==> pow10(k) <= SCALE as int,
        k <= 18 ==> pow10(k) <= 1_000_000_000_000_000_000,
{
    lemma_pow10_pos(k);
    assert(pow10(12nat) == SCALE as int && pow10(18nat) == 1_000_000_000_000_000_000) by {
        reveal_with_fuel(pow10, 20);
    }
    if k <= 12 {
        lemma_pow10_mono(k, 12nat);
    }
    if k <= 18 {
        lemma_pow10_mono(k, 18nat);
    }
}

impl Fp {
    /// The value rounded to `p` fractional decimal digits,
    /// half away from zero.
    pub fn round(self, p: u32) -> (r: Fp)
        ensures
            r@ == round_places_v(self@, p as int),
    {
        if p >= SCALE_DIGITS {
            self
        } else {
            proof {
                use_type_invariant(self);
            }
            let unit = pow10_exec(SCALE_DIGITS - p);
            proof {
                lemma_pow10_bound((SCALE_DIGITS - p) as nat);
            }
            let q = round_div_i(self.raw as i128, unit as i128);
            proof {
                lemma_round_div_small(self.raw as int, unit as int);
                lemma_mul_bounds(q as int, unit as int, LIMIT_RAW as int, SCALE as int);
            }
            Fp { raw: clip64(q * (unit as i128)) }
        }
    }

    /// The value truncated toward zero to a whole count of units.
    pub fn trunc_units(self) -> (r: i64)
        ensures
            r as int == trunc_units_v(self@),
            -4_000_000 <= r <= 4_000_000,
    {
        proof {
            use_type_invariant(self);
        }
        if self.raw >= 0 {
            proof {
                lemma_div_nonincreasing(self.raw as int, SCALE as int);
                vstd::arithmetic::div_mod::lemma_div_pos_is_pos(self.raw as int, SCALE as int);
                vstd::arithmetic::div_mod::lemma_div_is_ordered(
                    self.raw as int,
                    LIMIT_RAW as int,
                    SCALE as int,
                );
                vstd::arithmetic::div_mod::lemma_div_multiples_vanish(4_000_000, SCALE as int);
            }
            self.raw / SCALE
        } else {
            proof {
                lemma_div_nonincreasing(-(self.raw as int), SCALE as int);
                vstd::arithmetic::div_mod::lemma_div_pos_is_pos(-(self.raw as int), SCALE as int);
                vstd::arithmetic::div_mod::lemma_div_is_ordered(
                    -(self.raw as int),
                    LIMIT_RAW as int,
                    SCALE as int,
                );
                vstd::arithmetic::div_mod::lemma_div_multiples_vanish(4_000_000, SCALE as int);
            }
            -((-self.raw) / SCALE)
        }
    }

    /// The value rounded up to a whole number of units (toward positive
    /// infinity), saturating.
    pub fn ceil_units(self) -> (r: Fp)
        ensures
            r@ == ceil_units_v(self@),
    {
        proof {
            use_type_invariant(self);
        }
        if self.raw >= 0 {
            let n: u128 = self.raw as u128 + (SCALE - 1) as u128;
            let q: u128 = n / (SCALE as u128);
            proof {
                lemma_div_nonincreasing(n as int, SCALE as int);
                vstd::arithmetic::div_mod::lemma_div_pos_is_pos(n as int, SCALE as int);
                lemma_mul_bounds(q as int, SCALE as int, n as int, SCALE as int);
            }
            Fp { raw: clip64(((q * (SCALE as u128)) as i128)) }
        } else {
            let q: u128 = ((-self.raw) as u128) / (SCALE as u128);
            proof {
                lemma_div_nonincreasing((-self.raw) as int, SCALE as int);
                vstd::arithmetic::div_mod::lemma_div_pos_is_pos((-self.raw) as int, SCALE as int);
                lemma_mul_bounds(q as int, SCALE as int, LIMIT_RAW as int, SCALE as int);
            }
            Fp { raw: clip64(-((q * (SCALE as u128)) as i128)) }
        }
    }

    /// Build a value from a decimal mantissa and a count of fractional
    /// digits: `m * 10^-p`, rounded to the grid and saturating.
    pub fn from_decimal(m: i64, p: u32) -> (r: Fp)
        requires
            p <= 30,
        ensures
            r@ == from_decimal_v(m as int, p as int),
    {
        if p <= SCALE_DIGITS {
            let unit = pow10_exec(SCALE_DIGITS - p);
            proof {
                lemma_pow10_bound((SCALE_DIGITS - p) as nat);
                lemma_mul_bounds(m as int, unit as int, 0x8000_0000_0000_0000, SCALE as int);
            }
            Fp { raw: clip64((m as i128) * (unit as i128)) }
        } else {
            let unit = pow10_exec(p - SCALE_DIGITS);
            let q = round_div_i(m as i128, unit as i128);
            Fp { raw: clip64(q) }
        }
    }
}

/// A value truncated toward zero to a whole count of units.
pub open spec fn trunc_units_v(a: int) -> int {
    if a >= 0 {
        a / (SCALE as int)
    } else {
        -((-a) / (SCALE as int))
    }
}

/// A value rounded up to a whole number of units, saturated.
pub open spec fn ceil_units_v(a: int) -> int {
    if a >= 0 {
        clip_i((a + SCALE - 1) / (SCALE as int) * SCALE)
    } else {
        clip_i(-((-a) / (SCALE as int)) * SCALE)
    }
}

/// A decimal mantissa with `p` fractional digits as a value on the grid.
pub open spec fn from_decimal_v(m: int, p: int) -> int {
    if p <= SCALE_DIGITS {
        clip_i(m * pow10((SCALE_DIGITS - p) as nat))
    } else {
        clip_i(round_div(m, pow10((p - SCALE_DIGITS) as nat)))
    }
}

/// For a negative dividend and positive divisor, the Euclidean quotient of
/// the negation stays within the dividend's magnitude.
proof fn lemma_neg_div_bound(a: int, d: int)
    requires
        0 < a,
        1 <= d,
    ensures
        -a <= -((-a) / d) <= a,
{
    lemma_fundamental_div_mod(-a, d);
    vstd::arithmetic::div_mod::lemma_mod_bound(-a, d);
    let q = (-a) / d;
    let r = (-a) % d;
    assert(-a == d * q + r && 0 <= r < d);
    assert(-a <= q <= a) by (nonlinear_arith)
        requires
            -a == d * q + r,
            0 <= r < d,
            1 <= d,
            0 < a,
    ;
}

/// Rounded division by a positive unit keeps the magnitude bounded.
proof fn lemma_round_div_small(n: int, d: int)
    requires
        1 <= d,
    ensures
        n >= 0 ==> 0 <= round_div(n, d) <= n,
        n < 0 ==> n <= round_div(n, d) <= 0,
{
    if n >= 0 {
        lemma_round_div_pos_small(n, d);
    } else {
        lemma_round_div_pos_small(-n, d);
    }
}

/// Half-up division of a nonnegative number is between 0 and the dividend.
proof fn lemma_round_div_pos_small(n: int, d: int)
    requires
        0 <= n,
        1 <= d,
    ensures
        0 <= round_div_pos(n, d) <= n,
{
    lemma_fundamental_div_mod(n, d);
    lemma_div_nonincreasing(n, d);
    vstd::arithmetic::div_mod::lemma_div_pos_is_pos(n, d);
    let quo = n / d;
    let rem = n % d;
    if 2 * rem >= d {
        assert(rem >= 1);
        assert(quo * d <= n - 1) by (nonlinear_arith)
            requires
                n == d * quo + rem,
                rem >= 1,
        ;
        assert(quo <= n - 1) by (nonlinear_arith)
            requires
                quo * d <= n - 1,
                d >= 1,
                quo >= 0,
        ;
    }
}

} // verus!
