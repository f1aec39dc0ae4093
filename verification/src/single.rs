//! Single-precision arithmetic on integers.
//!
//! Thresholds travel between milliseconds and samples through IEEE 754
//! single-precision numbers. Here each of those numbers is an exact fraction,
//! and each operation is followed by the rounding that the format asks for: to
//! 24 significant bits, to the nearest, ties to even. All values are in the
//! format's normal range, so that neither overflow nor gradual underflow occurs.

use vstd::arithmetic::power2::{lemma2_to64, lemma_pow2_unfold, pow2};
use vstd::prelude::*;

verus! {

/// A non-negative fraction.
#[derive(Clone, Copy, Debug)]
pub struct Ratio {
    /// The numerator.
    pub num: u128,
    /// The denominator.
    pub den: u128,
}

/// What a `Ratio` says.
pub struct RatioView {
    /// The numerator.
    pub num: nat,
    /// The denominator.
    pub den: nat,
}

impl View for Ratio {
    type V = RatioView;

    open spec fn view(&self) -> RatioView {
        RatioView { num: self.num as nat, den: self.den as nat }
    }
}

/// The first integer with more than 24 bits.
pub open spec fn significand_limit() -> nat {
    0x100_0000
}

/// The integer nearest to `num / den`, ties to even.
pub open spec fn nearest(num: nat, den: nat) -> nat {
    let low = num / den;
    let rest = num % den;
    if 2 * rest < den || (2 * rest == den && low % 2 == 0) {
        low
    } else {
        low + 1
    }
}

/// Rounds a fraction that is not below `2^23`: halves it until its integer part
/// has 24 bits, rounds, and doubles the result as often.
pub open spec fn rounded_large(num: nat, den: nat) -> RatioView
    decreases num - den,
{
    if den > 0 && num >= den * significand_limit() {
        let half = rounded_large(num, 2 * den);
        RatioView { num: 2 * half.num, den: half.den }
    } else {
        RatioView { num: nearest(num, den), den: 1 }
    }
}

/// Rounds a fraction below `2^24`: doubles it until its integer part has 24
/// bits, rounds, and halves the result as often.
pub open spec fn rounded_small(num: nat, den: nat) -> RatioView
    decreases den * significand_limit() - num,
{
    if num > 0 && 2 * num < den * significand_limit() {
        let double = rounded_small(2 * num, den);
        RatioView { num: double.num, den: 2 * double.den }
    } else {
        RatioView { num: nearest(num, den), den: 1 }
    }
}

/// `num / den` rounded to a single-precision number.
pub open spec fn rounded(num: nat, den: nat) -> RatioView {
    if num >= den * significand_limit() {
        rounded_large(num, den)
    } else {
        rounded_small(num, den)
    }
}

/// The integer nearest to `num / den`, ties to even.
fn nearest_integer(num: u128, den: u128) -> (n: u128)
    requires
        0 < den <= 0x1_0000_0000_0000_0000_0000_0000,
        num < 0x1_0000_0000_0000_0000_0000_0000,
    ensures
        n as nat == nearest(num as nat, den as nat),
{
    let low: u128 = num / den;
    let rest: u128 = num % den;
    assert(low <= num) by (nonlinear_arith)
        requires
            den > 0,
            low == num / den,
    ;
    if 2 * rest < den || (2 * rest == den && low % 2 == 0) {
        low
    } else {
        low + 1
    }
}

proof fn lemma_nearest_bounds(num: nat, den: nat)
    requires
        den > 0,
        num < den * significand_limit(),
    ensures
        nearest(num, den) <= significand_limit(),
{
    let q = num / den;
    assert(q < 0x100_0000) by (nonlinear_arith)
        requires
            den > 0,
            num < den * 0x100_0000,
            q == num / den,
    ;
}

/// `num / den` rounded to a single-precision number.
pub fn round(num: u128, den: u128) -> (r: Ratio)
    requires
        num <= 0x400_0000_0000_0000_0000_0000,
        0 < den <= 0x1_0000_0000_0000_0000,
    ensures
        r@ == rounded(num as nat, den as nat),
        0 < r.den,
        r.num <= 2 * num + 0x100_0000,
        r.den <= 0x100_0000 * den,
{
    if num >= den * 0x100_0000 {
        round_large(num, den)
    } else {
        round_small(num, den)
    }
}

fn round_large(num: u128, den: u128) -> (r: Ratio)
    requires
        num <= 0x400_0000_0000_0000_0000_0000,
        0 < den <= 0x1_0000_0000_0000_0000,
        num >= den * 0x100_0000,
    ensures
        r@ == rounded_large(num as nat, den as nat),
        r.den == 1,
        r.num <= 2 * num + 0x100_0000,
{
    let mut d: u128 = den;
    let mut scale: u128 = 1;
    assert(rounded_large(num as nat, den as nat).den == rounded_large(num as nat, d as nat).den);
    while num >= d * 0x100_0000
        invariant
            num <= 0x400_0000_0000_0000_0000_0000,
            0 < den,
            0 < d <= num,
            d * 0x80_0000 <= num,
            scale <= d,
            rounded_large(num as nat, den as nat).num == scale * rounded_large(
                num as nat,
                d as nat,
            ).num,
            rounded_large(num as nat, den as nat).den == rounded_large(num as nat, d as nat).den,
        decreases num - d,
    {
        let ghost inner = rounded_large(num as nat, (2 * d) as nat).num;
        assert(scale * (2 * inner) == (2 * scale) * inner) by (nonlinear_arith);
        d = 2 * d;
        scale = 2 * scale;
    }
    proof {
        lemma_nearest_bounds(num as nat, d as nat);
    }
    let m: u128 = nearest_integer(num, d);
    assert(scale * m <= 2 * num) by (nonlinear_arith)
        requires
            scale <= d,
            d * 0x80_0000 <= num,
            m <= 0x100_0000,
    ;
    Ratio { num: scale * m, den: 1 }
}

fn round_small(num: u128, den: u128) -> (r: Ratio)
    requires
        0 < den <= 0x1_0000_0000_0000_0000,
        num < den * 0x100_0000,
    ensures
        r@ == rounded_small(num as nat, den as nat),
        0 < r.den <= 0x100_0000 * den,
        r.num <= 2 * num + 0x100_0000,
{
    let mut n: u128 = num;
    let mut scale: u128 = 1;
    while n > 0 && 2 * n < den * 0x100_0000
        invariant
            0 < den <= 0x1_0000_0000_0000_0000,
            n < den * 0x100_0000,
            n == 0 <==> num == 0,
            n == 0 ==> scale == 1,
            0 < scale,
            n > 0 ==> scale <= n,
            rounded_small(num as nat, den as nat).num == rounded_small(n as nat, den as nat).num,
            rounded_small(num as nat, den as nat).den == scale * rounded_small(
                n as nat,
                den as nat,
            ).den,
        decreases den * 0x100_0000 - n,
    {
        let ghost inner = rounded_small((2 * n) as nat, den as nat).den;
        assert(scale * (2 * inner) == (2 * scale) * inner) by (nonlinear_arith);
        n = 2 * n;
        scale = 2 * scale;
    }
    proof {
        lemma_nearest_bounds(n as nat, den as nat);
    }
    let m: u128 = nearest_integer(n, den);
    Ratio { num: m, den: scale }
}

proof fn lemma_nearest_exact(num: nat, den: nat, v: nat)
    requires
        den > 0,
        num == v * den,
    ensures
        nearest(num, den) == v,
{
    assert(num / den == v && num % den == 0) by (nonlinear_arith)
        requires
            den > 0,
            num == v * den,
    ;
}

proof fn lemma_times_one(v: nat, one: nat)
    requires
        one == 1,
    ensures
        v * one == v,
{
    assert(v * one == v) by (nonlinear_arith)
        requires
            one == 1,
    ;
}

proof fn lemma_small_exact(num: nat, den: nat, v: nat)
    requires
        den > 0,
        num == v * den,
        v < significand_limit(),
    ensures
        rounded_small(num, den).den > 0,
        rounded_small(num, den).num == v * rounded_small(num, den).den,
    decreases den * significand_limit() - num,
{
    if num > 0 && 2 * num < den * significand_limit() {
        assert(2 * num == (2 * v) * den && 2 * v < 0x100_0000) by (nonlinear_arith)
            requires
                num == v * den,
                2 * num < den * 0x100_0000,
        ;
        lemma_small_exact(2 * num, den, 2 * v);
        let inner = rounded_small(2 * num, den);
        assert((2 * v) * inner.den == v * (2 * inner.den)) by (nonlinear_arith);
    } else {
        lemma_nearest_exact(num, den, v);
        lemma_times_one(v, rounded_small(num, den).den);
    }
}

proof fn lemma_large_exact(num: nat, den: nat, v: nat, twos: nat)
    requires
        den > 0,
        v < significand_limit(),
        num == v * pow2(twos) * den,
    ensures
        rounded_large(num, den).den == 1,
        rounded_large(num, den).num == v * pow2(twos),
    decreases num - den,
{
    let whole = v * pow2(twos);
    if num >= den * significand_limit() {
        assert(whole >= 0x100_0000) by (nonlinear_arith)
            requires
                den > 0,
                num == whole * den,
                num >= den * 0x100_0000,
        ;
        if twos == 0 {
            lemma2_to64();
            assert(whole == v);
        } else {
            let fewer = (twos - 1) as nat;
            lemma_pow2_unfold(twos);
            assert(v * pow2(twos) == 2 * (v * pow2(fewer))) by (nonlinear_arith)
                requires
                    pow2(twos) == 2 * pow2(fewer),
            ;
            assert(num == v * pow2(fewer) * (2 * den)) by (nonlinear_arith)
                requires
                    num == v * pow2(twos) * den,
                    v * pow2(twos) == 2 * (v * pow2(fewer)),
            ;
            lemma_large_exact(num, 2 * den, v, fewer);
        }
    } else {
        lemma_nearest_exact(num, den, whole);
    }
}

/// Rounding leaves a single-precision number alone: `v * 2^twos` with a `v` of
/// at most 24 bits, however the fraction is written.
pub proof fn law_rounding_keeps_singles(num: nat, den: nat, v: nat, twos: nat)
    requires
        den > 0,
        v < significand_limit(),
        num == v * pow2(twos) * den,
    ensures
        rounded(num, den).den > 0,
        rounded(num, den).num == v * pow2(twos) * rounded(num, den).den,
{
    if num >= den * significand_limit() {
        lemma_large_exact(num, den, v, twos);
        lemma_times_one(v * pow2(twos), rounded(num, den).den);
    } else {
        let whole = v * pow2(twos);
        assert(whole < 0x100_0000) by (nonlinear_arith)
            requires
                den > 0,
                num == whole * den,
                num < den * 0x100_0000,
        ;
        lemma_small_exact(num, den, whole);
    }
}

/// The distance between two numbers.
pub open spec fn distance(a: nat, b: nat) -> nat {
    if a >= b {
        (a - b) as nat
    } else {
        (b - a) as nat
    }
}

proof fn lemma_nearest_error(num: nat, den: nat)
    requires
        den > 0,
    ensures
        2 * distance(num, nearest(num, den) * den) <= den,
{
    let low = num / den;
    let rest = num % den;
    assert(num == low * den + rest && rest < den) by (nonlinear_arith)
        requires
            den > 0,
            low == num / den,
            rest == num % den,
    ;
    assert((low + 1) * den == low * den + den) by (nonlinear_arith);
}

proof fn lemma_large_error(num: nat, den: nat)
    requires
        den > 0,
        2 * num >= den * significand_limit(),
    ensures
        rounded_large(num, den).den == 1,
        significand_limit() * distance(num, rounded_large(num, den).num * den) <= num,
    decreases num - den,
{
    if num >= den * significand_limit() {
        lemma_large_error(num, 2 * den);
        let half = rounded_large(num, 2 * den);
        assert((2 * half.num) * den == half.num * (2 * den)) by (nonlinear_arith);
    } else {
        lemma_nearest_error(num, den);
    }
}

proof fn lemma_small_error(num: nat, den: nat)
    requires
        den > 0,
    ensures
        rounded_small(num, den).den > 0,
        significand_limit() * distance(
            num * rounded_small(num, den).den,
            rounded_small(num, den).num * den,
        ) <= num * rounded_small(num, den).den,
    decreases den * significand_limit() - num,
{
    let r = rounded_small(num, den);
    if num > 0 && 2 * num < den * significand_limit() {
        lemma_small_error(2 * num, den);
        let double = rounded_small(2 * num, den);
        assert((2 * num) * double.den == num * (2 * double.den)) by (nonlinear_arith);
    } else {
        lemma_times_one(num, r.den);
        if num == 0 {
            lemma_nearest_exact(0, den, 0);
            assert(r.num * den == 0) by (nonlinear_arith)
                requires
                    r.num == 0,
            ;
        } else {
            lemma_nearest_error(num, den);
        }
    }
}

/// Rounding is off by one part in `2^24` at most.
pub proof fn law_rounding_error(num: nat, den: nat)
    requires
        den > 0,
    ensures
        rounded(num, den).den > 0,
        significand_limit() * distance(num * rounded(num, den).den, rounded(num, den).num * den)
            <= num * rounded(num, den).den,
{
    if num >= den * significand_limit() {
        lemma_large_error(num, den);
        lemma_times_one(num, rounded(num, den).den);
    } else {
        lemma_small_error(num, den);
    }
}

/// `a` is not above `b`.
pub open spec fn at_most(a: RatioView, b: RatioView) -> bool {
    a.num * b.den <= b.num * a.den
}

proof fn lemma_nearest_is_half_way(num: nat, den: nat)
    requires
        den > 0,
    ensures
        2 * num >= (2 * nearest(num, den) - 1) * den,
        2 * num <= (2 * nearest(num, den) + 1) * den,
        2 * num == (2 * nearest(num, den) - 1) * den ==> nearest(num, den) % 2 == 0,
        2 * num == (2 * nearest(num, den) + 1) * den ==> nearest(num, den) % 2 == 0,
{
    let low = num / den;
    let rest = num % den;
    assert(num == low * den + rest && rest < den) by (nonlinear_arith)
        requires
            den > 0,
            low == num / den,
            rest == num % den,
    ;
    assert((2 * low - 1) * den == 2 * (low * den) - den) by (nonlinear_arith);
    assert((2 * low + 1) * den == 2 * (low * den) + den) by (nonlinear_arith);
    assert((2 * (low + 1) - 1) * den == 2 * (low * den) + den) by (nonlinear_arith);
    assert((2 * (low + 1) + 1) * den == 2 * (low * den) + 3 * den) by (nonlinear_arith);
}

proof fn lemma_nearest_monotone(p: nat, q: nat, x: nat, y: nat)
    requires
        q > 0,
        y > 0,
        p * y <= x * q,
    ensures
        nearest(p, q) <= nearest(x, y),
{
    let m = nearest(p, q) as int;
    let n = nearest(x, y) as int;
    lemma_nearest_is_half_way(p, q);
    lemma_nearest_is_half_way(x, y);
    if m > n {
        assert(2 * p == (2 * m - 1) * q && 2 * x == (2 * n + 1) * y && m == n + 1)
            by (nonlinear_arith)
            requires
                q > 0,
                y > 0,
                p * y <= x * q,
                2 * p >= (2 * m - 1) * q,
                2 * x <= (2 * n + 1) * y,
                m > n,
        {
            assert(2 * p * y >= (2 * m - 1) * q * y);
            assert(2 * x * q <= (2 * n + 1) * y * q);
            assert((2 * m - 1) * q * y == (2 * m - 1) * (q * y));
            assert((2 * n + 1) * y * q == (2 * n + 1) * (q * y));
            assert(q * y > 0);
            assert((2 * m - 1) * (q * y) <= (2 * n + 1) * (q * y));
            assert(2 * m - 1 <= 2 * n + 1);
            assert(2 * p * y == (2 * m - 1) * q * y);
            assert(2 * x * q == (2 * n + 1) * y * q);
        }
    }
}

proof fn lemma_nearest_floor(num: nat, den: nat)
    requires
        den > 0,
        2 * num >= den * significand_limit(),
    ensures
        2 * nearest(num, den) >= significand_limit(),
{
    let low = num / den;
    assert(2 * low >= 0x100_0000) by (nonlinear_arith)
        requires
            den > 0,
            2 * num >= den * 0x100_0000,
            low == num / den,
    ;
}

proof fn lemma_large_floor(num: nat, den: nat)
    requires
        den > 0,
        2 * num >= den * significand_limit(),
    ensures
        rounded_large(num, den).den == 1,
        2 * rounded_large(num, den).num >= significand_limit(),
        num >= den * significand_limit() ==> rounded_large(num, den).num >= significand_limit(),
    decreases num - den,
{
    if num >= den * significand_limit() {
        lemma_large_floor(num, 2 * den);
    } else {
        lemma_nearest_floor(num, den);
    }
}

proof fn lemma_small_ceiling(num: nat, den: nat)
    requires
        den > 0,
        num < den * significand_limit(),
    ensures
        rounded_small(num, den).den > 0,
        rounded_small(num, den).num <= significand_limit() * rounded_small(num, den).den,
        2 * num < den * significand_limit() ==> 2 * rounded_small(num, den).num
            <= significand_limit() * rounded_small(num, den).den,
    decreases den * significand_limit() - num,
{
    if num > 0 && 2 * num < den * significand_limit() {
        lemma_small_ceiling(2 * num, den);
    } else if num == 0 {
        lemma_nearest_exact(0, den, 0);
    } else {
        lemma_nearest_bounds(num, den);
    }
}

proof fn lemma_large_monotone(p: nat, q: nat, x: nat, y: nat)
    requires
        q > 0,
        y > 0,
        2 * p >= q * significand_limit(),
        p * y <= x * q,
    ensures
        rounded_large(p, q).num <= rounded_large(x, y).num,
        2 * x >= y * significand_limit(),
        p >= q * significand_limit() ==> x >= y * significand_limit(),
    decreases p - q,
{
    assert(2 * x >= y * 0x100_0000) by (nonlinear_arith)
        requires
            q > 0,
            2 * p >= q * 0x100_0000,
            p * y <= x * q,
    ;
    if p >= q * significand_limit() {
        assert(x >= y * 0x100_0000) by (nonlinear_arith)
            requires
                q > 0,
                p >= q * 0x100_0000,
                p * y <= x * q,
        ;
        assert(p * (2 * y) <= x * (2 * q)) by (nonlinear_arith)
            requires
                p * y <= x * q,
        ;
        lemma_large_monotone(p, 2 * q, x, 2 * y);
    } else if x >= y * significand_limit() {
        lemma_nearest_bounds(p, q);
        lemma_large_floor(x, y);
    } else {
        lemma_nearest_monotone(p, q, x, y);
    }
}

proof fn lemma_small_monotone(p: nat, q: nat, x: nat, y: nat)
    requires
        q > 0,
        y > 0,
        x < y * significand_limit(),
        p * y <= x * q,
    ensures
        at_most(rounded_small(p, q), rounded_small(x, y)),
        p < q * significand_limit(),
    decreases y * significand_limit() - x,
{
    let a = rounded_small(p, q);
    let b = rounded_small(x, y);
    assert(p < q * 0x100_0000) by (nonlinear_arith)
        requires
            q > 0,
            y > 0,
            x < y * 0x100_0000,
            p * y <= x * q,
    ;
    if p == 0 {
        lemma_nearest_exact(0, q, 0);
        assert(a.num * b.den == 0) by (nonlinear_arith)
            requires
                a.num == 0,
        ;
    } else if 2 * x < y * significand_limit() {
        assert(2 * p < q * 0x100_0000 && x > 0) by (nonlinear_arith)
            requires
                q > 0,
                y > 0,
                p > 0,
                2 * x < y * 0x100_0000,
                p * y <= x * q,
        ;
        assert((2 * p) * y <= (2 * x) * q) by (nonlinear_arith)
            requires
                p * y <= x * q,
        ;
        lemma_small_monotone(2 * p, q, 2 * x, y);
        let c = rounded_small(2 * p, q);
        let d = rounded_small(2 * x, y);
        assert(c.num * (2 * d.den) <= d.num * (2 * c.den)) by (nonlinear_arith)
            requires
                c.num * d.den <= d.num * c.den,
        ;
    } else {
        lemma_times_one(a.num, b.den);
        if 2 * p < q * significand_limit() {
            lemma_small_ceiling(p, q);
            lemma_nearest_floor(x, y);
            assert(a.num <= b.num * a.den) by (nonlinear_arith)
                requires
                    2 * a.num <= 0x100_0000 * a.den,
                    2 * b.num >= 0x100_0000,
            ;
        } else {
            lemma_nearest_monotone(p, q, x, y);
            lemma_times_one(b.num, a.den);
        }
    }
}

/// Rounding keeps the order of fractions.
pub proof fn law_rounding_is_monotone(a: RatioView, b: RatioView)
    requires
        a.den > 0,
        b.den > 0,
        at_most(a, b),
    ensures
        at_most(rounded(a.num, a.den), rounded(b.num, b.den)),
{
    let r = rounded(a.num, a.den);
    let t = rounded(b.num, b.den);
    if a.num >= a.den * significand_limit() {
        lemma_large_monotone(a.num, a.den, b.num, b.den);
        lemma_large_floor(a.num, a.den);
        lemma_large_floor(b.num, b.den);
        lemma_times_one(r.num, t.den);
        lemma_times_one(t.num, r.den);
    } else if b.num < b.den * significand_limit() {
        lemma_small_monotone(a.num, a.den, b.num, b.den);
    } else {
        lemma_small_ceiling(a.num, a.den);
        lemma_large_floor(b.num, b.den);
        lemma_times_one(r.num, t.den);
        assert(r.num <= t.num * r.den) by (nonlinear_arith)
            requires
                r.num <= 0x100_0000 * r.den,
                t.num >= 0x100_0000,
        ;
    }
}

/// `m` is the integer nearest to `num / den`, and even where two are equally near.
pub open spec fn is_nearest(m: nat, num: nat, den: nat) -> bool {
    &&& (2 * m - 1) * den <= 2 * num <= (2 * m + 1) * den
    &&& 2 * num == (2 * m - 1) * den || 2 * num == (2 * m + 1) * den ==> m % 2 == 0
}

proof fn lemma_small_is_nearest(num: nat, den: nat) -> (parts: (nat, nat))
    requires
        0 < num < den * significand_limit(),
    ensures
        rounded_small(num, den) == (RatioView { num: parts.0, den: pow2(parts.1) }),
        den * 0x80_0000 <= num * pow2(parts.1) < den * 0x100_0000,
        is_nearest(parts.0, num * pow2(parts.1), den),
    decreases den * significand_limit() - num,
{
    lemma2_to64();
    assert(den > 0) by (nonlinear_arith)
        requires
            0 < num < den * 0x100_0000,
    ;
    if 2 * num < den * significand_limit() {
        let (m, twos) = lemma_small_is_nearest(2 * num, den);
        lemma_pow2_unfold(twos + 1);
        assert((2 * num) * pow2(twos) == num * pow2(twos + 1)) by (nonlinear_arith)
            requires
                pow2(twos + 1) == 2 * pow2(twos),
        ;
        (m, twos + 1)
    } else {
        lemma_nearest_is_half_way(num, den);
        lemma_times_one(num, pow2(0));
        (nearest(num, den), 0)
    }
}

proof fn lemma_large_is_nearest(num: nat, den: nat) -> (parts: (nat, nat))
    requires
        den > 0,
        2 * num >= den * significand_limit(),
    ensures
        rounded_large(num, den) == (RatioView { num: parts.0 * pow2(parts.1), den: 1 }),
        den * pow2(parts.1) * 0x80_0000 <= num < den * pow2(parts.1) * 0x100_0000,
        is_nearest(parts.0, num, den * pow2(parts.1)),
    decreases num - den,
{
    lemma2_to64();
    if num >= den * significand_limit() {
        let (m, twos) = lemma_large_is_nearest(num, 2 * den);
        lemma_pow2_unfold(twos + 1);
        assert((2 * den) * pow2(twos) == den * pow2(twos + 1) && 2 * (m * pow2(twos)) == m * pow2(
            twos + 1,
        )) by (nonlinear_arith)
            requires
                pow2(twos + 1) == 2 * pow2(twos),
        ;
        (m, twos + 1)
    } else {
        lemma_nearest_is_half_way(num, den);
        lemma_times_one(den, pow2(0));
        lemma_times_one(nearest(num, den), pow2(0));
        (nearest(num, den), 0)
    }
}

/// Rounding is to the nearest number with 24 significant bits, ties to even: the
/// fraction is scaled by a power of two until its integer part has 24 bits, and the
/// result is the nearest integer, scaled back. The integer, the exponent and its
/// sign are handed back.
pub proof fn law_rounding_is_to_nearest(num: nat, den: nat) -> (parts: (nat, nat, bool))
    requires
        num > 0,
        den > 0,
    ensures
        parts.2 ==> rounded(num, den) == (RatioView { num: parts.0 * pow2(parts.1), den: 1 }),
        parts.2 ==> den * pow2(parts.1) * 0x80_0000 <= num < den * pow2(parts.1) * 0x100_0000,
        parts.2 ==> is_nearest(parts.0, num, den * pow2(parts.1)),
        !parts.2 ==> rounded(num, den) == (RatioView { num: parts.0, den: pow2(parts.1) }),
        !parts.2 ==> den * 0x80_0000 <= num * pow2(parts.1) < den * 0x100_0000,
        !parts.2 ==> is_nearest(parts.0, num * pow2(parts.1), den),
{
    if num >= den * significand_limit() {
        let (m, twos) = lemma_large_is_nearest(num, den);
        (m, twos, true)
    } else {
        let (m, twos) = lemma_small_is_nearest(num, den);
        (m, twos, false)
    }
}

/// Nothing is rounded to nothing.
pub proof fn law_zero_stays_zero(den: nat)
    requires
        den > 0,
    ensures
        rounded(0, den) == (RatioView { num: 0, den: 1 }),
{
    lemma_nearest_exact(0, den, 0);
}

/// What a fraction says is what it holds.
pub proof fn law_fraction_says_what_it_holds(r: Ratio)
    ensures
        r@.num == r.num,
        r@.den == r.den,
{
}

} // verus!
