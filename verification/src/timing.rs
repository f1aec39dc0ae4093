//! Sample counts and times.

use crate::json::Json;
use crate::single::{
    at_most, distance, law_rounding_error, law_rounding_is_monotone, law_rounding_keeps_singles,
    round, rounded, rounded_small, Ratio, RatioView,
};
use vstd::arithmetic::power2::{lemma2_to64, pow2};
use vstd::prelude::*;

verus! {

/// Samples per second.
pub const SAMPLE_RATE: u32 = 16000;

/// How much audio is decoded at most before a result is forced, unless an
/// update says otherwise: 0.8 seconds.
pub const DEFAULT_FORCE_FINALIZE_SAMPLES: u32 = 12800;

/// The silence that a decoder is fed before speech, so that it can anchor word
/// boundaries: 0.3 seconds.
pub const WARM_UP_SAMPLES: usize = 4800;

/// The integer part of a fraction, or the largest `u32` where that is smaller.
pub open spec fn truncated(r: RatioView) -> u32 {
    let whole = r.num / r.den;
    if whole < u32::MAX {
        whole as u32
    } else {
        u32::MAX
    }
}

/// The samples in `ms` milliseconds: `SAMPLE_RATE * ms / 1000` in single
/// precision.
pub open spec fn samples_in(ms: u64) -> u32 {
    let time = rounded(ms as nat, 1);
    let product = rounded(SAMPLE_RATE as nat * time.num, time.den);
    truncated(rounded(product.num, 1000 * product.den))
}

/// The milliseconds in `samples`: `samples / SAMPLE_RATE * 1000` in single
/// precision.
pub open spec fn milliseconds_in(samples: u32) -> u32 {
    let count = rounded(samples as nat, 1);
    let seconds = rounded(count.num, SAMPLE_RATE as nat * count.den);
    truncated(rounded(1000 * seconds.num, seconds.den))
}

/// The threshold that is displayed for a sample count.
pub open spec fn displayed_ms(samples: u32) -> u32 {
    if samples == 0 {
        0
    } else {
        milliseconds_in(samples)
    }
}

/// The force-finalize threshold that an update asks for; zero switches forcing
/// off.
pub open spec fn requested_threshold(data: Json) -> u32 {
    let ms = match data.member("force_finalize_ms"@) {
        Some(value) => value.unsigned(),
        None => None,
    };
    let wanted = match data.member("force_finalize"@) {
        Some(value) => value.truth(),
        None => None,
    };
    match ms {
        Some(ms) => if ms == 0 {
            0
        } else {
            samples_in(ms)
        },
        None => if wanted == Some(false) {
            0
        } else {
            DEFAULT_FORCE_FINALIZE_SAMPLES
        },
    }
}

fn truncate(r: Ratio) -> (n: u32)
    requires
        r.den > 0,
    ensures
        n == truncated(r@),
{
    let whole: u128 = r.num / r.den;
    if whole < u32::MAX as u128 {
        whole as u32
    } else {
        u32::MAX
    }
}

/// The samples in `ms` milliseconds.
pub fn samples_for(ms: u64) -> (samples: u32)
    ensures
        samples == samples_in(ms),
{
    let time = round(ms as u128, 1);
    assert(SAMPLE_RATE * time.num == 16000 * time.num) by (nonlinear_arith)
        requires
            SAMPLE_RATE == 16000,
    ;
    let product = round(SAMPLE_RATE as u128 * time.num, time.den);
    let quotient = round(product.num, 1000 * product.den);
    truncate(quotient)
}

/// The force-finalize threshold in milliseconds, for display.
pub fn ff_ms(force_finalize_samples: u32) -> (ms: u32)
    ensures
        ms == displayed_ms(force_finalize_samples),
{
    if force_finalize_samples == 0 {
        0
    } else {
        let count = round(force_finalize_samples as u128, 1);
        assert(SAMPLE_RATE * count.den == 16000 * count.den) by (nonlinear_arith)
            requires
                SAMPLE_RATE == 16000,
        ;
        let seconds = round(count.num, SAMPLE_RATE as u128 * count.den);
        let scaled = round(1000 * seconds.num, seconds.den);
        truncate(scaled)
    }
}

/// Reads the force-finalize threshold from an update: `force_finalize_ms` counts
/// first, then `force_finalize`, then the default.
pub fn read_threshold(data: &Json) -> (samples: u32)
    ensures
        samples == requested_threshold(*data),
{
    let ms: Option<u64> = match data.get("force_finalize_ms") {
        Some(value) => value.as_u64(),
        None => None,
    };
    match ms {
        Some(ms) => if ms == 0 {
            0
        } else {
            samples_for(ms)
        },
        None => {
            let wanted: Option<bool> = match data.get("force_finalize") {
                Some(value) => value.as_bool(),
                None => None,
            };
            match wanted {
                Some(false) => 0,
                _ => DEFAULT_FORCE_FINALIZE_SAMPLES,
            }
        },
    }
}

/// Up to 134,217 milliseconds the conversion is exact: sixteen samples each.
pub proof fn law_short_times_are_exact(ms: u64)
    requires
        ms <= 134_217,
    ensures
        samples_in(ms) == 16 * ms,
{
    lemma2_to64();
    let time = rounded(ms as nat, 1);
    law_rounding_keeps_singles(ms as nat, 1, ms as nat, 0);
    assert(time.num == ms * time.den);
    let product = rounded(SAMPLE_RATE as nat * time.num, time.den);
    assert(SAMPLE_RATE as nat * time.num == (125 * ms) as nat * pow2(7) * time.den)
        by (nonlinear_arith)
        requires
            SAMPLE_RATE == 16000,
            time.num == ms * time.den,
            pow2(7) == 128,
    ;
    law_rounding_keeps_singles(SAMPLE_RATE as nat * time.num, time.den, (125 * ms) as nat, 7);
    assert(product.num == (16 * ms) as nat * pow2(0) * (1000 * product.den)) by (nonlinear_arith)
        requires
            product.num == (125 * ms) as nat * pow2(7) * product.den,
            pow2(7) == 128,
            pow2(0) == 1,
    ;
    let quotient = rounded(product.num, 1000 * product.den);
    law_rounding_keeps_singles(product.num, 1000 * product.den, (16 * ms) as nat, 0);
    assert(quotient.num / quotient.den == 16 * ms) by (nonlinear_arith)
        requires
            quotient.den > 0,
            quotient.num == (16 * ms) as nat * pow2(0) * quotient.den,
            pow2(0) == 1,
    ;
}

proof fn lemma_truncation_monotone(a: RatioView, b: RatioView)
    requires
        a.den > 0,
        b.den > 0,
        at_most(a, b),
    ensures
        truncated(a) <= truncated(b),
{
    let p = a.num / a.den;
    let q = b.num / b.den;
    assert(p <= q) by (nonlinear_arith)
        requires
            a.den > 0,
            b.den > 0,
            a.num * b.den <= b.num * a.den,
            p == a.num / a.den,
            q == b.num / b.den,
    {
        assert(p * a.den <= a.num);
        assert(b.num < (q + 1) * b.den);
        assert(p * a.den * b.den <= a.num * b.den);
        assert(b.num * a.den < (q + 1) * b.den * a.den);
        assert(p * a.den * b.den == p * (a.den * b.den));
        assert((q + 1) * b.den * a.den == (q + 1) * (a.den * b.den));
        assert(p * (a.den * b.den) < (q + 1) * (a.den * b.den));
        assert(a.den * b.den > 0);
    }
}

proof fn lemma_scaling_monotone(a: RatioView, b: RatioView, up: nat, down: nat)
    requires
        at_most(a, b),
    ensures
        at_most(
            RatioView { num: up * a.num, den: down * a.den },
            RatioView { num: up * b.num, den: down * b.den },
        ),
{
    assert((up * a.num) * (down * b.den) <= (up * b.num) * (down * a.den)) by (nonlinear_arith)
        requires
            a.num * b.den <= b.num * a.den,
    {
        assert((up * a.num) * (down * b.den) == (up * down) * (a.num * b.den));
        assert((up * b.num) * (down * a.den) == (up * down) * (b.num * a.den));
    }
}

proof fn lemma_scaled_rounding_monotone(a: RatioView, b: RatioView, up: nat, down: nat)
    requires
        a.den > 0,
        b.den > 0,
        down > 0,
        at_most(a, b),
    ensures
        at_most(rounded(up * a.num, down * a.den), rounded(up * b.num, down * b.den)),
        rounded(up * a.num, down * a.den).den > 0,
        rounded(up * b.num, down * b.den).den > 0,
{
    lemma_scaling_monotone(a, b, up, down);
    assert(down * a.den > 0 && down * b.den > 0) by (nonlinear_arith)
        requires
            a.den > 0,
            b.den > 0,
            down > 0,
    ;
    law_rounding_is_monotone(
        RatioView { num: up * a.num, den: down * a.den },
        RatioView { num: up * b.num, den: down * b.den },
    );
    law_rounding_error(up * a.num, down * a.den);
    law_rounding_error(up * b.num, down * b.den);
}

proof fn lemma_milliseconds_monotone(a: u32, b: u32)
    requires
        a <= b,
    ensures
        milliseconds_in(a) <= milliseconds_in(b),
{
    let (x, y) = (rounded(a as nat, 1), rounded(b as nat, 1));
    lemma_scaled_rounding_monotone(
        RatioView { num: a as nat, den: 1 },
        RatioView { num: b as nat, den: 1 },
        1,
        1,
    );
    let (p, q) = (
        rounded(x.num, SAMPLE_RATE as nat * x.den),
        rounded(y.num, SAMPLE_RATE as nat * y.den),
    );
    lemma_scaled_rounding_monotone(x, y, 1, SAMPLE_RATE as nat);
    lemma_scaled_rounding_monotone(p, q, 1000, 1);
    lemma_truncation_monotone(rounded(1000 * p.num, p.den), rounded(1000 * q.num, q.den));
}

/// More samples are never displayed as fewer milliseconds.
pub proof fn law_display_is_monotone(a: u32, b: u32)
    requires
        a <= b,
    ensures
        displayed_ms(a) <= displayed_ms(b),
{
    lemma_milliseconds_monotone(a, b);
}

/// A longer time never gives fewer samples.
pub proof fn law_samples_are_monotone(a: u64, b: u64)
    requires
        a <= b,
    ensures
        samples_in(a) <= samples_in(b),
{
    let (x, y) = (rounded(a as nat, 1), rounded(b as nat, 1));
    lemma_scaled_rounding_monotone(
        RatioView { num: a as nat, den: 1 },
        RatioView { num: b as nat, den: 1 },
        1,
        1,
    );
    let (p, q) = (
        rounded(SAMPLE_RATE as nat * x.num, x.den),
        rounded(SAMPLE_RATE as nat * y.num, y.den),
    );
    lemma_scaled_rounding_monotone(x, y, SAMPLE_RATE as nat, 1);
    lemma_scaled_rounding_monotone(p, q, 1, 1000);
    lemma_truncation_monotone(rounded(p.num, 1000 * p.den), rounded(q.num, 1000 * q.den));
}

proof fn lemma_few_samples(samples: u32)
    requires
        samples < 16,
    ensures
        milliseconds_in(samples) == 0,
{
    let n = samples as nat;
    let count = rounded(n, 1);
    let seconds = rounded(count.num, SAMPLE_RATE as nat * count.den);
    let scaled = rounded(1000 * seconds.num, seconds.den);
    lemma2_to64();
    law_rounding_keeps_singles(n, 1, n, 0);
    assert(count.num == n * count.den);
    assert(SAMPLE_RATE as nat * count.den > 0) by (nonlinear_arith)
        requires
            SAMPLE_RATE == 16000,
            count.den > 0,
    ;
    law_rounding_error(count.num, SAMPLE_RATE as nat * count.den);
    law_rounding_error(1000 * seconds.num, seconds.den);
    let (c, sn, sd, tn, td) = (count.den, seconds.num, seconds.den, scaled.num, scaled.den);
    let rate = SAMPLE_RATE as nat;
    assert(sn * 16000 * 0x100_0000 <= n * sd * 0x100_0001) by (nonlinear_arith)
        requires
            c > 0,
            rate == 16000,
            0x100_0000 * distance((n * c) * sd, sn * (rate * c)) <= (n * c) * sd,
    {
        assert(sn * (rate * c) == (sn * 16000) * c);
        assert((n * c) * sd == (n * sd) * c);
        assert((sn * 16000 * 0x100_0000) * c <= (n * sd * 0x100_0001) * c);
    }
    assert(tn * sd * 0x100_0000 <= 1000 * sn * td * 0x100_0001);
    assert(tn < td) by (nonlinear_arith)
        requires
            sd > 0,
            td > 0,
            n < 16,
            sn * 16000 * 0x100_0000 <= n * sd * 0x100_0001,
            tn * sd * 0x100_0000 <= 1000 * sn * td * 0x100_0001,
    {
        assert(n * sd <= 15 * sd);
        assert(sn * 16000 * 0x100_0000 <= 15 * sd * 0x100_0001);
        assert(100 * (1000 * sn) <= 94 * sd);
        assert((100 * (1000 * sn)) * td <= (94 * sd) * td);
        assert(100 * (1000 * sn * td) == (100 * (1000 * sn)) * td);
        assert(100 * (tn * sd) * 0x100_0000 <= (94 * sd) * td * 0x100_0001);
        assert((94 * sd) * td == 94 * (sd * td));
        assert(sd * td > 0);
        assert(tn * sd < sd * td);
        assert(tn * sd == sd * tn);
    }
    assert(tn / td == 0) by (nonlinear_arith)
        requires
            tn < td,
    ;
}

proof fn lemma_one_thousandth()
    ensures
        rounded(1, 1000) == (RatioView { num: 8_589_935, den: 0x2_0000_0000 }),
{
    reveal_with_fuel(rounded_small, 35);
}

proof fn lemma_sixteen_samples()
    ensures
        milliseconds_in(16) >= 1,
{
    let count = rounded(16, 1);
    let rate = SAMPLE_RATE as nat;
    let seconds = rounded(count.num, rate * count.den);
    let scaled = rounded(1000 * seconds.num, seconds.den);
    let one = rounded(1, 1);
    lemma2_to64();
    law_rounding_keeps_singles(16, 1, 16, 0);
    law_rounding_keeps_singles(1, 1, 1, 0);
    assert(1 * (rate * count.den) <= count.num * 1000 && rate * count.den > 0)
        by (nonlinear_arith)
        requires
            rate == 16000,
            count.num == 16 * count.den,
            count.den > 0,
    ;
    law_rounding_is_monotone(
        RatioView { num: 1, den: 1000 },
        RatioView { num: count.num, den: rate * count.den },
    );
    law_rounding_error(count.num, rate * count.den);
    lemma_one_thousandth();
    assert(1000 * seconds.num >= seconds.den);
    let whole = RatioView { num: 1, den: 1 };
    let product = RatioView { num: 1000 * seconds.num, den: seconds.den };
    assert(whole.num * product.den <= product.num * whole.den) by (nonlinear_arith)
        requires
            whole.num == 1,
            whole.den == 1,
            product.num >= product.den,
    ;
    law_rounding_is_monotone(whole, product);
    law_rounding_error(1000 * seconds.num, seconds.den);
    assert(scaled.num / scaled.den >= 1) by (nonlinear_arith)
        requires
            scaled.den > 0,
            one.den > 0,
            one.num == one.den,
            one.num * scaled.den <= scaled.num * one.den,
    {
        assert(scaled.den <= scaled.num);
    }
}

/// Zero is displayed for less than a millisecond, that is for fewer than sixteen
/// samples, and for nothing else.
pub proof fn law_zero_is_less_than_a_millisecond(samples: u32)
    ensures
        displayed_ms(samples) == 0 <==> samples < 16,
{
    if samples < 16 {
        lemma_few_samples(samples);
    } else {
        lemma_sixteen_samples();
        lemma_milliseconds_monotone(16, samples);
    }
}

/// The integer part of a fraction, as far as 32 bits go.
pub open spec fn is_whole_part(n: u32, r: RatioView) -> bool {
    ||| n as nat * r.den <= r.num < (n + 1) * r.den
    ||| n == u32::MAX && r.num >= u32::MAX as nat * r.den
}

proof fn lemma_truncated(r: RatioView)
    requires
        r.den > 0,
    ensures
        is_whole_part(truncated(r), r),
{
    let whole = r.num / r.den;
    assert(whole * r.den <= r.num < (whole + 1) * r.den) by (nonlinear_arith)
        requires
            r.den > 0,
            whole == r.num / r.den,
    ;
    assert(whole >= u32::MAX ==> r.num >= u32::MAX as nat * r.den) by (nonlinear_arith)
        requires
            whole * r.den <= r.num,
    ;
}

/// Milliseconds become samples in three steps, each rounded: the time is taken as a
/// single-precision number, multiplied by the rate and divided by a thousand; what
/// counts is the integer part.
pub proof fn law_samples_are_rate_times_time(ms: u64)
    ensures
        ({
            let time = rounded(ms as nat, 1);
            let product = rounded(16000 * time.num, time.den);
            let quotient = rounded(product.num, 1000 * product.den);
            is_whole_part(samples_in(ms), quotient)
        }),
{
    let time = rounded(ms as nat, 1);
    let product = rounded(16000 * time.num, time.den);
    law_rounding_error(ms as nat, 1);
    law_rounding_error(16000 * time.num, time.den);
    law_rounding_error(product.num, 1000 * product.den);
    lemma_truncated(rounded(product.num, 1000 * product.den));
}

/// Samples become milliseconds in three steps, each rounded: the count is taken as a
/// single-precision number, divided by the rate and multiplied by a thousand; what
/// counts is the integer part.
pub proof fn law_display_is_samples_over_rate(samples: u32)
    ensures
        ({
            let count = rounded(samples as nat, 1);
            let seconds = rounded(count.num, 16000 * count.den);
            let scaled = rounded(1000 * seconds.num, seconds.den);
            is_whole_part(displayed_ms(samples), scaled)
        }),
{
    let count = rounded(samples as nat, 1);
    let seconds = rounded(count.num, 16000 * count.den);
    law_rounding_error(samples as nat, 1);
    law_rounding_error(count.num, 16000 * count.den);
    law_rounding_error(1000 * seconds.num, seconds.den);
    lemma_truncated(rounded(1000 * seconds.num, seconds.den));
    if samples == 0 {
        lemma_few_samples(0);
    }
}

/// The threshold that an update asks for: a time in milliseconds counts first, zero
/// for never; without one, `false` for forcing means never, and anything else the
/// default of 0.8 seconds.
pub proof fn law_threshold_is_read_from_the_update(data: Json)
    ensures
        requested_threshold(data) == (match data.member("force_finalize_ms"@) {
            Some(Json::Unsigned(ms)) => samples_in(ms),
            _ => match data.member("force_finalize"@) {
                Some(Json::Bool(false)) => 0,
                _ => 12800,
            },
        }),
{
    law_short_times_are_exact(0);
}

} // verus!
