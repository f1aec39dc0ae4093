use vosk_commands::json::Json;
use vosk_commands::single::round;
use vosk_commands::timing::{
    ff_ms, read_threshold, samples_for, DEFAULT_FORCE_FINALIZE_SAMPLES, SAMPLE_RATE,
    WARM_UP_SAMPLES,
};

const RATE: f32 = 16000.0;

fn data(members: Vec<(&str, Json)>) -> Json {
    Json::Object(members.into_iter().map(|(k, v)| (k.to_string(), v)).collect())
}

#[test]
fn constants_are_the_rounded_products() {
    assert_eq!(SAMPLE_RATE as f32, RATE);
    assert_eq!(DEFAULT_FORCE_FINALIZE_SAMPLES, (RATE * 0.8) as u32);
    assert_eq!(WARM_UP_SAMPLES, (RATE * 0.3) as usize);
    assert_eq!(samples_for(800), DEFAULT_FORCE_FINALIZE_SAMPLES);
}

#[test]
fn samples_agree_with_single_precision() {
    let mut ms: u64 = 0;
    let mut tried = 0;
    while ms < 400_000 {
        assert_eq!(samples_for(ms), (RATE * ms as f32 / 1000.0) as u32, "{}", ms);
        ms += 7;
    }
    let mut ms: u64 = 1;
    while ms < u64::MAX / 3 {
        for near in [ms - 1, ms, ms + 1, ms + ms / 3, ms + ms / 7] {
            assert_eq!(samples_for(near), (RATE * near as f32 / 1000.0) as u32, "{}", near);
            tried += 1;
        }
        ms = ms * 2;
    }
    assert!(tried > 200);
    assert_eq!(samples_for(u64::MAX), u32::MAX);
    assert_eq!(samples_for(u64::MAX - 1), (RATE * (u64::MAX - 1) as f32 / 1000.0) as u32);
}

#[test]
fn short_times_are_exact() {
    for ms in [0u64, 1, 800, 1500, 60_000, 134_216, 134_217] {
        assert_eq!(samples_for(ms) as u64, 16 * ms);
    }
}

#[test]
fn milliseconds_agree_with_single_precision() {
    assert_eq!(ff_ms(0), 0);
    assert_eq!(ff_ms(12800), 800);
    // 251 ms come out as 250: the quotient is rounded down and then cut off.
    assert_eq!(ff_ms(16 * 251), 250);
    let mut n: u32 = 1;
    while n < 4_000_000 {
        assert_eq!(ff_ms(n), (n as f32 / RATE * 1000.0) as u32, "{}", n);
        n += 13;
    }
    let mut n: u32 = 3;
    while n < u32::MAX / 3 {
        for near in [n - 1, n, n + 1, n + n / 3, n + n / 7] {
            assert_eq!(ff_ms(near), (near as f32 / RATE * 1000.0) as u32, "{}", near);
        }
        n = n * 2;
    }
    assert_eq!(ff_ms(u32::MAX), (u32::MAX as f32 / RATE * 1000.0) as u32);
}

#[test]
fn rounding_is_to_nearest_even() {
    // 2^24 + 1 and 2^24 + 3 lie halfway between neighbours.
    for (num, expected) in [
        (0x100_0001u128, 0x100_0000u128),
        (0x100_0003, 0x100_0004),
        (0x100_0002, 0x100_0002),
        (7, 7),
    ] {
        let r = round(num, 1);
        assert_eq!(r.num, expected * r.den);
    }
    let third = round(1, 3);
    assert_eq!(third.num as f32 / third.den as f32, 1.0f32 / 3.0);
    assert_eq!(round(0, 5).num, 0);
}

#[test]
fn threshold_in_milliseconds_counts_first() {
    let d = data(vec![
        ("force_finalize", Json::Bool(false)),
        ("force_finalize_ms", Json::Unsigned(500)),
    ]);
    assert_eq!(read_threshold(&d), 8000);
    let d = data(vec![("force_finalize_ms", Json::Unsigned(0))]);
    assert_eq!(read_threshold(&d), 0);
}

#[test]
fn threshold_can_be_switched_off() {
    assert_eq!(read_threshold(&data(vec![("force_finalize", Json::Bool(false))])), 0);
    assert_eq!(
        read_threshold(&data(vec![("force_finalize", Json::Bool(true))])),
        DEFAULT_FORCE_FINALIZE_SAMPLES,
    );
}

#[test]
fn threshold_defaults_where_nothing_fits() {
    for d in [
        Json::Null,
        data(vec![]),
        data(vec![("force_finalize_ms", Json::OtherNumber)]),
        data(vec![("force_finalize_ms", Json::Text("500".to_string()))]),
        data(vec![("force_finalize", Json::Unsigned(0))]),
    ] {
        assert_eq!(read_threshold(&d), DEFAULT_FORCE_FINALIZE_SAMPLES);
    }
}

#[test]
fn rounding_is_off_by_one_part_in_two_to_the_24_at_most() {
    for (num, den) in [(1u128, 3u128), (2, 16000), (123_456_789, 1000), (u64::MAX as u128, 7)] {
        let r = round(num, den);
        let (a, b) = (num * r.den, r.num * den);
        assert!((1 << 24) * a.abs_diff(b) <= a);
    }
}

#[test]
fn more_samples_never_show_fewer_milliseconds() {
    let mut last = 0;
    for n in 0..200_000 {
        let ms = ff_ms(n);
        assert!(last <= ms, "{}", n);
        assert_eq!(ms == 0, n < 16, "{}", n);
        last = ms;
    }
    for n in [0xff_ffffu32, 0x100_0000, 0x100_0001, 0x7fff_ffff, 0xffff_fffe] {
        assert!(ff_ms(n) <= ff_ms(n + 1));
    }
    assert_eq!(ff_ms(15), 0);
    assert_eq!(ff_ms(16), 1);
}

#[test]
fn longer_times_never_give_fewer_samples() {
    let mut last = 0;
    for ms in (0..300_000u64).chain(u64::MAX - 10..=u64::MAX) {
        let samples = samples_for(ms);
        assert!(last <= samples, "{}", ms);
        last = samples;
    }
}
