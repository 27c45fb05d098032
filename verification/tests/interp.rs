//! Interpolation primitives: fixed-point conversion, scalar convergence,
//! shortest-path angle interpolation, and the frame-delta clock.

use cactus_client::fx::{fx_add_sat, fx_from_f32_bits, fx_lerp, Fx, FX_MAX_RAW, FX_ONE};
use cactus_client::util::{lerp_angle, FrameClock, Scalar};

fn fx(v: f64) -> Fx {
    Fx { raw: (v * 65536.0) as i64 }
}

#[test]
fn f32_bits_conversion_exact_values() {
    assert_eq!(fx_from_f32_bits(0.0f32.to_bits()).raw, 0);
    assert_eq!(fx_from_f32_bits((-0.0f32).to_bits()).raw, 0);
    assert_eq!(fx_from_f32_bits(1.0f32.to_bits()).raw, 65536);
    assert_eq!(fx_from_f32_bits(2.5f32.to_bits()).raw, 163840);
    assert_eq!(fx_from_f32_bits((-2.5f32).to_bits()).raw, -163840);
    assert_eq!(fx_from_f32_bits(1000.0f32.to_bits()).raw, 65536000);
    // truncation toward zero for values that do not land on a raw unit
    assert_eq!(fx_from_f32_bits(0.8f32.to_bits()).raw, 52428);
    // specials: NaN reads as zero, infinities saturate
    assert_eq!(fx_from_f32_bits(f32::NAN.to_bits()).raw, 0);
    assert_eq!(fx_from_f32_bits(f32::INFINITY.to_bits()).raw, FX_MAX_RAW);
    assert_eq!(fx_from_f32_bits(f32::NEG_INFINITY.to_bits()).raw, -FX_MAX_RAW);
    // a subnormal is far below one raw unit
    assert_eq!(fx_from_f32_bits(1).raw, 0);
}

#[test]
fn saturating_add_clamps() {
    let near = Fx { raw: FX_MAX_RAW - 5 };
    let step = Fx { raw: 10 };
    assert_eq!(fx_add_sat(near, step).raw, FX_MAX_RAW);
    assert_eq!(fx_add_sat(Fx { raw: -FX_MAX_RAW + 2 }, Fx { raw: -7 }).raw, -FX_MAX_RAW);
    assert_eq!(fx_add_sat(fx(3.0), fx(4.0)).raw, fx(7.0).raw);
}

#[test]
fn lerp_reaches_target_at_rate_one() {
    let r = fx_lerp(fx(10.0), fx(-3.0), Fx { raw: FX_ONE });
    assert_eq!(r.raw, fx(-3.0).raw);
    let r2 = fx_lerp(fx(10.0), fx(-3.0), Fx { raw: 0 });
    assert_eq!(r2.raw, fx(10.0).raw);
}

#[test]
fn scalar_convergence_strictly_decreases_without_overshoot() {
    // repeated updates with a rate strictly between zero and one
    let mut s = Scalar { value: fx(100.0), tv: fx(0.0) };
    let rate = Fx { raw: 6554 }; // 0.1
    let mut prev = (s.value.raw - s.tv.raw).abs();
    for _ in 0..200 {
        if s.value.raw == s.tv.raw {
            break;
        }
        s.update(rate);
        let d = (s.value.raw - s.tv.raw).abs();
        assert!(d < prev, "distance must strictly decrease");
        assert!(s.value.raw >= s.tv.raw, "must never overshoot past the target");
        prev = d;
    }
    // and from below, symmetric
    let mut s2 = Scalar { value: fx(-4.0), tv: fx(9.0) };
    let mut prev2 = (s2.value.raw - s2.tv.raw).abs();
    while s2.value.raw != s2.tv.raw {
        s2.update(rate);
        let d = (s2.value.raw - s2.tv.raw).abs();
        assert!(d < prev2);
        assert!(s2.value.raw <= s2.tv.raw);
        prev2 = d;
    }
}

#[test]
fn set_update_retargets_and_steps_at_once() {
    let mut s = Scalar { value: fx(1.0), tv: fx(1.0) };
    s.set_update(fx(0.0), Fx { raw: 6554 });
    assert_eq!(s.tv.raw, 0);
    assert!(s.value.raw < fx(1.0).raw);
    assert!(s.value.raw > 0);
}

#[test]
fn angle_interpolation_takes_the_short_path() {
    // 179 degrees to -179 degrees, halfway: the result must sit near the
    // wrap boundary (about +/-180 degrees), not near zero
    let a = fx(179.0f64.to_radians());
    let b = fx((-179.0f64).to_radians());
    let half = Fx { raw: 32768 };
    let r = lerp_angle(a, b, half);
    let r_deg = (r.raw as f64 / 65536.0).to_degrees();
    assert!(
        r_deg > 179.5 || r_deg < -179.5,
        "expected a result near the wrap boundary, got {} degrees",
        r_deg
    );

    // a plain small interpolation stays exact in the fixed-point domain
    let r2 = lerp_angle(fx(0.0), fx(1.0), half);
    assert!((r2.raw - 32768).abs() <= 1);
}

#[test]
fn frame_clock_floors_at_one_and_resets_on_long_gaps() {
    let mut clock = FrameClock::new(0);
    // a fast frame (8ms) can never dip below a delta of one
    let d = clock.tick(8_000);
    assert_eq!(d.raw, FX_ONE);
    // a slow frame (48ms = 3 nominal frames) raises the delta above one
    let d2 = clock.tick(8_000 + 48_000);
    assert!(d2.raw > FX_ONE);
    assert!(d2.raw < 3 * FX_ONE);
    // a gap beyond half a second resets outright to one
    let d3 = clock.tick(8_000 + 48_000 + 700_000);
    assert_eq!(d3.raw, FX_ONE);
    // a clock running backwards also resets to one
    let d4 = clock.tick(0);
    assert_eq!(d4.raw, FX_ONE);
}

#[test]
fn frame_clock_smooths_toward_raw_delta() {
    let mut clock = FrameClock::new(0);
    let mut now = 0u64;
    let mut last = FX_ONE;
    // steady 32ms frames drive the smoothed delta toward two
    for _ in 0..60 {
        now += 32_000;
        last = clock.tick(now).raw;
    }
    assert!(last > 19 * FX_ONE / 10, "delta {} should approach 2.0", last);
    assert!(last <= 2 * FX_ONE + 1);
}
