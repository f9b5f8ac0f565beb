//! The haze control and the band that it works over.

use fracturize::haze::{amount_from_brightness, auto_band, falloff};
use fracturize::offline::UNIT;

fn fx(v: f64) -> i64 {
    (v * UNIT as f64).round() as i64
}

#[test]
fn zero_amount_is_the_shader_noop() {
    assert_eq!(falloff(0), (fx(1.0), fx(1.0)));
}

#[test]
fn amount_round_trips_through_brightness() {
    for a in [0.0, 0.25, 0.5, 0.7, 1.0] {
        let (t, _) = falloff(fx(a));
        assert_eq!(amount_from_brightness(t), fx(a), "amount {a} -> transmittance {t}");
    }
}

#[test]
fn full_haze_dissolves_completely() {
    let (t, _) = falloff(fx(1.0));
    assert_eq!(t, 0, "full haze must reach zero transmittance");
}

#[test]
fn partial_haze_leaves_a_proportional_share() {
    let (t, _) = falloff(fx(0.5));
    assert_eq!(t, fx(0.5), "transmittance {t}");
}

#[test]
fn more_amount_means_less_of_both() {
    let (t_lo, s_lo) = falloff(fx(0.3));
    let (t_hi, s_hi) = falloff(fx(0.9));
    assert!(t_hi < t_lo, "transmittance must fall with amount");
    assert!(s_hi < s_lo, "saturation must fall with amount");
}

#[test]
fn legacy_fog_defaults_map_to_a_strong_amount() {
    let a = amount_from_brightness(fx(0.4));
    assert!((fx(0.6)..=fx(0.75)).contains(&a), "legacy --fog maps to amount {a}");
}

#[test]
fn band_straddles_the_framed_form() {
    let r = 1.5;
    let (near, far) = auto_band(fx(2.4 * r));
    assert!((near - fx(2.4 * r - r)).abs() < fx(1e-4), "near {near}");
    assert!((far - fx(2.4 * r + r)).abs() < fx(1e-4), "far {far}");
}

#[test]
fn band_follows_zoom() {
    let (n1, f1) = auto_band(fx(3.0));
    let (n2, f2) = auto_band(fx(1.5));
    assert!(n2 < n1 && f2 < f1, "band must shrink toward a closer camera");
}

#[test]
fn amounts_past_the_ends_are_held() {
    assert_eq!(falloff(fx(-3.0)), falloff(0));
    assert_eq!(falloff(fx(7.0)), falloff(fx(1.0)));
    assert_eq!(falloff(fx(1.0)), (0, fx(0.35)));
    assert_eq!(amount_from_brightness(fx(2.0)), 0);
    assert_eq!(amount_from_brightness(fx(-1.0)), fx(1.0));
    // A camera on top of its subject has a band all the same.
    assert_eq!(auto_band(0), auto_band(fx(0.01)));
}
