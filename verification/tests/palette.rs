//! Gradients: where a position falls on one, the library, and the axis hues.

use fracturize::offline::UNIT;
use fracturize::palette::axes::{
    axis_linear, neutral_linear, reference_linear, AXIS_SRGB, NEUTRAL_SRGB, REFERENCE_SRGB,
};
use fracturize::palette::{
    library, luminance_profile, stops_to_take, Body, Cosine, Ink, Interpolate, Palette, Reading,
    Stop,
};
use fracturize::quantity::Point;

fn fx(v: f64) -> i64 {
    (v * UNIT as f64).round() as i64
}

fn point(x: f64, y: f64, z: f64) -> Point {
    Point { x: fx(x), y: fx(y), z: fx(z) }
}

fn encode(v: f64) -> u8 {
    let v = v.clamp(0.0, 1.0);
    let s = if v <= 0.003_130_8 { v * 12.92 } else { 1.055 * v.powf(1.0 / 2.4) - 0.055 };
    (s * 255.0).round() as u8
}

fn decode(v: u8) -> f64 {
    let s = v as f64 / 255.0;
    if s <= 0.040_45 { s / 12.92 } else { ((s + 0.055) / 1.055).powf(2.4) }
}

fn ink(c: [f64; 3]) -> Ink {
    Ink {
        red: encode(c[0]),
        green: encode(c[1]),
        blue: encode(c[2]),
        linear: Some(point(c[0], c[1], c[2])),
    }
}

fn linear(i: Ink) -> [f64; 3] {
    match i.linear {
        Some(p) => [p.x, p.y, p.z].map(|v| v as f64 / UNIT as f64),
        None => [decode(i.red), decode(i.green), decode(i.blue)],
    }
}

/// The colour that a reading stands for, mixed in linear light.
fn value(r: Reading) -> [f64; 3] {
    match r {
        Reading::White => [1.0; 3],
        Reading::Flat(i) => linear(i),
        Reading::Mixed { from, to, part, of } => {
            let (a, b, t) = (linear(from), linear(to), part as f64 / of as f64);
            [0, 1, 2].map(|k| a[k] + (b[k] - a[k]) * t)
        }
        Reading::Formula { cosine, at } => {
            let f = |a: i64, b: i64, c: i64, d: i64| {
                let u = UNIT as f64;
                let turn = (c as f64 / u) * (at as f64 / u) + d as f64 / u;
                (a as f64 / u + b as f64 / u * (turn * std::f64::consts::TAU).cos()).clamp(0.0, 1.0)
            };
            let k = cosine;
            [f(k.a.x, k.b.x, k.c.x, k.d.x), f(k.a.y, k.b.y, k.c.y, k.d.y), f(k.a.z, k.b.z, k.c.z, k.d.z)]
        }
    }
}

fn at(p: &Palette, t: f64) -> [f64; 3] {
    value(p.sample(fx(t)))
}

fn apart(a: [f64; 3], b: [f64; 3]) -> f64 {
    (0..3).map(|k| (a[k] - b[k]) * (a[k] - b[k])).sum::<f64>().sqrt()
}

const X: [f64; 3] = [1.0, 0.0, 0.0];
const Y: [f64; 3] = [0.0, 1.0, 0.0];
const Z: [f64; 3] = [0.0, 0.0, 1.0];
const ONE: [f64; 3] = [1.0, 1.0, 1.0];

fn stop(at: f64, c: [f64; 3]) -> Stop {
    Stop { at: fx(at), color: ink(c) }
}

/// N colours spread evenly round a ring, worked out longhand.
fn ring(colors: &[[f64; 3]], i: usize) -> [f64; 3] {
    if colors.is_empty() {
        return ONE;
    }
    if colors.len() == 1 {
        return colors[0];
    }
    let n = colors.len();
    let scaled = i as f64 / 256.0 * n as f64;
    let idx0 = scaled.floor() as usize;
    let idx1 = (idx0 + 1) % n;
    let local = scaled - idx0 as f64;
    [0, 1, 2].map(|k| colors[idx0][k] * (1.0 - local) + colors[idx1][k] * local)
}

#[test]
fn transform_ring_matches_the_old_generator() {
    let palettes: Vec<Vec<[f64; 3]>> = vec![
        vec![],
        vec![[0.9, 0.5, 0.25]],
        vec![[0.9, 0.5, 0.25], [0.25, 0.6, 0.9]],
        vec![X, Y, Z],
        vec![X, Y, Z, [1.0, 1.0, 0.2]],
        (0..7).map(|i| [i as f64 / 7.0; 3]).collect(),
    ];
    for colors in palettes {
        let inks: Vec<Ink> = colors.iter().map(|&c| ink(c)).collect();
        let got = Palette::from_transform_colors(&inks).to_colormap();
        assert_eq!(got.len(), 256);
        for i in 0..256 {
            let (want, got) = (ring(&colors, i), value(got[i]));
            for ch in 0..3 {
                assert!(
                    (want[ch] - got[ch]).abs() < 1e-6,
                    "{} colours, entry {} channel {}: {} vs {}",
                    colors.len(),
                    i,
                    ch,
                    want[ch],
                    got[ch]
                );
            }
        }
    }
}

#[test]
fn moving_a_stop_past_its_neighbour_reports_the_new_index() {
    let mut p = Palette::from_stops(&vec![stop(0.0, X), stop(0.25, Y), stop(0.5, Z), stop(0.75, ONE)]);

    let landed = p.move_stop(1, fx(0.6));
    assert_eq!(landed, 2, "0.6 sits between 0.5 and 0.75");
    assert_eq!(p.stops().unwrap()[landed].color, ink(Y), "it must be the same stop");

    let landed = p.move_stop(landed, fx(0.1));
    assert_eq!(landed, 1);
    assert_eq!(p.stops().unwrap()[landed].color, ink(Y));

    let ats: Vec<i64> = p.stops().unwrap().iter().map(|s| s.at).collect();
    assert!(ats.windows(2).all(|w| w[0] <= w[1]), "{ats:?}");
}

#[test]
fn moving_a_stop_onto_another_still_tracks_the_right_one() {
    let mut p = Palette::from_stops(&vec![stop(0.0, X), stop(0.5, Y), stop(0.9, Z)]);
    let landed = p.move_stop(2, fx(0.5));
    assert_eq!(p.stops().unwrap()[landed].color, ink(Z));
    assert_eq!(p.stops().unwrap().len(), 3, "coincident stops are legal, not merged");
}

#[test]
fn move_stop_is_a_no_op_on_a_palette_without_control_points() {
    let c = Cosine {
        a: point(0.5, 0.5, 0.5),
        b: point(0.5, 0.5, 0.5),
        c: point(1.0, 1.0, 1.0),
        d: point(0.0, 0.0, 0.0),
    };
    let mut p = Palette::from_cosine(c);
    assert_eq!(p.move_stop(0, fx(0.5)), 0);
    assert!(matches!(p.body, Body::Cosine(k) if k == c));
    assert!(p.name.is_none() && p.cyclic && p.rotate == 0 && !p.reverse);
    assert_eq!(p.interpolate, Interpolate::Rgb);
}

#[test]
fn a_moved_stop_stays_short_of_the_end() {
    let mut p = Palette::from_stops(&vec![stop(0.0, X), stop(0.5, Y)]);
    assert_eq!(p.move_stop(0, fx(3.0)), 1);
    assert_eq!(p.stops().unwrap()[1].at, fx(0.999));
    assert_eq!(p.move_stop(1, fx(-3.0)), 0);
    assert_eq!(p.stops().unwrap()[0].at, 0);
    // One that is not there is left alone.
    assert_eq!(p.move_stop(9, fx(0.3)), 9);
    assert_eq!(p.stops().unwrap()[1].at, fx(0.5));
}

#[test]
fn stops_land_on_their_own_colour() {
    let p = Palette::from_stops(&vec![stop(0.0, X), stop(0.5, Y)]);
    assert!(apart(at(&p, 0.0), X) < 1e-6);
    assert!(apart(at(&p, 0.5), Y) < 1e-6);
    assert!(apart(at(&p, 0.25), [0.5, 0.5, 0.0]) < 1e-6);
    assert!(apart(at(&p, 0.75), [0.5, 0.5, 0.0]) < 1e-6);
}

#[test]
fn clamped_palettes_hold_their_ends() {
    let mut p = Palette::from_stops(&vec![stop(0.2, X), stop(0.8, Z)]);
    p.cyclic = false;
    assert_eq!(at(&p, 0.0), X);
    assert_eq!(at(&p, 0.1), X);
    assert_eq!(at(&p, 1.0), Z);
    p.cyclic = true;
    assert!(apart(at(&p, 0.0), [0.5, 0.0, 0.5]) < 1e-6);
}

#[test]
fn rotate_shifts_the_gradient_forward() {
    let colors = vec![ink(X), ink(Y), ink(Z)];
    let base = Palette::from_transform_colors(&colors);
    let mut rotated = Palette::from_transform_colors(&colors);
    rotated.rotate = fx(1.0 / 3.0);
    for i in 0..64 {
        let t = i as f64 / 64.0;
        let want = at(&base, (t - 1.0 / 3.0).rem_euclid(1.0));
        assert!(apart(at(&rotated, t), want) < 1e-5, "at t = {t}");
    }
    let mut full = Palette::from_transform_colors(&colors);
    full.rotate = fx(1.0);
    assert!(apart(at(&full, 0.3), at(&base, 0.3)) < 1e-5);
}

#[test]
fn reverse_mirrors_the_gradient() {
    let colors = vec![ink(X), ink(Y), ink(Z)];
    let base = Palette::from_transform_colors(&colors);
    let mut rev = Palette::from_transform_colors(&colors);
    rev.reverse = true;
    for i in 0..64 {
        let t = i as f64 / 64.0;
        assert!(apart(at(&rev, t), at(&base, (-t).rem_euclid(1.0))) < 1e-5);
    }
}

#[test]
fn cosine_palettes_stay_in_gamut_and_wrap() {
    let p = Palette::from_cosine(Cosine {
        a: point(0.5, 0.5, 0.5),
        b: point(0.5, 0.5, 0.5),
        c: point(1.0, 1.0, 1.0),
        d: point(0.0, 0.33, 0.67),
    });
    for i in 0..256 {
        let s = at(&p, i as f64 / 256.0);
        assert!(s.iter().all(|&c| (0.0..=1.0).contains(&c)));
    }
    assert!(apart(at(&p, 0.0), at(&p, 1.0)) < 1e-5, "integer frequency must wrap");
}

#[test]
fn to_stops_approximates_the_source() {
    let p = Palette::from_cosine(Cosine {
        a: point(0.5, 0.5, 0.5),
        b: point(0.4, 0.4, 0.4),
        c: point(1.0, 1.0, 1.0),
        d: point(0.0, 0.1, 0.2),
    });
    let n = stops_to_take(32);
    let colors: Vec<Ink> = (0..n).map(|i| ink(at(&p, i as f64 / n as f64))).collect();
    let frozen = p.to_stops(&colors);
    assert_eq!(frozen.stops().map(|s| s.len()), Some(32));
    for i in 0..64 {
        let t = i as f64 / 64.0;
        assert!(apart(at(&frozen, t), at(&p, t)) < 0.05, "at t = {t}");
    }
}

#[test]
fn freezing_takes_two_stops_at_least() {
    assert_eq!(stops_to_take(0), 2);
    assert_eq!(stops_to_take(1), 2);
    assert_eq!(stops_to_take(7), 7);
    let mut p = Palette::from_stops(&vec![stop(0.0, X), stop(0.5, Y)]);
    p.rotate = fx(0.3);
    p.reverse = true;
    p.cyclic = false;
    let f = p.to_stops(&vec![ink(Z), ink(X), ink(Y), ink(ONE)]);
    let ats: Vec<i64> = f.stops().unwrap().iter().map(|s| s.at).collect();
    assert_eq!(ats, vec![0, fx(0.25), fx(0.5), fx(0.75)]);
    assert!(f.rotate == 0 && !f.reverse && !f.cyclic);
}

#[test]
fn entries_are_read_by_their_index() {
    let entries: Vec<Ink> = (0..256).map(|i| Ink::shown(i as u8, 0, 0)).collect();
    let mut p = Palette::from_entries(entries);
    assert_eq!(p.sample(0), Reading::Flat(Ink::shown(0, 0, 0)));
    assert_eq!(p.sample(fx(0.5)), Reading::Flat(Ink::shown(128, 0, 0)));
    assert_eq!(p.sample(fx(0.999)), Reading::Flat(Ink::shown(255, 0, 0)));
    assert_eq!(p.sample(fx(1.0)), Reading::Flat(Ink::shown(0, 0, 0)), "a cycle starts again");
    p.cyclic = false;
    assert_eq!(p.sample(fx(1.0)), Reading::Flat(Ink::shown(255, 0, 0)), "an end holds");
}

#[test]
fn coincident_stops_are_a_hard_edge() {
    let p = Palette::from_stops(&vec![stop(0.0, X), stop(0.5, Y), stop(0.5, Z)]);
    assert!(apart(at(&p, 0.499_999), Y) < 1e-4);
    assert!(apart(at(&p, 0.5), Z) < 1e-9);
    assert_eq!(Palette::from_stops(&vec![]).sample(fx(0.4)), Reading::White);
    assert_eq!(Palette::from_stops(&vec![stop(0.3, Y)]).sample(fx(0.9)), Reading::Flat(ink(Y)));
}

#[test]
fn a_palette_describes_itself() {
    assert_eq!(library::get("ember").unwrap().describe().split(' ').next(), Some("ember"));
    let mut p = Palette::from_stops(&vec![stop(0.0, X), stop(0.5, Y)]);
    assert_eq!(p.describe(), "2 stops");
    p.cyclic = false;
    p.interpolate = Interpolate::Oklab;
    p.rotate = fx(0.25);
    p.reverse = true;
    assert_eq!(p.describe(), "2 stops, clamped, oklab, rotate 0.250, reversed");
    p.name = Some("dusk".to_string());
    assert_eq!(p.describe(), "dusk (2 stops), clamped, oklab, rotate 0.250, reversed");
    assert_eq!(Palette::from_entries(vec![ink(X); 256]).describe(), "256 entries");
}

#[test]
fn a_space_has_a_word_in_any_case() {
    assert_eq!(Interpolate::parse("OkLab"), Some(Interpolate::Oklab));
    assert_eq!(Interpolate::parse("RGB"), Some(Interpolate::Rgb));
    assert_eq!(Interpolate::parse("hsv"), None);
    assert_eq!(Interpolate::Oklab.name(), "oklab");
    assert_eq!(Interpolate::Rgb.name(), "rgb");
}

#[test]
fn a_profile_is_the_mean_and_the_swing() {
    assert_eq!(luminance_profile(&vec![fx(0.1), fx(0.5), fx(0.3)]), (fx(0.3), fx(0.4)));
    assert_eq!(luminance_profile(&vec![fx(0.2)]), (fx(0.2), 0));
}

#[test]
fn names_are_unique_and_resolvable() {
    let mut seen = std::collections::HashSet::new();
    for name in library::names() {
        assert!(seen.insert(name), "duplicate library palette '{name}'");
        assert!(library::get(name).is_some(), "'{name}' does not resolve");
        assert!(library::get(&name.to_uppercase()).is_some(), "'{name}' lookup is case-sensitive");
        assert!(library::blurb(name).is_some(), "'{name}' has no blurb");
    }
    assert!(library::get("no-such-palette").is_none());
    assert!(library::blurb("no-such-palette").is_none());
}

#[test]
fn stops_are_sorted_and_in_range() {
    assert_eq!(library::all().len(), library::len());
    for p in library::all() {
        let name = p.name.as_deref().unwrap();
        let stops = p.stops().unwrap();
        assert!(stops.len() >= 2, "'{}' needs at least two stops", name);
        for w in stops.windows(2) {
            assert!(w[0].at < w[1].at, "'{}' stops are out of order", name);
        }
        for s in stops {
            assert!((0..UNIT as i64).contains(&s.at), "'{}' stop at {} is out of range", name, s.at);
        }
    }
}

#[test]
fn every_palette_has_a_luminance_sweep_and_no_seam() {
    for p in library::all() {
        let name = p.name.as_deref().unwrap();
        let l: Vec<i64> = (0..64)
            .map(|i| {
                let c = at(&p, i as f64 / 64.0);
                fx(0.2126 * c[0] + 0.7152 * c[1] + 0.0722 * c[2])
            })
            .collect();
        let (_, swing) = luminance_profile(&l);
        assert!(swing > fx(0.15), "'{name}' is too flat to shade with (swing {swing})");

        let steps: Vec<f64> = (0..256)
            .map(|i| apart(at(&p, i as f64 / 256.0), at(&p, (i + 1) as f64 / 256.0)))
            .collect();
        let seam = steps[255];
        let elsewhere = steps[..255].iter().sum::<f64>() / 255.0;
        assert!(
            seam <= elsewhere * 4.0 + 1e-4,
            "'{name}' has a seam at index 0 ({seam:.4} vs {elsewhere:.4} typical)"
        );
    }
}

#[test]
fn the_library_lists_its_names_in_order() {
    let names = library::names();
    assert_eq!(names.len(), library::len());
    assert_eq!(library::listed(), names.join(", "));
    for (i, name) in names.iter().enumerate() {
        assert_eq!(library::title(i).0, *name);
        assert_eq!(Some(library::title(i).1), library::blurb(name));
        assert_eq!(library::at(i).name.as_deref(), Some(*name));
    }
}

#[test]
fn linear_and_srgb_forms_agree() {
    let bytes = |i: Ink| linear(i).map(encode);
    for k in 0..3 {
        assert_eq!(bytes(axis_linear(k)), AXIS_SRGB[k], "axis {k}");
    }
    assert_eq!(bytes(neutral_linear()), NEUTRAL_SRGB);
    assert_eq!(bytes(reference_linear()), REFERENCE_SRGB);
}

#[test]
fn an_axis_past_the_last_has_the_last_ones_hue() {
    assert_eq!(axis_linear(7), axis_linear(2));
    assert_ne!(axis_linear(0), axis_linear(1));
}

#[test]
fn the_three_axes_are_distinguishable() {
    for k in 0..3 {
        let ch = linear(axis_linear(k));
        let dominant = ch[k];
        for (j, v) in ch.iter().enumerate() {
            if j != k {
                assert!(
                    dominant > v * 1.8,
                    "axis {k} must be dominated by channel {k}, got {ch:?}"
                );
            }
        }
    }
}

#[test]
fn edited_stops_are_put_in_order_again() {
    let mut p = Palette::from_stops(&vec![stop(0.0, X), stop(0.5, Y), stop(0.9, Z)]);
    p.rotate = fx(0.25);
    p.stops_mut().expect("it has stops")[0].at = fx(0.7);
    assert_eq!(p.stops().unwrap()[0].at, fx(0.7));
    p.sort_stops();
    let places: Vec<i64> = p.stops().unwrap().iter().map(|s| s.at).collect();
    assert_eq!(places, vec![fx(0.5), fx(0.7), fx(0.9)]);
    assert_eq!(p.rotate, fx(0.25));

    let mut rows = Palette::from_entries(vec![ink(X)]);
    assert!(rows.stops_mut().is_none());
    rows.sort_stops();
    assert!(rows.stops().is_none());
}

/// A name finds one palette, however its letters are written.
#[test]
fn a_library_name_finds_its_palette_in_any_case() {
    for p in library::all() {
        let name = p.name.clone().unwrap();
        for word in [name.clone(), name.to_uppercase()] {
            let found = library::get(&word).unwrap();
            assert_eq!(found.name.as_deref(), Some(name.as_str()));
            assert_eq!(found.stops().unwrap(), p.stops().unwrap());
        }
    }
}
