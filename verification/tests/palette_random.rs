//! Rolled gradients, and changes to gradients.

use fracturize::offline::UNIT;
use fracturize::palette::random::{
    best_of, channels_of, choose_by, choose_generator, climb_of, cosine, cosine_from, harmony, harmony_from,
    hsv_to_linear, perturb, push_with_sign, change_from, roll_change, roll_harmony, Change, ChangeRolls, CosineRolls,
    Generator, HarmonyDraws, Height, CANDIDATES,
};
use fracturize::palette::{library, Body, Cosine, Ink, Interpolate, Palette, Stop};
use fracturize::quantity::Point;
use fracturize::rng::{choose_between, ROLLS};
use rand::rngs::StdRng;
use rand::SeedableRng;

fn rng(seed: u64) -> StdRng {
    StdRng::seed_from_u64(seed)
}

fn fx(v: f64) -> i64 {
    (v * UNIT as f64).round() as i64
}

fn even(v: f64) -> Point {
    Point { x: fx(v), y: fx(v), z: fx(v) }
}

/// A rolled scheme, its brightness worked out from how far up each stop is.
fn rolled_harmony(r: &mut StdRng) -> Palette {
    let rolls = roll_harmony(r);
    let heights: Vec<Height> = (0..rolls.n)
        .map(|i| {
            let climb = climb_of(i, rolls.n, rolls.peak_at) as f64 / UNIT as f64;
            let e = (climb * std::f64::consts::FRAC_PI_2).sin();
            Height { value: fx(e), highlight: fx(e.powf(2.5)) }
        })
        .collect();
    harmony(&rolls, &heights)
}

fn rolled(r: &mut StdRng) -> Palette {
    match choose_generator(r) {
        Generator::Cosine => cosine(r),
        Generator::Harmony => rolled_harmony(r),
        Generator::Library => library::random(r),
    }
}

fn same(a: &Palette, b: &Palette) -> bool {
    let bodies = match (&a.body, &b.body) {
        (Body::Stops(x), Body::Stops(y)) => x == y,
        (Body::Entries(x), Body::Entries(y)) => x == y,
        (Body::Cosine(x), Body::Cosine(y)) => x == y,
        _ => false,
    };
    bodies
        && a.name == b.name
        && a.cyclic == b.cyclic
        && a.interpolate == b.interpolate
        && a.rotate == b.rotate
        && a.reverse == b.reverse
}

#[test]
fn a_seed_reproduces_a_palette() {
    assert!(same(&rolled(&mut rng(7)), &rolled(&mut rng(7))));
    assert!(!same(&rolled(&mut rng(7)), &rolled(&mut rng(8))));
}

#[test]
fn each_generator_produces_its_own_kind() {
    assert!(matches!(cosine(&mut rng(1)).body, Body::Cosine(_)));
    assert!(matches!(rolled_harmony(&mut rng(1)).body, Body::Stops(_)));
    let lib = library::random(&mut rng(1));
    assert!(library::names().contains(&lib.name.as_deref().unwrap()));
    for g in Generator::ALL {
        assert_eq!(Generator::parse(g.name()), Some(g));
    }
    assert_eq!(Generator::parse("nope"), None);
}

#[test]
fn perturb_changes_something_and_stays_valid() {
    for seed in 0..16 {
        let mut r = rng(seed);
        let mut p = rolled(&mut r);
        let before = rolled(&mut rng(seed));
        assert!(same(&p, &before));
        let change = roll_change(&p, &mut r, UNIT as i64);
        let colors: Vec<Ink> = match &p.body {
            Body::Stops(s) => s.iter().map(|s| Ink::shown(s.color.green, s.color.blue, s.color.red)).collect(),
            Body::Entries(e) => e.iter().map(|c| Ink::shown(c.green, c.blue, c.red)).collect(),
            Body::Cosine(_) => vec![],
        };
        let log = perturb(&mut p, &change, &colors, fx(0.1));
        assert!(!log.is_empty());
        assert_eq!(log, change.describe());
        assert!(!same(&p, &before), "seed {seed}: '{log}' changed nothing");
        assert!((0..UNIT as i64).contains(&p.rotate));
        if let Body::Stops(s) = &p.body {
            assert!(s.windows(2).all(|w| w[0].at <= w[1].at));
            assert!(s.iter().all(|s| (0..UNIT as i64).contains(&s.at)));
        }
    }
}

#[test]
fn hsv_primaries_land_where_they_should() {
    let bytes = |h: f64, s: f64, v: f64| {
        let i = hsv_to_linear(fx(h), fx(s), fx(v));
        [i.red, i.green, i.blue]
    };
    assert_eq!(bytes(0.0, 1.0, 1.0), [255, 0, 0]);
    assert_eq!(bytes(120.0, 1.0, 1.0), [0, 255, 0]);
    assert_eq!(bytes(240.0, 1.0, 1.0), [0, 0, 255]);
    assert_eq!(bytes(0.0, 0.0, 1.0), [255, 255, 255]);
}

#[test]
fn every_sector_of_the_wheel_has_its_channels() {
    let at = |h: f64| {
        let p = channels_of(fx(h), fx(1.0), fx(1.0));
        (p.x, p.y, p.z)
    };
    let (one, half) = (fx(1.0), fx(0.5));
    assert_eq!(at(30.0), (one, half, 0));
    assert_eq!(at(90.0), (half, one, 0));
    assert_eq!(at(150.0), (0, one, half));
    assert_eq!(at(210.0), (0, half, one));
    assert_eq!(at(270.0), (half, 0, one));
    assert_eq!(at(330.0), (one, 0, half));
    assert_eq!(at(-30.0), at(330.0));
    assert_eq!(at(390.0), at(30.0));
}

#[test]
fn generators_share_the_dice() {
    let at = |v: f64| choose_by((v * ROLLS as f64) as u32);
    assert_eq!(at(0.0), Generator::Cosine);
    assert_eq!(at(0.449), Generator::Cosine);
    assert_eq!(at(0.451), Generator::Harmony);
    assert_eq!(at(0.799), Generator::Harmony);
    assert_eq!(at(0.801), Generator::Library);
}

#[test]
fn the_first_of_the_best_is_kept() {
    assert_eq!(best_of(&vec![3, 7, 7, 2]), 1);
    assert_eq!(best_of(&vec![-5]), 0);
    assert_eq!(best_of(&(0..CANDIDATES as i64).collect()), CANDIDATES - 1);
}

#[test]
fn a_formula_follows_its_rolls() {
    let p = cosine_from(CosineRolls {
        frequency: 0,
        phase: ROLLS / 4,
        spread: fx(0.1),
        bias: fx(0.4),
        amplitude: fx(0.45),
        bias_jitter: even(0.0),
        amplitude_jitter: even(0.05),
    });
    assert_eq!(p.name.as_deref(), Some("random cosine"));
    let Body::Cosine(c) = p.body else { panic!("a formula was asked for") };
    assert_eq!(c.a, even(0.4));
    assert_eq!(c.b, even(0.45), "the amplitude is no more than the bias, before its jitter");
    assert_eq!(c.c, even(1.0));
    assert_eq!(c.d, Point { x: fx(0.25), y: fx(0.35), z: fx(0.45) });
}

#[test]
fn a_scheme_is_dark_at_its_start() {
    for seed in 0..20 {
        let p = rolled_harmony(&mut rng(seed));
        assert_eq!(p.name.as_deref(), Some("random harmony"));
        let s = p.stops().unwrap();
        assert!((5..=7).contains(&s.len()));
        assert_eq!(s[0].at, 0);
        let c = s[0].color;
        assert!(c.red.max(c.green).max(c.blue) <= 31, "{c:?}");
    }
}

#[test]
fn a_climb_peaks_where_it_is_told() {
    assert_eq!(climb_of(0, 5, fx(0.6)), 0);
    assert_eq!(climb_of(3, 5, fx(0.6)), fx(1.0));
    assert_eq!(climb_of(4, 5, fx(0.6)), fx(0.5));
}

fn stops() -> Palette {
    Palette::from_stops(&vec![
        Stop { at: 0, color: Ink::shown(1, 2, 3) },
        Stop { at: fx(0.5), color: Ink::shown(4, 5, 6) },
    ])
}

#[test]
fn each_change_says_what_it_did() {
    let mut p = stops();
    p.name = Some("ember".to_string());
    let new = vec![Ink::shown(9, 9, 9), Ink::shown(8, 8, 8)];
    assert_eq!(perturb(&mut p, &Change::Hue { degrees: fx(-12.4) }, &new, 0), "palette hue -12°");
    assert_eq!(p.stops().unwrap()[1].color, Ink::shown(8, 8, 8));
    assert!(p.name.is_none(), "recoloured is no longer the library's");

    assert_eq!(perturb(&mut p, &Change::Rotate { by: fx(-0.25) }, &vec![], 0), "palette rotate -0.25");
    assert_eq!(p.rotate, fx(0.75));
    assert_eq!(perturb(&mut p, &Change::Reverse, &vec![], 0), "palette reversed");
    assert!(p.reverse);
    perturb(&mut p, &Change::Reverse, &vec![], 0);
    assert!(!p.reverse);

    let jitter = Change::Stops { by: fx(0.08), shifts: vec![fx(0.7), fx(-0.9)] };
    assert_eq!(perturb(&mut p, &jitter, &vec![], 0), "palette stops jittered 0.08");
    let s = p.stops().unwrap();
    assert_eq!((s[0].at, s[1].at), (0, fx(0.7)), "held to the gradient, and sorted again");
    assert_eq!(s[0].color, Ink::shown(8, 8, 8));

    let mut f = Palette::from_cosine(Cosine { a: even(0.5), b: even(0.5), c: even(1.0), d: even(0.1) });
    let phase = Change::Phase { by: fx(0.03), shift: Point { x: fx(0.01), y: 0, z: fx(-0.01) } };
    assert_eq!(perturb(&mut f, &phase, &vec![], 0), "palette phase jittered 0.03");
    let Body::Cosine(c) = f.body else { panic!("a formula stays one") };
    assert_eq!(c.d, Point { x: fx(0.11), y: fx(0.1), z: fx(0.09) });
}

#[test]
fn a_sign_is_always_written() {
    let write = |v: f64, d: usize| {
        let mut s = String::new();
        push_with_sign(&mut s, fx(v), d);
        s
    };
    assert_eq!(write(0.25, 2), "+0.25");
    assert_eq!(write(-3.6, 0), "-4");
    assert_eq!(write(0.0, 2), "+0.00");
}

#[test]
fn a_choice_between_two_numbers_is_below_the_second() {
    assert_eq!(choose_between(0, fx(-8.0), fx(8.0)), fx(-8.0));
    assert_eq!(choose_between(1 << 31, fx(-8.0), fx(8.0)), 0);
    assert!(choose_between(u32::MAX, fx(-8.0), fx(8.0)) < fx(8.0));
}

#[test]
fn spaces_are_rolled_both_ways() {
    let spaces: Vec<Interpolate> = (0..40).map(|s| rolled_harmony(&mut rng(s)).interpolate).collect();
    assert!(spaces.contains(&Interpolate::Rgb) && spaces.contains(&Interpolate::Oklab));
}

/// What the dice say is what is changed, and by how much.
#[test]
fn a_palette_change_follows_the_dice() {
    let one = UNIT as i64;
    let rolls = |which: u32, bits: u32, each: Vec<u32>| ChangeRolls { which, bits, each };
    let half = 1 << 31;
    let p = stops();
    let c = change_from(&rolls(0, 0, vec![]), &p, one);
    assert!(matches!(c, Change::Hue { degrees } if degrees == fx(-60.0)));
    let c = change_from(&rolls(0, half, vec![]), &p, one);
    assert!(matches!(c, Change::Hue { degrees: 0 }));
    let c = change_from(&rolls(1, 0, vec![]), &p, 2 * one);
    assert!(matches!(c, Change::Rotate { by } if by == fx(-0.5)));
    assert!(matches!(change_from(&rolls(2, 0, vec![]), &p, one), Change::Reverse));
    match change_from(&rolls(3, half, vec![0, half]), &p, one) {
        Change::Stops { by, shifts } => {
            assert_eq!(by, fx(0.06));
            assert_eq!(shifts, vec![fx(-0.06), 0]);
        }
        _ => panic!("stops move"),
    }
    let f = Palette::from_cosine(Cosine { a: even(0.5), b: even(0.5), c: even(1.0), d: even(0.1) });
    match change_from(&rolls(3, 0, vec![0, half, 0]), &f, one) {
        Change::Phase { by, shift } => {
            assert_eq!(by, fx(0.02));
            assert_eq!(shift, Point { x: fx(-0.02), y: 0, z: fx(-0.02) });
        }
        _ => panic!("phases move"),
    }
}

#[test]
fn a_scheme_follows_what_is_drawn() {
    let half = 1 << 31;
    let d = HarmonyDraws {
        base: half,
        scheme: 2,
        more: 1,
        floor: 0,
        peak: half,
        sat_low: 0,
        sat_high: half,
        peak_at: 0,
        jitters: vec![0, half, 0, 0, 0, half],
        space: 5,
    };
    let r = harmony_from(&d);
    assert_eq!((r.base, r.scheme, r.n), (fx(180.0), 2, 6));
    assert_eq!((r.floor, r.peak), (fx(0.03), fx(0.95)));
    assert_eq!((r.sat_low, r.sat_high, r.peak_at), (fx(0.05), fx(0.875), fx(0.4)));
    assert_eq!(r.jitters, vec![fx(-8.0), 0, fx(-8.0), fx(-8.0), fx(-8.0), 0]);
    assert_eq!(r.space, 5);
}
