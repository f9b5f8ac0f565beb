//! Rolled flames.

use fracturize::offline::UNIT;
use fracturize::palette::random::channels_of;
use fracturize::quantity::Point;
use fracturize::randomize::{
    arrange, background_from, bend_from, colors_from, falloff_from, map_from, strength, BackgroundDraws, ColorRolls, MapDraws, Accent, BendRolls, StrengthRolls,
    acceptable, blend, choose_color_mode, contract, count_maps, flame_name, frame, friendly_name,
    judge, make_straight, map_name, place_on_gradient, random_background, random_color_mode,
    roll_background, roll_bend, roll_colors, roll_count, roll_falloff, roll_map, roll_tint,
    shuffle, slot_of, BackgroundRolls, Step, Tint, DARK_BACKGROUND_LEVEL, FRIENDLY, MAX_ATTEMPTS,
};
use fracturize::rng::{between, ROLLS};
use fracturize::scene::{ColorMode, Measured};
use rand::rngs::StdRng;
use rand::SeedableRng;

fn fx(v: f64) -> i64 {
    (v * UNIT as f64).round() as i64
}

fn rng(seed: u64) -> StdRng {
    StdRng::seed_from_u64(seed)
}

const KINDS: [&str; 9] = [
    "linear", "sinusoidal", "spherical", "swirl", "horseshoe", "polar", "bubble", "cylinder",
    "julia",
];

fn kinds() -> Vec<String> {
    let mut all: Vec<String> = KINDS.iter().map(|s| s.to_string()).collect();
    for k in 0..FRIENDLY {
        let name = friendly_name(k).to_string();
        if !all.contains(&name) {
            all.push(name);
        }
    }
    all
}

#[test]
fn random_flames_are_renderable() {
    for seed in 0..12u64 {
        let mut r = rng(seed);
        let n = roll_count(&mut r);
        assert!((2..=5).contains(&n), "seed {}: transform count {} out of range", seed, n);
        let colors = roll_colors(&mut r, n);
        assert_eq!(colors.len(), n);
        for c in colors {
            assert!([c.x, c.y, c.z].iter().all(|v| (0..=UNIT as i64).contains(v)));
        }
        for _ in 0..n {
            let m = roll_map(&mut r);
            assert!(m.weight > 0, "seed {}: non-positive weight", seed);
            assert!(m.log_scale < 0, "seed {}: every map contracts", seed);
        }
    }
}

#[test]
fn backgrounds_are_in_range_and_mostly_dark() {
    let mut r = rng(7);
    let mut dark = 0;
    const TIMES: usize = 600;
    for _ in 0..TIMES {
        let tint = channels_of(between(&mut r, 0, fx(360.0)), fx(0.8), fx(0.9));
        let rolls = roll_background(&mut r);
        let bg = random_background(tint, rolls);
        assert!(
            [bg.x, bg.y, bg.z].iter().all(|c| (0..=UNIT as i64).contains(c)),
            "background {:?} out of range",
            bg
        );
        if bg.x.max(bg.y).max(bg.z) <= DARK_BACKGROUND_LEVEL {
            dark += 1;
        }
    }
    let ratio = dark as f32 / TIMES as f32;
    assert!((0.60..0.73).contains(&ratio), "dark background ratio {:.3}", ratio);
}

#[test]
fn all_color_modes_are_rolled_and_consistent() {
    let mut r = rng(3);
    let mut seen = [0usize; 3];
    for _ in 0..300 {
        match random_color_mode(&mut r) {
            ColorMode::Transforms => seen[0] += 1,
            ColorMode::Palette => seen[1] += 1,
            ColorMode::Mix => seen[2] += 1,
        }
    }
    assert!(seen.iter().all(|&n| n > 0), "not every colour mode was rolled: {:?}", seen);
}

#[test]
fn the_same_seed_gives_the_same_colours() {
    for seed in 0..4u64 {
        let (mut a, mut b) = (rng(seed), rng(seed));
        assert_eq!(random_color_mode(&mut a), random_color_mode(&mut b));
        let white = Point { x: fx(1.0), y: fx(1.0), z: fx(1.0) };
        let (x, y) = (roll_background(&mut a), roll_background(&mut b));
        assert_eq!(random_background(white, x), random_background(white, y));
        assert_eq!(roll_falloff(&mut a), roll_falloff(&mut b));
        assert_eq!(roll_colors(&mut a, 5), roll_colors(&mut b, 5));
    }
}

#[test]
fn spherical_is_never_rolled() {
    let kinds = kinds();
    let spherical = kinds.iter().position(|v| v == "spherical").unwrap();
    for seed in 0..24u64 {
        let mut r = rng(seed);
        let n = roll_count(&mut r);
        let bend = roll_bend(&mut r, n);
        let (mut slot, mut other) = (1, 1);
        if let Some(b) = &bend {
            slot = slot_of(&kinds, b.kind).unwrap();
            if let Some(a) = &b.accent {
                other = slot_of(&kinds, a.kind).unwrap();
            }
        }
        for map in 0..n {
            let v = blend(&bend, slot, other, kinds.len(), map);
            assert_eq!(v.len(), kinds.len());
            assert_eq!(v[spherical], 0, "seed {}: rolled spherical", seed);
        }
    }
}

#[test]
fn the_count_and_the_mode_follow_the_dice() {
    let at = |v: f64| (v * ROLLS as f64) as u32;
    let counts: Vec<usize> = (0..100).map(|i| count_maps(at(i as f64 / 100.0))).collect();
    assert!(counts.windows(2).all(|w| w[0] <= w[1]));
    assert_eq!((counts[0], counts[99]), (2, 5));
    let modes: Vec<ColorMode> = (0..100).map(|i| choose_color_mode(at(i as f64 / 100.0))).collect();
    for m in [ColorMode::Transforms, ColorMode::Palette, ColorMode::Mix] {
        assert!(modes.contains(&m));
    }
}

fn measured(radius: f64, spread: f64) -> Measured {
    Measured {
        center: Point { x: 1, y: 2, z: 3 },
        spread: Point { x: fx(spread), y: fx(spread), z: fx(spread) },
        radius: fx(radius),
        occupancy: fx(0.1),
    }
}

#[test]
fn only_what_holds_together_is_kept() {
    assert!(acceptable(&measured(1.0, 0.5)));
    assert!(!acceptable(&measured(0.0001, 0.5)), "collapsed");
    assert!(!acceptable(&measured(1000.0, 0.5)), "exploded");
    assert!(!acceptable(&measured(1.0, 0.0)), "flat");
    let kept = judge(0, &Some(measured(1.0, 0.5)));
    assert_eq!(kept, Step::Keep { center: Point { x: 1, y: 2, z: 3 }, radius: fx(1.0) });
    assert_eq!(judge(0, &None), Step::Again);
    assert_eq!(judge(MAX_ATTEMPTS - 1, &None), Step::KeepNext);
}

#[test]
fn maps_that_fill_too_much_are_shrunk_together() {
    assert_eq!(contract(&vec![fx(0.3), fx(0.3)]), None);
    assert_eq!(contract(&vec![fx(1.0), fx(2.0)]), Some(fx(0.5)));
}

#[test]
fn maps_are_spread_along_the_gradient_and_numbered() {
    assert_eq!(place_on_gradient(0, 4), 0);
    assert_eq!(place_on_gradient(3, 4), fx(1.0));
    assert_eq!(map_name(0), "t0");
    assert_eq!(make_straight(3), vec![fx(1.0), 0, 0]);
}

#[test]
fn a_shuffle_has_everything_once() {
    for seed in 0..10 {
        let mut v = shuffle(&mut rng(seed), 5);
        v.sort_unstable();
        assert_eq!(v, vec![0, 1, 2, 3, 4]);
    }
}

#[test]
fn a_tint_comes_from_what_the_mode_shows() {
    let mut r = rng(5);
    assert!(matches!(roll_tint(&mut r, ColorMode::Palette, true, 3), Tint::Sample { .. }));
    assert!(matches!(roll_tint(&mut r, ColorMode::Transforms, false, 3), Tint::Own { index } if index < 3));
    assert!(matches!(roll_tint(&mut r, ColorMode::Mix, false, 0), Tint::White));
}

#[test]
fn a_background_takes_its_level_and_its_tint() {
    let hue = Point { x: fx(1.0), y: 0, z: 0 };
    let bg = random_background(
        hue,
        BackgroundRolls { shift: 0, dark: true, level: fx(0.02), chroma: fx(0.5) },
    );
    assert!(bg.x > bg.y && bg.y == bg.z);
    assert!(bg.x <= fx(0.02) + 1);
}

#[test]
fn a_framing_follows_the_radius() {
    let center = Point { x: 1, y: 2, z: 3 };
    let f = frame(center, fx(1.5));
    assert_eq!(f.focus, center);
    assert_eq!(f.distance, fx(3.6));
    assert!(f.point_size > 0);
    assert!(frame(center, 0).distance > 0);
}

#[test]
fn a_flame_is_named_by_when_it_was_rolled() {
    assert_eq!(flame_name(12_345), "random-12345");
}

fn bend_rolls() -> BendRolls {
    BendRolls {
        kind: 2,
        more: 1,
        exchanges: vec![0, 0],
        strengths: vec![
            StrengthRolls { strong: 0, bits: 0, turned: ROLLS - 1 },
            StrengthRolls { strong: ROLLS - 1, bits: 1 << 31, turned: 0 },
        ],
        accent: 0,
        other: 4,
        accent_map: 2,
        accent_bits: 0,
    }
}

#[test]
fn a_bend_follows_the_dice() {
    let b = bend_from(ROLLS - 1, &bend_rolls(), 3).expect("bent");
    assert_eq!(b.kind, 2);
    assert_eq!(b.order, vec![1, 2, 0]);
    assert_eq!(b.weights, vec![fx(0.55), fx(-0.335)]);
    assert_eq!(b.accent, Some(Accent { kind: 4, map: 2, weight: fx(0.15) }));

    assert!(bend_from(1_342_178, &bend_rolls(), 3).is_some());
    assert!(bend_from(1_342_177, &bend_rolls(), 3).is_none(), "eight in a hundred stay straight");
    assert!(bend_from(0, &BendRolls::blank(), 3).is_none());
}

#[test]
fn an_accent_needs_three_maps_and_another_kind() {
    let accent = |r: &BendRolls, n: usize| bend_from(ROLLS - 1, r, n).unwrap().accent;
    assert!(accent(&bend_rolls(), 3).is_some());
    assert!(accent(&BendRolls { other: 2, ..bend_rolls() }, 3).is_none());
    assert!(accent(&BendRolls { accent: 5_033_164, ..bend_rolls() }, 3).is_some());
    assert!(accent(&BendRolls { accent: 5_033_165, ..bend_rolls() }, 3).is_none());
    let two = BendRolls { exchanges: vec![1], accent_map: 0, ..bend_rolls() };
    assert!(accent(&two, 2).is_none());
}

#[test]
fn exchanges_make_an_order() {
    assert_eq!(arrange(4, &vec![3, 2, 1]), vec![0, 1, 2, 3]);
    assert_eq!(arrange(4, &vec![0, 1, 0]), vec![2, 3, 1, 0]);
    assert_eq!(arrange(0, &vec![]), Vec::<usize>::new());
}

#[test]
fn strengths_stay_off_nothing() {
    let weak = StrengthRolls { strong: 4_194_304, bits: 0, turned: 2_516_583 };
    assert_eq!(strength(weak), fx(0.12));
    assert_eq!(strength(StrengthRolls { strong: 4_194_303, ..weak }), fx(0.55));
    assert_eq!(strength(StrengthRolls { turned: 2_516_582, ..weak }), fx(-0.12));
}

#[test]
fn a_map_follows_what_is_drawn() {
    let half = 1u32 << 31;
    let d = MapDraws {
        x: 0,
        y: half,
        z: 0,
        reach: half,
        turn: 7,
        first_angle: 0,
        second_angle: half,
        log_scale: 0,
        squashed: 5_033_164,
        axis: 2,
        squash: 0,
        weight: 0,
    };
    let r = map_from(d);
    assert_eq!(r.direction, Point { x: fx(-1.0), y: 0, z: fx(-1.0) });
    assert_eq!((r.reach, r.turn, r.first_angle), (fx(0.45), 7, 0));
    assert!((r.second_angle - fx(std::f64::consts::PI)).abs() <= 1);
    assert_eq!(r.log_scale, fx(0.35f64.ln()));
    assert_eq!(r.squash, Some((2, fx(0.15))));
    assert_eq!(r.weight, fx(0.5));
    assert_eq!(map_from(MapDraws { squashed: 5_033_165, ..d }).squash, None);
}

#[test]
fn a_background_follows_what_is_drawn() {
    let d = BackgroundDraws { opposite: 0, shift: 0, dark: 0, level: 0, chroma: 0 };
    let dark = BackgroundRolls { shift: fx(150.0), dark: true, level: fx(0.004), chroma: fx(0.35) };
    assert_eq!(background_from(d), dark);
    let light = background_from(BackgroundDraws { opposite: 5_033_165, dark: 11_184_811, ..d });
    assert_eq!(
        light,
        BackgroundRolls { shift: fx(-40.0), dark: false, level: DARK_BACKGROUND_LEVEL, chroma: fx(0.08) }
    );
}

#[test]
fn a_falloff_follows_its_share() {
    assert_eq!(falloff_from(6_710_887, 0), 0);
    assert_eq!(falloff_from(6_710_886, 0), fx(0.6));
    assert_eq!(falloff_from(0, 1 << 31), fx(0.9));
}

#[test]
fn colours_follow_their_base_and_scheme() {
    let plain = |turn: f64| ColorRolls { turn: fx(turn), saturation: fx(0.75), value: fx(0.8) };
    let rolls = vec![plain(0.0), plain(10.0), plain(-10.0), plain(0.0)];
    let of = |hue: f64| channels_of(fx(hue), fx(0.75), fx(0.8));
    assert_eq!(colors_from(fx(30.0), 0, &rolls), vec![of(30.0), of(40.0), of(20.0), of(30.0)]);
    assert_eq!(colors_from(fx(30.0), 1, &rolls), vec![of(30.0), of(210.0), of(30.0), of(210.0)]);
    assert_eq!(colors_from(fx(30.0), 2, &rolls), vec![of(30.0), of(150.0), of(270.0), of(30.0)]);
}
