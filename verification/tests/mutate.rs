//! Variants of a flame.

use fracturize::flame::{default_color, default_scene, default_settings, Flame, Map3};
use fracturize::mutate::{
    apply, change_from, choose_kind, count_changes, describe, roll_change, roll_count, rotate_hue, Change,
    ChangeRolls, Kind, Outcome,
};
use fracturize::offline::UNIT;
use fracturize::quantity::Point;
use fracturize::rng::ROLLS;
use fracturize::scene::ColorMode;
use rand::SeedableRng;
use rand_xoshiro::Xoshiro256PlusPlus;

fn fx(v: f64) -> i64 {
    (v * UNIT as f64).round() as i64
}

fn point(x: f64, y: f64, z: f64) -> Point {
    Point { x: fx(x), y: fx(y), z: fx(z) }
}

fn kinds() -> Vec<String> {
    ["linear", "sinusoidal", "spherical", "swirl"].map(|s| s.to_string()).to_vec()
}

fn test_scene() -> Flame {
    let map = |at: Point, i: usize| Map3 {
        x_axis: point(0.5, 0.0, 0.0),
        y_axis: point(0.0, 0.5, 0.0),
        z_axis: point(0.0, 0.0, 0.5),
        translation: at,
        weight: fx(1.0),
        color_value: fx(i as f64 / 3.0),
        variations: vec![fx(1.0), 0, 0, 0],
    };
    Flame {
        maps: vec![
            map(point(0.0, 0.0, 0.5), 0),
            map(point(0.0, 0.47, -0.17), 1),
            map(point(-0.41, -0.24, -0.17), 2),
        ],
        names: vec![None, Some("left".to_string()), None],
        colors: vec![point(1.0, 0.2, 0.2), point(0.2, 1.0, 0.2), point(0.2, 0.2, 1.0)],
    }
}

/// What only real arithmetic gives: here a turn that leaves the map as it is.
fn outcome(f: &Flame, c: &Change) -> Outcome {
    let (map, log) = match *c {
        Change::Scale { map, log } | Change::Weight { map, log } => (map, log),
        Change::Rotate { map, .. } | Change::Hue { map, .. } => (map, 0),
        _ => (0, 0),
    };
    Outcome {
        factor: fx((log as f64 / UNIT as f64).exp()),
        x_axis: f.maps[map].x_axis,
        y_axis: f.maps[map].y_axis,
        z_axis: f.maps[map].z_axis,
    }
}

fn mutate(f: &mut Flame, rng: &mut Xoshiro256PlusPlus) -> Vec<String> {
    let mut log = Vec::new();
    for _ in 0..roll_count(rng) {
        if let Some(c) = roll_change(f, rng, kinds().len(), UNIT as i64) {
            let o = outcome(f, &c);
            log.push(apply(f, &c, &o, &kinds()));
        }
    }
    log
}

#[test]
fn mutations_stay_consistent_and_saveable() {
    let mut rng = Xoshiro256PlusPlus::seed_from_u64(42);
    for round in 0..50 {
        let mut scene = test_scene();
        let log = mutate(&mut scene, &mut rng);
        assert!(!log.is_empty(), "round {}: no ops logged", round);
        assert_eq!(scene.maps.len(), scene.colors.len());
        assert_eq!(scene.maps.len(), scene.names.len());
        assert!(scene.maps.len() >= 2);
        for t in &scene.maps {
            assert!(t.weight > 0);
            assert_eq!(t.variations.len(), kinds().len());
        }
    }
}

#[test]
fn seeded_mutation_is_deterministic() {
    let mut a = test_scene();
    let mut b = test_scene();
    let log_a = mutate(&mut a, &mut Xoshiro256PlusPlus::seed_from_u64(7));
    let log_b = mutate(&mut b, &mut Xoshiro256PlusPlus::seed_from_u64(7));
    assert_eq!(log_a, log_b);
}

#[test]
fn one_to_three_changes_are_made() {
    let at = |v: f64| (v * ROLLS as f64) as u32;
    assert_eq!(count_changes(at(0.9), at(0.9)), 1);
    assert_eq!(count_changes(at(0.5), at(0.9)), 2);
    assert_eq!(count_changes(at(0.9), at(0.2)), 2);
    assert_eq!(count_changes(at(0.5), at(0.2)), 3);
    let mut rng = Xoshiro256PlusPlus::seed_from_u64(1);
    let seen: std::collections::HashSet<usize> = (0..100).map(|_| roll_count(&mut rng)).collect();
    assert_eq!(seen.len(), 3);
}

#[test]
fn the_dice_choose_a_kind() {
    let at = |v: f64, n: usize| choose_kind((v * ROLLS as f64) as u32, n);
    assert_eq!(at(0.17, 3), Kind::Translate);
    assert_eq!(at(0.32, 3), Kind::Rotate);
    assert_eq!(at(0.47, 3), Kind::Scale);
    assert_eq!(at(0.59, 3), Kind::Weight);
    assert_eq!(at(0.77, 3), Kind::Variation);
    assert_eq!(at(0.86, 3), Kind::Hue);
    assert_eq!(at(0.91, 3), Kind::ColorValue);
    assert_eq!(at(0.96, 3), Kind::Duplicate);
    assert_eq!(at(0.96, 8), Kind::Delete, "eight maps are enough");
    assert_eq!(at(0.99, 3), Kind::Delete);
    assert_eq!(at(0.99, 2), Kind::Translate, "two maps are needed");
}

#[test]
fn each_change_is_made_and_told() {
    let kinds = kinds();
    let mut f = test_scene();
    let mut run = |f: &mut Flame, c: Change, o: Option<Outcome>| {
        let o = o.unwrap_or(outcome(f, &c));
        assert_eq!(describe(f, &c, &o, &kinds), apply(&mut copy(f), &c, &o, &kinds));
        apply(f, &c, &o, &kinds)
    };

    let s = run(&mut f, Change::Translate { map: 1, step: point(0.1, -0.02, 0.0) }, None);
    assert_eq!(s, "T1 translate (+0.10,-0.02,+0.00)");
    assert_eq!(f.maps[1].translation, point(0.1, 0.45, -0.17));

    let turned = Outcome {
        factor: 0,
        x_axis: point(0.0, 0.5, 0.0),
        y_axis: point(-0.5, 0.0, 0.0),
        z_axis: point(0.0, 0.0, 0.5),
    };
    let c = Change::Rotate { map: 0, axis: point(0.0, 0.0, 1.0), degrees: fx(90.0) };
    assert_eq!(run(&mut f, c, Some(turned)), "T0 rotate 90° about (+0.00,+0.00,+1.00)");
    assert_eq!(f.maps[0].x_axis, point(0.0, 0.5, 0.0));

    let s = run(&mut f, Change::Scale { map: 2, log: fx(0.2) }, None);
    assert_eq!(s, "T2 scale ×1.22");
    assert!((f.maps[2].x_axis.x - fx(0.5 * 0.2f64.exp())).abs() < 10);

    let s = run(&mut f, Change::Weight { map: 2, log: fx(-0.5) }, None);
    assert_eq!(s, "T2 weight ×0.61");
    assert!((f.maps[2].weight - fx((-0.5f64).exp())).abs() < 10);

    let s = run(&mut f, Change::Introduce { map: 0, slot: 3, weight: fx(0.25) }, None);
    assert_eq!(s, "T0 +swirl 0.25");
    assert_eq!(f.maps[0].variations[3], fx(0.25));

    let s = run(&mut f, Change::Adjust { map: 0, slot: 3, by: fx(-0.1) }, None);
    assert_eq!(s, "T0 swirl -0.10 -> 0.15");
    let s = run(&mut f, Change::Adjust { map: 0, slot: 3, by: fx(-0.14) }, None);
    assert_eq!(s, "T0 -swirl (removed)");
    assert_eq!(f.maps[0].variations[3], 0);

    let s = run(&mut f, Change::Hue { map: 1, degrees: fx(-45.0) }, None);
    assert_eq!(s, "T1 hue -45°");
    assert_eq!(f.colors[1], point(0.8, 1.0, 0.2));

    let s = run(&mut f, Change::ColorValue { map: 0, by: fx(-0.2) }, None);
    assert_eq!(s, "T0 color_value -0.20");
    assert_eq!(f.maps[0].color_value, fx(0.8), "round the ring");

    let s = run(&mut f, Change::Duplicate { map: 1, step: point(0.0, 0.0, 0.1) }, None);
    assert_eq!(s, "duplicate T1 -> T3");
    assert_eq!(f.maps.len(), 4);
    assert_eq!(f.names[3].as_deref(), Some("left mut"));
    assert_eq!(f.maps[3].translation.z, fx(-0.07));

    let s = run(&mut f, Change::Delete { map: 0 }, None);
    assert_eq!(s, "delete T0");
    assert_eq!(f.names[0].as_deref(), Some("left"));
    assert_eq!((f.maps.len(), f.names.len(), f.colors.len()), (3, 3, 3));
}

fn copy(f: &Flame) -> Flame {
    Flame {
        maps: f.maps.iter().map(fracturize::flame::copy_map).collect(),
        names: f.names.iter().map(fracturize::flame::copy_name).collect(),
        colors: f.colors.clone(),
    }
}

#[test]
fn the_first_flame_is_a_tetrahedron() {
    let f = default_scene(4);
    assert_eq!((f.maps.len(), f.names.len(), f.colors.len()), (4, 4, 4));
    assert!(f.maps.iter().all(|m| m.x_axis.x == fx(0.5) && m.variations[0] == fx(1.0)));
    assert_eq!(default_color(0), f.colors[0]);
    assert_eq!(default_color(255), f.colors[3]);
}

#[test]
fn a_hue_turns_round_the_wheel() {
    let red = point(0.9, 0.1, 0.1);
    assert_eq!(rotate_hue(red, fx(120.0)), point(0.1, 0.9, 0.1));
    assert_eq!(rotate_hue(red, fx(-120.0)), point(0.1, 0.1, 0.9));
    assert_eq!(rotate_hue(red, fx(720.0)), red);
    assert_eq!(rotate_hue(point(0.1, 0.2, 0.9), fx(360.0)), point(0.1, 0.2, 0.9));
    let grey = point(0.4, 0.4, 0.4);
    assert_eq!(rotate_hue(grey, fx(77.0)), grey);
}

#[test]
fn a_run_without_a_scene_has_its_settings() {
    let s = default_settings();
    assert_eq!(s.name, "Default Sierpinski");
    assert_eq!((s.point_size, s.decay, s.color_speed), (fx(0.002), fx(0.8), fx(0.5)));
    assert_eq!((s.points_per_frame, s.point_count, s.point_count_defaulted), (100_000, 500_000, true));
    assert_eq!((s.color_falloff, s.color_contrast, s.haze, s.exposure), (0, fx(1.0), 0, fx(1.0)));
    assert_eq!((s.focus, s.eye_offset, s.distance), (point(0.0, 0.0, 0.0), point(0.0, 1.0, 0.0), fx(3.0)));
    assert!(s.color_mode == ColorMode::Transforms && !s.has_palette);
    assert!(s.camera_path.is_none() && s.zoom.is_none());
    let f = default_scene(4);
    assert!(f.names.iter().all(|n| n.is_none()));
    assert!(f.maps.iter().all(|m| m.weight == fx(1.0)));
    assert_eq!(default_color(0), point(1.0, 0.2, 0.2));
    assert_eq!(default_color(255), point(1.0, 1.0, 0.2));
}

/// What the dice say is what is changed, to which map and by how much.
#[test]
fn a_change_follows_the_dice() {
    let f = test_scene();
    let one = UNIT as i64;
    let half = 1u32 << 31;
    let roll = |v: f64, bits: u32| {
        let r = ChangeRolls {
            map: 1,
            roll: (v * ROLLS as f64) as u32,
            direction: point(0.6, 0.0, 0.0),
            bits,
            fresh: 0,
            which: 1,
        };
        change_from(&r, &f, 4, one)
    };
    let map = 1;
    let x = |v: f64| point(v, 0.0, 0.0);
    assert_eq!(roll(0.0, 0), Change::Translate { map, step: x(0.03) });
    assert_eq!(roll(0.17, half), Change::Translate { map, step: x(0.105) });
    assert_eq!(roll(0.32, 0), Change::Rotate { map, axis: x(1.0), degrees: fx(5.0) });
    assert_eq!(roll(0.47, 0), Change::Scale { map, log: fx(-0.25) });
    assert_eq!(roll(0.59, half), Change::Weight { map, log: 0 });
    assert_eq!(roll(0.77, 0), Change::Introduce { map, slot: 2, weight: fx(0.08) });
    assert_eq!(roll(0.86, 0), Change::Hue { map, degrees: fx(-90.0) });
    assert_eq!(roll(0.91, 0), Change::ColorValue { map, by: fx(-0.2) });
    assert_eq!(roll(0.96, 0), Change::Duplicate { map, step: x(0.05) });
    assert_eq!(roll(0.99, 0), Change::Delete { map });
}

/// A map that has variations has one of them changed, or takes one more for
/// four shares in ten.
#[test]
fn a_variation_is_new_or_one_of_those_there() {
    let mut f = test_scene();
    f.maps[0].variations = vec![UNIT as i64, 0, fx(0.2), fx(0.3)];
    let roll = |fresh: u32, which: usize| {
        let r = ChangeRolls {
            map: 0,
            roll: (0.77 * ROLLS as f64) as u32,
            direction: point(0.6, 0.0, 0.0),
            bits: 0,
            fresh,
            which,
        };
        change_from(&r, &f, 4, UNIT as i64)
    };
    assert_eq!(roll(6_710_886, 0), Change::Introduce { map: 0, slot: 1, weight: fx(0.08) });
    assert_eq!(roll(6_710_887, 0), Change::Adjust { map: 0, slot: 0, by: fx(-0.15) });
    assert_eq!(roll(6_710_887, 1), Change::Adjust { map: 0, slot: 2, by: fx(-0.15) });
    assert_eq!(roll(6_710_887, 2), Change::Adjust { map: 0, slot: 3, by: fx(-0.15) });
    f.maps[0].variations = vec![0, 0, 0, 0];
    let none = ChangeRolls {
        map: 0,
        roll: (0.77 * ROLLS as f64) as u32,
        direction: point(0.6, 0.0, 0.0),
        bits: 0,
        fresh: ROLLS - 1,
        which: 2,
    };
    let c = change_from(&none, &f, 4, UNIT as i64);
    assert_eq!(c, Change::Introduce { map: 0, slot: 3, weight: fx(0.08) }, "there is none to change");
}

/// Two maps are left alone by a deletion, which moves one a little instead.
#[test]
fn two_maps_are_never_made_one() {
    let mut f = test_scene();
    f.maps.truncate(2);
    f.names.truncate(2);
    f.colors.truncate(2);
    let r = ChangeRolls {
        map: 0,
        roll: ROLLS - 1,
        direction: point(0.0, -0.8, 0.0),
        bits: 0,
        fresh: 0,
        which: 0,
    };
    let c = change_from(&r, &f, 4, 2 * UNIT as i64);
    assert_eq!(c, Change::Translate { map: 0, step: point(0.0, -0.1, 0.0) });
}
