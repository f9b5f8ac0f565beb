//! Rolled gradients as they are used: the best of a few, by a score.

use fracturize::offline::UNIT;
use fracturize::palette::random::{
    best_of, choose_generator, climb_of, cosine, harmony, roll_harmony, Generator, Height,
    CANDIDATES,
};
use fracturize::palette::{
    library, luminance_profile, Ink, Interpolate, Palette, Reading, Stop,
};
use fracturize::quantity::Point;
use glam::DVec3;
use rand::rngs::StdRng;
use rand::SeedableRng;
use std::f64::consts::{FRAC_PI_2, TAU};

fn rng(seed: u64) -> StdRng {
    StdRng::seed_from_u64(seed)
}

fn fx(v: f64) -> i64 {
    (v * UNIT as f64).round() as i64
}

fn number(v: i64) -> f64 {
    v as f64 / UNIT as f64
}

fn vector(p: Point) -> DVec3 {
    DVec3::new(number(p.x), number(p.y), number(p.z))
}

fn decode(v: u8) -> f64 {
    let s = v as f64 / 255.0;
    if s <= 0.040_45 { s / 12.92 } else { ((s + 0.055) / 1.055).powf(2.4) }
}

fn linear(i: Ink) -> DVec3 {
    match i.linear {
        Some(p) => vector(p),
        None => DVec3::new(decode(i.red), decode(i.green), decode(i.blue)),
    }
}

fn to_oklab(c: DVec3) -> DVec3 {
    let l = (0.4122214708 * c.x + 0.5363325363 * c.y + 0.0514459929 * c.z).cbrt();
    let m = (0.2119034982 * c.x + 0.6806995451 * c.y + 0.1073969566 * c.z).cbrt();
    let s = (0.0883024619 * c.x + 0.2817188376 * c.y + 0.6299787005 * c.z).cbrt();
    DVec3::new(
        0.2104542553 * l + 0.7936177850 * m - 0.0040720468 * s,
        1.9779984951 * l - 2.4285922050 * m + 0.4505937099 * s,
        0.0259040371 * l + 0.7827717662 * m - 0.8086757660 * s,
    )
}

fn from_oklab(c: DVec3) -> DVec3 {
    let l = (c.x + 0.3963377774 * c.y + 0.2158037573 * c.z).powi(3);
    let m = (c.x - 0.1055613458 * c.y - 0.0638541728 * c.z).powi(3);
    let s = (c.x - 0.0894841775 * c.y - 1.2914855480 * c.z).powi(3);
    DVec3::new(
        4.0767416621 * l - 3.3077115913 * m + 0.2309699292 * s,
        -1.2684380046 * l + 2.6097574011 * m - 0.3413193965 * s,
        -0.0041960863 * l - 0.7034186147 * m + 1.7076147010 * s,
    )
    .clamp(DVec3::ZERO, DVec3::ONE)
}

fn sample(p: &Palette, t: f64) -> DVec3 {
    match p.sample(fx(t)) {
        Reading::White => DVec3::ONE,
        Reading::Flat(i) => linear(i),
        Reading::Mixed { from, to, part, of } => {
            let (a, b, t) = (linear(from), linear(to), part as f64 / of as f64);
            match p.interpolate {
                Interpolate::Rgb => a.lerp(b, t),
                Interpolate::Oklab => from_oklab(to_oklab(a).lerp(to_oklab(b), t)),
            }
        }
        Reading::Formula { cosine, at } => {
            let turns = vector(cosine.c) * number(at) + vector(cosine.d);
            let wave = DVec3::new(
                (turns.x * TAU).cos(),
                (turns.y * TAU).cos(),
                (turns.z * TAU).cos(),
            );
            (vector(cosine.a) + vector(cosine.b) * wave).clamp(DVec3::ZERO, DVec3::ONE)
        }
    }
}

fn luminance(c: DVec3) -> f64 {
    0.2126 * c.x + 0.7152 * c.y + 0.0722 * c.z
}

fn colourful(c: DVec3) -> f64 {
    let lab = to_oklab(c);
    lab.y.hypot(lab.z)
}

fn score(p: &Palette) -> f64 {
    let n = 64;
    let samples: Vec<DVec3> = (0..n).map(|i| sample(p, i as f64 / n as f64)).collect();
    let lum: Vec<f64> = samples.iter().map(|&c| luminance(c)).collect();
    let min = lum.iter().cloned().fold(f64::INFINITY, f64::min);
    let max = lum.iter().cloned().fold(f64::NEG_INFINITY, f64::max);
    let sweep = ((max - min) / 0.7).min(1.0);
    let chroma = samples.iter().map(|&c| colourful(c)).sum::<f64>() / n as f64;
    let chroma = (chroma / 0.10).min(1.0);
    let steps: Vec<f64> = (0..n).map(|i| samples[i].distance(samples[(i + 1) % n])).collect();
    let typical = steps.iter().sum::<f64>() / n as f64;
    let seam = if typical > 1e-5 { steps[n - 1] / typical } else { 0.0 };
    let seam_penalty = ((seam - 2.0) / 6.0).clamp(0.0, 1.0);
    sweep + chroma * 0.6 - seam_penalty * 1.2
}

fn scheme(r: &mut StdRng) -> Palette {
    let rolls = roll_harmony(r);
    let heights: Vec<Height> = (0..rolls.n)
        .map(|i| {
            let e = (number(climb_of(i, rolls.n, rolls.peak_at)) * FRAC_PI_2).sin();
            Height { value: fx(e), highlight: fx(e.powf(2.5)) }
        })
        .collect();
    harmony(&rolls, &heights)
}

fn best(r: &mut StdRng, make: fn(&mut StdRng) -> Palette) -> Palette {
    let mut rolled: Vec<Palette> = (0..CANDIDATES).map(|_| make(r)).collect();
    let scores: Vec<i64> = rolled.iter().map(|p| fx(score(p))).collect();
    rolled.swap_remove(best_of(&scores))
}

fn palette(r: &mut StdRng) -> Palette {
    match choose_generator(r) {
        Generator::Cosine => best(r, cosine),
        Generator::Harmony => best(r, scheme),
        Generator::Library => library::random(r),
    }
}

#[test]
fn every_roll_sweeps_luminance_and_has_no_seam() {
    for seed in 0..48 {
        let p = palette(&mut rng(seed));
        let name = p.describe();

        let l: Vec<i64> = (0..64).map(|i| fx(luminance(sample(&p, i as f64 / 64.0)))).collect();
        let (_, swing) = luminance_profile(&l);
        assert!(swing > fx(0.12), "seed {seed} ({name}) is flat: swing {swing}");

        let steps: Vec<f64> = (0..64)
            .map(|i| sample(&p, i as f64 / 64.0).distance(sample(&p, (i + 1) as f64 / 64.0)))
            .collect();
        let typical = steps.iter().sum::<f64>() / 64.0;
        assert!(
            steps[63] < typical * 6.0 + 1e-4,
            "seed {seed} ({name}) has a seam: {:.3} vs {typical:.3} typical",
            steps[63]
        );
    }
}

#[test]
fn rolls_stay_in_gamut() {
    for seed in 0..24 {
        let p = palette(&mut rng(seed));
        for i in 0..256 {
            let c = sample(&p, i as f64 / 256.0);
            assert!(
                c.min_element() >= -1e-5 && c.max_element() <= 1.0 + 1e-5,
                "seed {seed} entry {i} out of gamut: {c}"
            );
        }
    }
}

#[test]
fn score_prefers_a_sweep_over_a_flat_gradient() {
    let grey = |v: f64| Ink {
        red: 0,
        green: 0,
        blue: 0,
        linear: Some(Point { x: fx(v), y: fx(v), z: fx(v) }),
    };
    let stop = |at: f64, v: f64| Stop { at: fx(at), color: grey(v) };
    let flat = Palette::from_stops(&vec![stop(0.0, 0.5), stop(0.5, 0.52)]);
    let good = library::get("ember").unwrap();
    assert!(score(&good) > score(&flat));

    let ramp = Palette::from_stops(&vec![stop(0.0, 0.0), stop(0.999, 1.0)]);
    assert!(score(&good) > score(&ramp), "a dark to bright ramp should lose on its seam");

    let scores: Vec<i64> = [&flat, &good, &ramp].map(|p| fx(score(p))).to_vec();
    assert_eq!(best_of(&scores), 1);
}
