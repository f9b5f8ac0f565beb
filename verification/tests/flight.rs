//! Whole flights: where a path puts the camera, by the library's decisions and
//! rotations worked out here.

use fracturize::offline::UNIT;
use fracturize::path::{cumulative_basis, CameraPath, KeyAt, PathKey, SegmentTurn, ZoomLoop};
use fracturize::quantity::Point;
use glam::{DMat4, DQuat, DVec3, EulerRot};
use std::f64::consts::{FRAC_PI_2, PI, TAU};

fn fx(v: f64) -> i64 {
    (v * UNIT as f64).round() as i64
}

fn value(v: i64) -> f64 {
    v as f64 / UNIT as f64
}

fn rolled_key(yaw: f64, pitch: f64, roll: f64, dist: f64) -> PathKey {
    PathKey {
        yaw: fx(yaw),
        pitch: fx(pitch),
        roll: fx(roll),
        distance: fx(dist),
        focus: Point { x: 0, y: 0, z: 0 },
    }
}

fn key(yaw: f64, pitch: f64, dist: f64) -> PathKey {
    rolled_key(yaw, pitch, 0.0, dist)
}

fn level(keys: Vec<PathKey>, closed: bool, windings: Vec<i32>) -> CameraPath {
    let mut p = CameraPath::new(keys, closed);
    p.ease = Some(false);
    p.windings = windings;
    p
}

#[derive(Clone, Copy)]
struct Framing {
    orientation: DQuat,
    distance: f64,
    focus: DVec3,
}

impl Framing {
    fn of(k: &PathKey) -> Framing {
        Framing {
            orientation: DQuat::from_euler(
                EulerRot::YXZ,
                value(k.yaw),
                -value(k.pitch),
                value(k.roll),
            ),
            distance: value(k.distance),
            focus: DVec3::new(value(k.focus.x), value(k.focus.y), value(k.focus.z)),
        }
    }

    fn eye(&self) -> DVec3 {
        self.focus + self.orientation * DVec3::Z * self.distance
    }

    fn forward(&self) -> DVec3 {
        -(self.orientation * DVec3::Z)
    }

    fn up(&self) -> DVec3 {
        self.orientation * DVec3::Y
    }

    fn roll(&self) -> f64 {
        self.orientation.to_euler(EulerRot::YXZ).2
    }
}

/// The symmetry that a zoom loop closes under, about the origin.
#[derive(Clone, Copy)]
struct Symmetry {
    scale: f64,
    turn: DVec3,
}

impl Symmetry {
    fn advance(&self, f: Framing, n: i32) -> Framing {
        let (scale, rot) = (self.scale.powi(n), DQuat::from_scaled_axis(self.turn * n as f64));
        Framing {
            orientation: rot * f.orientation,
            distance: f.distance * scale,
            focus: rot * (f.focus * scale),
        }
    }
}

struct Flight {
    path: CameraPath,
    symmetry: Option<Symmetry>,
}

impl Flight {
    fn plain(path: CameraPath) -> Flight {
        Flight { path, symmetry: None }
    }

    fn zoom(periods: u32, keys: Vec<PathKey>, scale: f64, turn: DVec3) -> Flight {
        let mut path = CameraPath::new(keys, false);
        path.zoom_loop = Some(ZoomLoop { periods });
        path.seconds = Some(fx(10.0));
        Flight { path, symmetry: Some(Symmetry { scale, turn }) }
    }

    /// A 0.6 spiral about the origin, twisting 34 degrees a period about Y.
    fn spiral(periods: u32, keys: Vec<PathKey>) -> Flight {
        let n = periods as f64;
        Flight::zoom(periods, keys, 0.6f64.powf(n), DVec3::Y * 34f64.to_radians() * n)
    }

    fn framing(&self, at: KeyAt) -> Framing {
        let f = Framing::of(&self.path.keys[at.index]);
        match self.symmetry {
            Some(s) => s.advance(f, at.loops as i32),
            None => f,
        }
    }

    fn turn(&self, i: isize) -> DVec3 {
        match self.path.segment_turn(i) {
            SegmentTurn::Still => DVec3::ZERO,
            SegmentTurn::Symmetry { from } => {
                self.framing(from).orientation.inverse() * self.symmetry.unwrap().turn
            }
            SegmentTurn::Between { from, to, winding } => {
                let short =
                    short_turn(self.framing(from).orientation, self.framing(to).orientation);
                short + short.normalize_or(DVec3::Y) * TAU * winding as f64
            }
        }
    }

    fn sample(&self, t: f64) -> Framing {
        const PARTS: u32 = 1 << 26;
        let at = self.path.locate((t * PARTS as f64).round() as i64, PARTS).unwrap();
        let seg = at.segment as isize;
        let u = at.along as f64 / at.of as f64;
        let near = |i: isize| self.framing(self.path.key(i));
        let k = [near(seg - 1), near(seg), near(seg + 1), near(seg + 2)];
        let b = cumulative_basis((u * UNIT as f64).round() as u64);
        let whole = 2.0 * (UNIT as f64).powi(3);
        let weigh = |w: i128, v: DVec3| DQuat::from_scaled_axis(v * (w as f64 / whole));
        let orientation = k[0].orientation
            * weigh(b.0, self.turn(seg - 1))
            * weigh(b.1, self.turn(seg))
            * weigh(b.2, self.turn(seg + 1));
        let spline = |f: &dyn Fn(&Framing) -> f64| {
            let (p0, p1, p2, p3) = (f(&k[0]), f(&k[1]), f(&k[2]), f(&k[3]));
            let (u2, u3) = (u * u, u * u * u);
            0.5 * (2.0 * p1
                + (p2 - p0) * u
                + (2.0 * p0 - 5.0 * p1 + 4.0 * p2 - p3) * u2
                + (3.0 * p1 - 3.0 * p2 + p3 - p0) * u3)
        };
        Framing {
            orientation,
            distance: spline(&|f| f.distance.max(1e-3).ln()).exp(),
            focus: DVec3::new(
                spline(&|f| f.focus.x),
                spline(&|f| f.focus.y),
                spline(&|f| f.focus.z),
            ),
        }
    }
}

/// The short way from one orientation to another, in its own frame.
fn short_turn(from: DQuat, to: DQuat) -> DVec3 {
    let step = from.inverse() * to;
    (if step.w < 0.0 { -step } else { step }).to_scaled_axis()
}

fn apart(a: DQuat, b: DQuat) -> f64 {
    short_turn(a, b).length()
}

/// The rotation about world Y between two times, added up from short steps.
fn swept_about_y(p: &Flight, from: f64, to: f64, n: usize) -> f64 {
    let mut total = 0.0;
    let mut prev = p.sample(from).orientation;
    for i in 1..=n {
        let cur = p.sample(from + (to - from) * i as f64 / n as f64).orientation;
        total += short_turn(DQuat::IDENTITY, cur * prev.inverse()).y;
        prev = cur;
    }
    total
}

/// Just short of the end: the end itself is the beginning.
const SEAM: f64 = 1.0 - 1e-4;

#[test]
fn closed_orbit_wraps_forward() {
    let keys = (0..4).map(|i| key(i as f64 * TAU / 4.0, 0.2, 3.0)).collect();
    let p = Flight::plain(level(keys, true, vec![]));
    let swept = swept_about_y(&p, 0.0, 1.0, 256);
    assert!((swept - TAU).abs() < 1e-2, "swept {} rad, wanted a forward full turn", swept);
    for i in 1..16 {
        let t = i as f64 / 16.0;
        let so_far = swept_about_y(&p, 0.0, t, 128);
        assert!((so_far - t * TAU).abs() < 5e-3, "t={}: swept {} vs {}", t, so_far, t * TAU);
    }
}

#[test]
fn a_winding_takes_the_long_way_round_without_moving_the_keys() {
    let keys = vec![key(0.0, 0.0, 3.0), key(1f64.to_radians(), 0.0, 3.0)];
    let wound = |w: i32| {
        let mut p = CameraPath::new(keys.clone(), false);
        p.windings = vec![w];
        Flight::plain(p)
    };
    let (short, long) = (wound(0), wound(1));
    for p in [&short, &long] {
        assert!(apart(p.sample(0.0).orientation, Framing::of(&keys[0]).orientation) < 1e-4);
        assert!(apart(p.sample(1.0).orientation, Framing::of(&keys[1]).orientation) < 1e-4);
    }
    let s = swept_about_y(&short, 0.0, 1.0, 256);
    let l = swept_about_y(&long, 0.0, 1.0, 256);
    assert!(s.abs() < 0.05, "the short way swept {} rad", s);
    assert!((l - TAU).abs() < 0.05, "one winding should be a whole extra turn, swept {} rad", l);
}

#[test]
fn multi_turn_spiral() {
    let keys = vec![key(0.0, 0.0, 5.0), key(0.0, 0.0, 3.0), key(0.0, 0.0, 1.0)];
    let p = Flight::plain(level(keys, false, vec![1, 1]));
    let mut last = 0.0;
    for i in 1..=32 {
        let so_far = swept_about_y(&p, 0.0, i as f64 / 32.0, 256);
        assert!(so_far > last - 1e-3, "sweep must not go backwards: {} then {}", last, so_far);
        last = so_far;
    }
    assert!((last - 2.0 * TAU).abs() < 5e-2, "two turns is {}, swept {}", 2.0 * TAU, last);
}

#[test]
fn distance_interpolates_geometrically() {
    let p = Flight::plain(level(vec![key(0.0, 0.0, 1.0), key(0.0, 0.0, 4.0)], false, vec![]));
    assert!((p.sample(0.5).distance - 2.0).abs() < 1e-3, "got {}", p.sample(0.5).distance);
}

#[test]
fn roll_interpolates_along_the_path() {
    let keys = vec![rolled_key(0.0, 0.0, 0.0, 3.0), rolled_key(0.0, 0.0, 1.0, 3.0)];
    let p = Flight::plain(level(keys, false, vec![]));
    assert!(p.sample(0.0).roll().abs() < 1e-4);
    assert!((p.sample(0.5).roll() - 0.5).abs() < 1e-3);
    assert!((p.sample(1.0).roll() - 1.0).abs() < 1e-4);
}

#[test]
fn a_path_can_fly_over_the_pole() {
    let keys = vec![key(0.0, 1.2, 3.0), key(0.0, FRAC_PI_2, 3.0), key(PI, 1.2, 3.0)];
    let p = Flight::plain(level(keys, false, vec![]));
    let mut prev = p.sample(0.0).forward();
    for i in 1..=200 {
        let cam = p.sample(i as f64 / 200.0);
        let f = cam.forward();
        assert!(f.is_finite() && cam.up().is_finite(), "basis blew up at t={}", i);
        assert!((cam.up().length() - 1.0).abs() < 1e-3, "basis stopped being unit");
        assert!(f.dot(prev) > 0.99, "the view snapped at t={}: dot {}", i, f.dot(prev));
        prev = f;
    }
    assert!(p.sample(0.5).forward().y < -0.99, "should be looking straight down at the midpoint");
}

/// Where a point is on a screen of 1280 by 720, if it is before the eye.
fn on_screen(p: DVec3, f: &Framing) -> Option<(f64, f64)> {
    let view = DMat4::from_rotation_translation(f.orientation, f.eye()).inverse();
    let v = view.transform_point3(p);
    if v.z >= 0.0 {
        return None;
    }
    let reach = 1.0 / (45f64.to_radians() / 2.0).tan();
    let (x, y) = (v.x * reach / (16.0 / 9.0) / -v.z, v.y * reach / -v.z);
    Some(((x + 1.0) * 640.0, (1.0 - y) * 360.0))
}

#[test]
fn a_zoom_loop_ends_on_the_frame_it_started() {
    let p = Flight::spiral(1, vec![key(0.3, 0.5, 3.6)]);
    let (start, end) = (p.sample(0.0), p.sample(SEAM));
    let z = p.symmetry.unwrap();
    let rot = DQuat::from_scaled_axis(z.turn);
    for i in 0..25 {
        let x = DVec3::new(
            0.9 * (i as f64 * 1.7).sin(),
            0.9 * (i as f64 * 0.9).cos(),
            0.9 * (i as f64 * 2.3).sin(),
        );
        match (on_screen(rot * (x * z.scale), &end), on_screen(x, &start)) {
            (Some(a), Some(b)) => assert!(
                (a.0 - b.0).abs() < 1.0 && (a.1 - b.1).abs() < 1.0,
                "point {i}: end frame put it at {a:?}, start frame at {b:?}"
            ),
            (None, None) => {}
            _ => panic!("point {i} changed visibility across the loop seam"),
        }
    }
}

#[test]
fn a_zoom_loop_is_continuous_across_the_seam() {
    let p = Flight::spiral(1, vec![key(0.3, 0.5, 3.6)]);
    let carried = p.symmetry.unwrap().advance(p.sample(SEAM), -1);
    let start = p.sample(0.0);
    assert!(
        (carried.distance / start.distance - 1.0).abs() < 1e-3,
        "distance {} vs {}",
        carried.distance,
        start.distance
    );
    let drift = apart(carried.orientation, start.orientation);
    assert!(drift < 1e-3, "framing drifted by {} rad per loop", drift);
}

#[test]
fn a_one_key_zoom_loop_is_the_similarity_flow_itself() {
    let p = Flight::spiral(1, vec![key(0.0, 0.4, 4.0)]);
    assert_eq!(p.path.segments(), 1, "a single key plus its image is one segment");
    let z = p.symmetry.unwrap();
    let start = p.sample(0.0).orientation;
    for i in 0..=20 {
        let t = i as f64 / 20.0 * SEAM;
        let want_dist = 4f64.ln() + t * 0.6f64.ln();
        let got = p.sample(t);
        assert!(
            (got.distance.ln() - want_dist).abs() < 1e-3,
            "t={t}: log-distance {}, constant rate wants {want_dist}",
            got.distance.ln()
        );
        let want = DQuat::from_scaled_axis(z.turn * t) * start;
        let off = apart(got.orientation, want);
        assert!(off < 1e-3, "t={t}: framing is {off} rad off the similarity flow");
    }
}

#[test]
fn a_multi_period_zoom_loop_descends_that_many_periods() {
    let p = Flight::spiral(3, vec![key(0.0, 0.4, 4.0)]);
    let ratio = p.sample(SEAM).distance / 4.0;
    assert!((ratio - 0.6f64.powi(3)).abs() < 1e-3, "descended {ratio}x");
}

#[test]
fn a_barely_twisting_map_sweeps_the_short_way_round() {
    let nearly_round = DQuat::from_axis_angle(DVec3::Y, 359.5f64.to_radians());
    let twist = short_turn(DQuat::IDENTITY, nearly_round);
    let p = Flight::zoom(1, vec![key(0.0, 0.4, 4.0)], 0.6, twist);
    let swept = swept_about_y(&p, 0.0, SEAM, 256);
    assert!(
        swept.abs() < 1f64.to_radians(),
        "swept {:.1}° to make a half-degree turn",
        swept.to_degrees()
    );
    assert!(swept < 0.0, "359.5° is a turn the other way, swept {:.1}°", swept.to_degrees());
    let carried = DQuat::from_scaled_axis(twist) * (p.sample(0.0).eye() * 0.6);
    assert!(
        (p.sample(SEAM).eye() - carried).length() < 1e-3,
        "ended at {:?}, symmetry says {carried:?}",
        p.sample(SEAM).eye()
    );
}

#[test]
fn a_multi_period_loop_keeps_its_whole_sweep() {
    let turn = DVec3::Y * 46.9f64.to_radians() * 4.0;
    let p = Flight::zoom(4, vec![key(0.0, 0.4, 4.0)], 0.6f64.powi(4), turn);
    let swept = swept_about_y(&p, 0.0, SEAM, 512).to_degrees();
    assert!(
        (swept - 187.6).abs() < 1.0,
        "four periods of a 46.9° map is +187.6°, swept {:.1}°",
        swept
    );
}
