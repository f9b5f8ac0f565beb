//! Camera paths: where a time falls on one, and how it closes.

use fracturize::offline::UNIT;
use fracturize::path::{
    catmull_rom, cumulative_basis, resolve, CameraPath, KeyAt, PathKey, SegmentTurn, ZoomLoop, ORBIT_SECONDS,
    TAU,
};
use fracturize::quantity::Point;

fn fx(v: f64) -> i64 {
    (v * UNIT as f64).round() as i64
}

fn key(yaw: f64, pitch: f64, dist: f64, focus: [f64; 3]) -> PathKey {
    PathKey {
        yaw: fx(yaw),
        pitch: fx(pitch),
        roll: 0,
        distance: fx(dist),
        focus: Point { x: fx(focus[0]), y: fx(focus[1]), z: fx(focus[2]) },
    }
}

fn linear_path(closed: bool) -> CameraPath {
    let mut p = CameraPath::new(
        vec![
            key(0.0, 0.1, 2.0, [0.0; 3]),
            key(1.0, 0.3, 4.0, [1.0, 0.0, 0.0]),
            key(2.0, 0.2, 3.0, [0.0, 1.0, 0.0]),
        ],
        closed,
    );
    p.ease = Some(false);
    p
}

fn zoom_loop_path(periods: u32, keys: Vec<PathKey>) -> CameraPath {
    let mut p = CameraPath::new(keys, false);
    p.zoom_loop = Some(ZoomLoop { periods });
    p.seconds = Some(fx(10.0));
    p
}

#[test]
fn the_cumulative_basis_has_the_two_identities_everything_rests_on() {
    let whole = 2 * (UNIT as i128) * (UNIT as i128) * (UNIT as i128);
    let at0 = cumulative_basis(0);
    let at1 = cumulative_basis(UNIT as u64);
    assert_eq!(at0, (whole, 0, 0));
    assert_eq!(at1, (whole, whole, 0));
    for i in 0..=20u64 {
        let u = i * UNIT as u64 / 20;
        let b = cumulative_basis(u);
        assert_eq!(b.0 + b.1 + b.2, whole + whole / UNIT as i128 * u as i128, "u={}", u);
    }
}

#[test]
fn passes_through_keys() {
    for closed in [false, true] {
        let p = linear_path(closed);
        let n = if closed { p.keys.len() } else { p.keys.len() - 1 };
        for i in 0..p.keys.len() {
            let at = p.locate(i as i64, n as u32).unwrap();
            // At the start of the key's own segment, or at the end of the one
            // before it.
            let key = if at.along == 0 {
                p.key(at.segment as isize)
            } else {
                assert_eq!(at.along, at.of);
                p.key(at.segment as isize + 1)
            };
            assert_eq!(key.index, i, "closed={} key {}", closed, i);
        }
    }
}

#[test]
fn closed_path_is_seamless() {
    let p = linear_path(true);
    assert_eq!(p.locate(0, 4), p.locate(4, 4), "the end is the start");
    assert_eq!(p.locate(1, 4), p.locate(5, 4));
    // The segment that closes it comes back to the first key, and the ones
    // that shape it on either side are those round the corner.
    assert_eq!(p.key(3), KeyAt { index: 0, loops: 0 });
    assert_eq!(p.key(-1), KeyAt { index: 2, loops: 0 });
}

#[test]
fn one_key_plus_a_zoom_loop_is_playable() {
    let mut one = zoom_loop_path(1, vec![key(0.0, 0.4, 4.0, [0.0; 3])]);
    assert!(one.playable(), "a single key closing under the symmetry is a path");
    assert_eq!(one.segments(), 1, "a single key plus its image is one segment");
    one.zoom_loop = None;
    assert!(!one.playable(), "one key and no zoom loop is a scene mid-authoring");
}

#[test]
fn a_zoom_loop_does_not_ease() {
    assert!(!zoom_loop_path(1, vec![key(0.0, 0.4, 4.0, [0.0; 3])]).eased());
}

#[test]
fn a_zoom_loop_carries_its_keys_along() {
    let p = zoom_loop_path(1, vec![key(0.0, 0.4, 4.0, [0.0; 3]), key(0.5, 0.4, 3.0, [0.0; 3])]);
    assert_eq!(p.key(3), KeyAt { index: 1, loops: 1 });
    assert_eq!(p.key(-1), KeyAt { index: 1, loops: -1 });
}

#[test]
fn every_segment_of_a_one_key_zoom_loop_is_the_symmetry() {
    let p = zoom_loop_path(1, vec![key(0.0, 0.4, 4.0, [0.0; 3])]);
    for i in -1..2isize {
        assert!(matches!(p.segment_turn(i), SegmentTurn::Symmetry { .. }));
    }
}

#[test]
fn full_orbit_matches_auto_orbit() {
    let base = key(0.7, 0.3, 4.0, [1.0, 0.0, 0.0]);
    let p = CameraPath::full_orbit(&base);
    let mid = p.locate(1, 2).unwrap();
    assert_eq!((mid.segment, mid.along), (2, 0), "half way is on the third of four keys");
    let k = p.keys[2];
    assert!((k.yaw - (base.yaw + fx(std::f64::consts::PI))).abs() <= 2);
    assert_eq!(k.pitch, base.pitch);
    assert_eq!(k.distance, base.distance);
    assert_eq!(k.focus, base.focus);
}

#[test]
fn full_orbit_turns_at_the_orbit_rate() {
    let p = CameraPath::full_orbit(&key(0.0, 0.2, 3.0, [0.0; 3]));
    assert_eq!(p.duration(), ORBIT_SECONDS);
    // One turn in the time that it takes, at 0.18 radians a second.
    let rate = TAU as f64 / p.duration() as f64;
    assert!((rate - 0.18).abs() < 1e-3, "{rate}");
    assert!(p.closed && !p.eased());
}

#[test]
fn resolve_prefers_authored_keys_but_needs_two() {
    let default = CameraPath::full_orbit(&key(0.0, 0.0, 3.0, [0.0; 3]));

    assert!(std::ptr::eq(resolve(None, &default), &default));
    let one_key = CameraPath::new(vec![key(1.0, 0.2, 2.0, [0.0, 0.0, 1.0])], false);
    assert!(std::ptr::eq(resolve(Some(&one_key), &default), &default));

    let authored = linear_path(false);
    assert!(std::ptr::eq(resolve(Some(&authored), &default), &authored));
}

#[test]
fn open_path_eases_by_default() {
    let mut p = linear_path(false);
    p.ease = None;
    assert!(p.eased());
    // Eased start moves slower than constant speed
    let slow = p.locate(1, 20).unwrap();
    assert_eq!(slow.segment, 0);
    assert!((slow.along as f64) < 0.05 * slow.of as f64);
    let mut p_closed = linear_path(true);
    p_closed.ease = None;
    assert!(!p_closed.eased());
}

#[test]
fn degenerate_paths_are_safe() {
    let empty = CameraPath::new(vec![], false);
    assert_eq!(empty.locate(1, 2), None);
    assert_eq!(empty.segments(), 0);
    assert!(empty.duration() > 0);

    let single = CameraPath::new(vec![key(1.0, 0.2, 2.0, [0.0, 0.0, 1.0])], true);
    if let Some(at) = single.locate(7, 10) {
        assert_eq!(single.key(at.segment as isize).index, 0);
        assert_eq!(single.key(at.segment as isize + 1).index, 0);
    }
}

#[test]
fn windings_keep_pace_with_the_keys() {
    let mut p = linear_path(false);
    p.fit_windings();
    assert_eq!(p.windings.len(), p.segments());

    p.keys.push(key(3.0, 0.1, 2.0, [0.0; 3]));
    p.fit_windings();
    assert_eq!(p.windings.len(), p.segments());

    p.closed = true;
    p.fit_windings();
    assert_eq!(p.windings.len(), p.segments(), "closing adds the wrap-around segment");

    p.keys.truncate(2);
    p.fit_windings();
    assert_eq!(p.windings.len(), p.segments());

    // A path that never mentions windings behaves as all-zero.
    assert_eq!(CameraPath::new(vec![], false).winding(7), 0);
}

#[test]
fn a_winding_belongs_to_its_segment() {
    let mut p = linear_path(true);
    p.windings = vec![0, 2];
    assert_eq!((p.winding(0), p.winding(1), p.winding(2)), (0, 2, 0));
    match p.segment_turn(1) {
        SegmentTurn::Between { from, to, winding } => {
            assert_eq!((from.index, to.index, winding), (1, 2, 2));
        }
        other => panic!("{other:?}"),
    }
}

#[test]
fn a_path_takes_three_seconds_a_segment_unless_told() {
    let mut p = linear_path(false);
    assert_eq!(p.duration(), fx(6.0));
    p.seconds = Some(fx(1.5));
    assert_eq!(p.duration(), fx(1.5));
    p.seconds = Some(0);
    assert_eq!(p.duration(), fx(0.1), "and never less than a tenth of one");
}

#[test]
fn a_spline_passes_through_the_middle_two_of_four() {
    let (p0, p1, p2, p3) = (fx(0.3), fx(1.1), fx(2.4), fx(3.0));
    let whole = 2 * 20i128.pow(3);
    assert_eq!(catmull_rom(p0, p1, p2, p3, 0, 20), whole * p1 as i128);
    assert_eq!(catmull_rom(p0, p1, p2, p3, 20, 20), whole * p2 as i128);
    // Half way, by the usual weights of minus one, nine, nine and minus one
    // sixteenths.
    let half = catmull_rom(p0, p1, p2, p3, 10, 20);
    let want = (-p0 + 9 * p1 + 9 * p2 - p3) as i128;
    assert_eq!(half * 16, whole * want);
}

#[test]
fn a_constant_pitch_path_is_exactly_the_old_scalar_yaw_spline() {
    let yaws = [0.3, 1.1, 2.4, 3.0, 3.9].map(fx);
    let at = |j: isize| yaws[j.clamp(0, 4) as usize];
    let cube = (UNIT as i128).pow(3);
    for seg in 0..4isize {
        for i in 0..=20u32 {
            let b = cumulative_basis(i as u64 * UNIT as u64 / 20);
            let turned = 2 * cube * at(seg - 1) as i128
                + b.0 * (at(seg) - at(seg - 1)) as i128
                + b.1 * (at(seg + 1) - at(seg)) as i128
                + b.2 * (at(seg + 2) - at(seg + 1)) as i128;
            let spline = catmull_rom(at(seg - 1), at(seg), at(seg + 1), at(seg + 2), i, 20);
            assert_eq!(turned / cube, spline / 20i128.pow(3), "segment {seg}, {i} of 20");
        }
    }
}
