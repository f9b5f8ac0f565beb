//! What is drawn beside a map, a symmetry group and a camera path.

use fracturize::indicators::{
    build, build_path, build_symmetry, cage_corners, cage_edges, cell, head, steps_of, tick_size,
    Line, Mark, OrbitKind, Place, PATH_SAMPLES_PER_SEGMENT, PHI, RING,
};
use fracturize::offline::UNIT;
use fracturize::path::{CameraPath, PathKey, ZoomLoop};
use fracturize::quantity::Point;

fn fx(v: f64) -> i64 {
    (v * UNIT as f64).round() as i64
}

#[test]
fn identity_transform_draws_nothing() {
    assert!(build(0, 0, true).is_empty());
}

#[test]
fn offset_only_draws_the_vector_but_no_arc() {
    let lines = build(fx(1.0), 0, true);
    assert!(!lines.is_empty());
    // Shaft plus four arrowhead struts, and nothing in the rotation colour.
    assert_eq!(lines.len() * 2, 10);
    assert!(lines.iter().all(|l| l.mark == Mark::Offset));
}

#[test]
fn rotation_produces_axis_and_arc() {
    let lines = build(0, fx(1.2), true);
    assert!(
        lines.iter().any(|l| l.mark == Mark::Rotation),
        "a rotated transform must draw its axis and arc"
    );
    let n = steps_of(fx(1.2));
    assert_eq!(n, 10, "a fifth of a turn of forty-eight segments, rounded up");
    assert_eq!(lines.len() as u64, 1 + n + 2);
    assert_eq!(lines[1].from, Place::Arc { part: 0, parts: n });
    assert_eq!(lines[n as usize].to, Place::Arc { part: n, parts: n });
}

#[test]
fn near_identity_rotation_is_not_drawn() {
    assert!(build(0, fx(1e-6), true).iter().all(|l| l.mark != Mark::Rotation));
    assert!(build(0, fx(1.2), false).is_empty(), "nothing turns about no axis");
}

#[test]
fn the_cage_matches_its_group() {
    for (kind, corners, edges) in [
        (OrbitKind::Tetrahedral, 4, 6),
        (OrbitKind::Octahedral, 8, 12),
        (OrbitKind::Icosahedral, 12, 30),
    ] {
        let v = cage_corners(kind);
        let cage = cage_edges(&v);
        assert_eq!(cage.len(), edges, "{:?}: wrong edge count", kind);
        assert_eq!(v.len(), corners, "{:?}: wrong vertex count", kind);
        for i in 0..v.len() {
            for j in 0..i {
                assert_ne!(v[i], v[j], "{:?}: a corner twice", kind);
            }
        }
        let touched: std::collections::HashSet<usize> =
            cage.iter().flat_map(|&(a, b)| [a, b]).collect();
        assert_eq!(touched.len(), corners, "{:?}: a corner without an edge", kind);

        // Every group keeps the third-turn about the main diagonal, which
        // carries x to y to z.
        for p in &v {
            let moved = Point { x: p.z, y: p.x, z: p.y };
            assert!(v.contains(&moved), "{:?}: a turn moves the cage off itself", kind);
            let half = Point { x: -p.x, y: -p.y, z: p.z };
            assert!(v.contains(&half), "{:?}: a half-turn moves the cage off itself", kind);
        }
    }
    assert!(cage_corners(OrbitKind::Icosahedral).iter().any(|p| p.x == PHI || p.y == PHI));
}

#[test]
fn a_cyclic_axis_draws_one_spoke_per_fold() {
    for n in [3u32, 5, 12] {
        let lines = build_symmetry(OrbitKind::Cyclic(n), 1);
        let spokes = lines.iter().filter(|l| l.mark == Mark::Spoke).count();
        assert_eq!(spokes, n as usize, "C{n} should draw {n} spokes");
        assert_eq!(lines.len() as u64, 1 + n as u64 + RING);
    }
}

#[test]
fn a_dihedral_group_has_its_half_turns_too() {
    let lines = build_symmetry(OrbitKind::Dihedral(4), 1);
    assert_eq!(lines.iter().filter(|l| l.mark == Mark::Spoke).count(), 8);
    assert_eq!(
        lines[0],
        Line {
            from: Place::Axis { share: fx(-1.35) },
            to: Place::Axis { share: fx(1.35) },
            mark: Mark::Group,
        },
    );
}

#[test]
fn a_repeat_is_a_chain_of_its_copies() {
    let lines = build_symmetry(OrbitKind::Repeat(3), 3);
    // The axis, three crosses, and two links between them.
    assert_eq!(lines.len(), 1 + 3 * 2 + 2);
    assert_eq!(lines.iter().filter(|l| l.mark == Mark::Spoke).count(), 2);
}

fn key(distance: f64) -> PathKey {
    PathKey { yaw: 0, pitch: 0, roll: 0, distance: fx(distance), focus: Point { x: 0, y: 0, z: 0 } }
}

#[test]
fn a_path_is_drawn_with_a_tick_at_each_key() {
    let p = CameraPath::new(vec![key(2.0), key(4.0)], false);
    let lines = build_path(&p);
    let run = lines.iter().filter(|l| l.mark == Mark::Path).count();
    let keys = lines.iter().filter(|l| l.mark == Mark::Key).count();
    assert_eq!(run, PATH_SAMPLES_PER_SEGMENT);
    assert_eq!(keys, 2 * 3);
    assert_eq!(tick_size(&p), fx(3.0 * 0.04));
    assert!(build_path(&CameraPath::new(vec![key(2.0)], false)).is_empty());
    let mut one = CameraPath::new(vec![key(2.0)], false);
    one.zoom_loop = Some(ZoomLoop { periods: 1 });
    assert!(!build_path(&one).is_empty());
}

#[test]
fn a_head_fits_its_arrow() {
    let c = cell(Point { x: fx(0.5), y: fx(-0.5), z: fx(0.5) });
    assert_eq!(c, fx(0.5) as i128);
    assert_eq!(cell(Point { x: 0, y: 0, z: 0 }), fx(0.02) as i128);
    assert_eq!(head(c, fx(10.0) as i128), fx(0.175) as i128);
    assert_eq!(head(c, fx(0.1) as i128), fx(0.03) as i128);
}
