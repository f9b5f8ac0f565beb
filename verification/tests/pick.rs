//! What the pointer has hold of.

use fracturize::pick::{
    dist_point_segment, pick_gizmo, Gizmo, GizmoHit, GizmoPart, Spot, ORIGIN_RADIUS, PIXEL,
};
use glam::{Mat4, Quat, Vec3};

/// A camera that looks at the origin: its eye, and its three directions.
struct View {
    eye: Vec3,
    right: Vec3,
    up: Vec3,
    forward: Vec3,
}

fn test_cam() -> View {
    let (yaw, pitch, distance) = (0.4f32, 0.25f32, 3.0f32);
    let eye = distance
        * Vec3::new(yaw.sin() * pitch.cos(), pitch.sin(), yaw.cos() * pitch.cos());
    let forward = (-eye).normalize();
    let right = forward.cross(Vec3::Y).normalize();
    View { eye, right, up: right.cross(forward), forward }
}

fn world_to_screen(p: Vec3, vp: &View) -> Option<Spot> {
    let d = p - vp.eye;
    let depth = d.dot(vp.forward);
    if depth <= 0.0 {
        return None;
    }
    let scale = 360.0 / (22.5f32.to_radians().tan() * depth);
    let (x, y) = (640.0 + d.dot(vp.right) * scale, 360.0 - d.dot(vp.up) * scale);
    Some(Spot { x: (x as f64 * PIXEL as f64) as i64, y: (y as f64 * PIXEL as f64) as i64 })
}

fn gizmo(m: Mat4, vp: &View) -> Gizmo {
    let at = |p: Vec3| world_to_screen(m.transform_point3(p), vp);
    Gizmo { origin: at(Vec3::ZERO), x: at(Vec3::X), y: at(Vec3::Y), z: at(Vec3::Z) }
}

fn map(scale: f32, at: Vec3) -> Mat4 {
    Mat4::from_scale_rotation_translation(Vec3::splat(scale), Quat::IDENTITY, at)
}

fn nudge(s: Spot, x: i64, y: i64) -> Spot {
    Spot { x: s.x + x * PIXEL, y: s.y + y * PIXEL }
}

#[test]
fn pick_origin_dot() {
    let vp = &test_cam();
    let g = gizmo(map(0.5, Vec3::new(0.2, 0.1, -0.3)), vp);
    let hit = pick_gizmo(&vec![g], Some(0), nudge(g.origin.unwrap(), 3, -2)).unwrap();
    assert_eq!(hit, GizmoHit { transform: 0, part: GizmoPart::Origin });
}

#[test]
fn pick_axis_edge_midpoint() {
    let vp = &test_cam();
    let m = map(0.6, Vec3::new(-0.3, 0.2, 0.1));
    let at = world_to_screen(m.transform_point3(Vec3::new(0.0, 0.5, 0.0)), vp).unwrap();
    let hit = pick_gizmo(&vec![gizmo(m, vp)], Some(0), at).unwrap();
    assert_eq!(hit.part, GizmoPart::Axis(1));
}

#[test]
fn pick_outer_edge_rotation_axis() {
    let vp = &test_cam();
    let m = map(0.6, Vec3::new(0.0, 0.4, 0.0));
    // Midpoint of the X-Y outer edge: rotation around local z
    let at = world_to_screen(m.transform_point3(Vec3::new(0.5, 0.5, 0.0)), vp).unwrap();
    let hit = pick_gizmo(&vec![gizmo(m, vp)], Some(0), at).unwrap();
    assert_eq!(hit.part, GizmoPart::RotEdge(2));
}

#[test]
fn tip_beats_the_parts_it_touches() {
    let vp = &test_cam();
    let m = map(0.6, Vec3::new(-0.2, 0.1, 0.0));
    for k in 0..3 {
        let tip = match k {
            0 => Vec3::X,
            1 => Vec3::Y,
            _ => Vec3::Z,
        };
        let at = world_to_screen(m.transform_point3(tip), vp).unwrap();
        let hit = pick_gizmo(&vec![gizmo(m, vp)], Some(0), at).unwrap();
        assert_eq!(hit.part, GizmoPart::Tip(k), "axis {k}");
    }
}

#[test]
fn the_origin_still_wins_when_the_gizmo_is_tiny() {
    let vp = &test_cam();
    let g = gizmo(map(0.002, Vec3::new(0.1, 0.0, 0.0)), vp);
    let hit = pick_gizmo(&vec![g], Some(0), g.origin.unwrap()).unwrap();
    assert_eq!(hit.part, GizmoPart::Origin);
}

#[test]
fn a_barely_projected_axis_offers_nothing() {
    let vp = &test_cam();
    let g = gizmo(map(0.002, Vec3::new(0.1, 0.0, 0.0)), vp);
    let at = g.origin.unwrap();
    let beside = Spot { x: at.x + ORIGIN_RADIUS + PIXEL, y: at.y };
    let hit = pick_gizmo(&vec![g], Some(0), beside);
    assert!(hit.is_none(), "got {hit:?} from an axis under the projection floor");
}

#[test]
fn an_unselected_transform_offers_only_its_origin() {
    let vp = &test_cam();
    let m = map(0.6, Vec3::new(-0.2, 0.1, 0.0));
    let probes = [
        Vec3::X,
        Vec3::Y,
        Vec3::Z,
        Vec3::new(0.0, 0.5, 0.0),
        Vec3::new(0.5, 0.5, 0.0),
    ];
    for probe in probes {
        let at = world_to_screen(m.transform_point3(probe), vp).unwrap();
        let selected = pick_gizmo(&vec![gizmo(m, vp)], Some(0), at);
        assert!(selected.is_some(), "the selected transform must still offer {probe:?}");

        match pick_gizmo(&vec![gizmo(m, vp)], None, at) {
            None => {}
            Some(hit) => assert_eq!(
                hit.part,
                GizmoPart::Origin,
                "unselected transform offered {:?} at {probe:?}",
                hit.part
            ),
        }
    }
}

#[test]
fn an_unselected_transform_still_offers_its_origin() {
    let vp = &test_cam();
    let g = gizmo(map(0.5, Vec3::new(0.2, 0.1, -0.3)), vp);
    let hit = pick_gizmo(&vec![g], None, nudge(g.origin.unwrap(), 2, 0)).unwrap();
    assert_eq!(hit.transform, 0);
    assert_eq!(hit.part, GizmoPart::Origin);
}

#[test]
fn pick_misses_empty_space() {
    let vp = &test_cam();
    let g = gizmo(map(1.0, Vec3::ZERO), vp);
    assert!(pick_gizmo(&vec![g], Some(0), Spot { x: 30 * PIXEL, y: 30 * PIXEL }).is_none());
}

#[test]
fn what_is_behind_the_eye_offers_nothing() {
    let g = Gizmo { origin: None, x: None, y: None, z: None };
    assert_eq!(pick_gizmo(&vec![g], Some(0), Spot { x: 0, y: 0 }), None);
}

#[test]
fn a_point_is_as_far_from_a_segment_as_from_its_nearest_point() {
    let s = |x: i64, y: i64| Spot { x: x * PIXEL, y: y * PIXEL };
    assert_eq!(dist_point_segment(s(5, 3), s(0, 0), s(10, 0)), 3 * PIXEL);
    assert_eq!(dist_point_segment(s(13, 4), s(0, 0), s(10, 0)), 5 * PIXEL);
    assert_eq!(dist_point_segment(s(3, 4), s(0, 0), s(0, 0)), 5 * PIXEL);
}

/// The dot's reach ends where it says: a hundredth of a pixel beyond is
/// beyond.
#[test]
fn the_reach_of_the_dot_is_exact() {
    let at = |x: i64, y: i64| Spot { x, y };
    let g = Gizmo { origin: Some(at(0, 0)), x: None, y: None, z: None };
    let origin = Some(GizmoHit { transform: 0, part: GizmoPart::Origin });
    assert_eq!(pick_gizmo(&vec![g], Some(0), at(ORIGIN_RADIUS, 0)), origin);
    assert_eq!(pick_gizmo(&vec![g], Some(0), at(ORIGIN_RADIUS, PIXEL / 128)), None);
}
