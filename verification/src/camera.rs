//! The camera a render would use, and the haze that goes with it.

use crate::path::PathKey;
use crate::quantity::Point;
use crate::scene::{Scene, SavedView};
use vstd::prelude::*;

verus! {

/// A camera on its orbit: which way it looks, how far off, and at what.
#[derive(Clone, Copy, Debug, PartialEq, Eq, Structural)]
pub struct OrbitCamera {
    pub yaw: i64,
    pub pitch: i64,
    pub roll: i64,
    pub distance: i64,
    pub focus: Point,
}

impl PathKey {
    /// The keypoint of a camera.
    pub fn from_camera(cam: &OrbitCamera) -> (k: PathKey)
        ensures
            k.yaw == cam.yaw,
            k.pitch == cam.pitch,
            k.roll == cam.roll,
            k.distance == cam.distance,
            k.focus == cam.focus,
    {
        PathKey {
            yaw: cam.yaw,
            pitch: cam.pitch,
            roll: cam.roll,
            distance: cam.distance,
            focus: cam.focus,
        }
    }

    /// The camera of a keypoint.
    pub fn to_camera(self) -> (c: OrbitCamera)
        ensures
            c == camera_of(self),
    {
        OrbitCamera {
            yaw: self.yaw,
            pitch: self.pitch,
            roll: self.roll,
            distance: self.distance,
            focus: self.focus,
        }
    }
}

/// The camera of a keypoint.
pub open spec fn camera_of(k: PathKey) -> OrbitCamera {
    OrbitCamera { yaw: k.yaw, pitch: k.pitch, roll: k.roll, distance: k.distance, focus: k.focus }
}

/// An orientation as the yaw, pitch and roll that chart it.
#[derive(Clone, Copy, Debug, PartialEq, Eq, Structural)]
pub struct Chart {
    pub yaw: i64,
    pub pitch: i64,
    pub roll: i64,
}

/// What the camera flags set.
#[derive(Clone, Copy, Debug, PartialEq, Eq, Structural)]
pub struct CameraOverride {
    pub yaw: Option<i64>,
    pub pitch: Option<i64>,
    pub roll: Option<i64>,
    /// An orientation given whole, as a rotation vector, and how it charts.
    pub rotvec: Option<Chart>,
    pub distance: Option<i64>,
    pub focus: Option<Point>,
    /// The camera at the asked place of the flight.
    pub path_t: Option<OrbitCamera>,
}

impl CameraOverride {
    /// Whether no flag was given.
    pub open spec fn says_nothing(self) -> bool {
        &&& self.yaw is None
        &&& self.pitch is None
        &&& self.roll is None
        &&& self.rotvec is None
        &&& self.distance is None
        &&& self.focus is None
        &&& self.path_t is None
    }

    /// Whether no flag was given.
    pub fn is_empty(&self) -> (b: bool)
        ensures
            b == self.says_nothing(),
    {
        self.yaw.is_none() && self.pitch.is_none() && self.roll.is_none() && self.rotvec.is_none()
            && self.distance.is_none() && self.focus.is_none() && self.path_t.is_none()
    }

    /// A camera with the fields that were set replaced.
    pub open spec fn applied_to(self, c: OrbitCamera) -> OrbitCamera {
        let chart = match self.rotvec {
            Some(r) => r,
            None => Chart { yaw: c.yaw, pitch: c.pitch, roll: c.roll },
        };
        OrbitCamera {
            yaw: chosen(self.yaw, chart.yaw),
            pitch: chosen(self.pitch, chart.pitch),
            roll: chosen(self.roll, chart.roll),
            distance: chosen(self.distance, c.distance),
            focus: match self.focus {
                Some(f) => f,
                None => c.focus,
            },
        }
    }

    /// Replace the fields that were set, one orientation given whole before
    /// the single angles.
    pub fn apply(&self, camera: &mut OrbitCamera)
        ensures
            *final(camera) == self.applied_to(*old(camera)),
    {
        if let Some(r) = self.rotvec {
            camera.yaw = r.yaw;
            camera.pitch = r.pitch;
            camera.roll = r.roll;
        }
        if let Some(x) = self.yaw {
            camera.yaw = x;
        }
        if let Some(x) = self.pitch {
            camera.pitch = x;
        }
        if let Some(x) = self.roll {
            camera.roll = x;
        }
        if let Some(x) = self.distance {
            camera.distance = x;
        }
        if let Some(f) = self.focus {
            camera.focus = f;
        }
    }
}

impl Default for CameraOverride {
    fn default() -> (o: CameraOverride)
        ensures
            o.says_nothing(),
    {
        CameraOverride {
            yaw: None,
            pitch: None,
            roll: None,
            rotvec: None,
            distance: None,
            focus: None,
            path_t: None,
        }
    }
}

/// What was given, or else what was there.
pub open spec fn chosen(given: Option<i64>, there: i64) -> i64 {
    match given {
        Some(x) => x,
        None => there,
    }
}

/// The framing a view file holds.
pub open spec fn view_camera(v: SavedView) -> OrbitCamera {
    match v.folded {
        Some(c) => c,
        None => OrbitCamera {
            yaw: v.rotation,
            pitch: v.pitch,
            roll: v.roll,
            distance: v.distance,
            focus: v.focus,
        },
    }
}

/// The framing before any flag: a view's where there is one, the scene's
/// otherwise, and the flight's where a place on it was asked for.
pub open spec fn base_camera(
    view: Option<&SavedView>,
    scene: Scene,
    over: CameraOverride,
) -> OrbitCamera {
    match over.path_t {
        Some(c) => c,
        None => match view {
            Some(v) => view_camera(*v),
            None => scene.camera,
        },
    }
}

/// The camera a render would use: a view's framing if there is one, else the
/// scene's; then the place on the flight, if one was asked for; and the
/// camera flags last, since they are the most specific thing anyone said.
pub fn effective_camera(view: Option<&SavedView>, scene: &Scene, over: &CameraOverride) -> (c:
    OrbitCamera)
    ensures
        c == over.applied_to(base_camera(view, *scene, *over)),
{
    let mut camera = match over.path_t {
        Some(c) => c,
        None => match view {
            Some(v) => match v.folded {
                Some(c) => c,
                None => OrbitCamera {
                    yaw: v.rotation,
                    pitch: v.pitch,
                    roll: v.roll,
                    distance: v.distance,
                    focus: v.focus,
                },
            },
            None => scene.camera,
        },
    };
    over.apply(&mut camera);
    camera
}

/// Whether the scene has an infinite zoom that can be built.
pub open spec fn zooms(scene: Scene) -> bool {
    scene.zoom matches Some(z) && z.built is Ok
}

/// The same, in the canonical zoom period: under infinite zoom a framing is
/// only defined up to a period, and `fold` is what the zoom makes of it, with
/// how many periods it moved.
pub fn effective_camera_folded(
    view: Option<&SavedView>,
    scene: &Scene,
    over: &CameraOverride,
    fold: Option<(OrbitCamera, i32)>,
) -> (r: (OrbitCamera, i32))
    ensures
        r == (match fold {
            Some(f) if zooms(*scene) => f,
            _ => (over.applied_to(base_camera(view, *scene, *over)), 0i32),
        }),
{
    let camera = effective_camera(view, scene, over);
    let zoomed = match &scene.zoom {
        Some(z) => z.built.is_ok(),
        None => false,
    };
    match fold {
        Some(f) => if zoomed {
            f
        } else {
            (camera, 0)
        },
        None => (camera, 0),
    }
}

/// How strong a haze is.
#[derive(Clone, Copy, Debug, PartialEq, Eq, Structural)]
pub enum HazeStrength {
    /// The shader's own values, as a view carries them.
    Raw { transmittance: i64, saturation: i64 },
    /// An amount from none to all.
    Amount(i64),
    /// The amount that dims to this brightness.
    Brightness(i64),
}

/// The haze of a render: how strong, and over which band if that is pinned.
#[derive(Clone, Copy, Debug, PartialEq, Eq)]
pub struct Haze {
    /// Nearest and farthest, where a view pinned them; otherwise the band is
    /// ranged from each frame's camera distance.
    pub pinned: Option<(i64, i64)>,
    pub strength: HazeStrength,
}

/// The brightness that the fog flag stands for.
pub const FOG_BRIGHTNESS: i64 = 400_000_000;

/// Whether a view's haze band was pinned by hand. One that carries no amount
/// was written with raw shader values, so its band counts as pinned.
pub open spec fn band_pinned(v: SavedView) -> bool {
    v.haze is None || v.haze_band_pinned
}

/// The haze that a view or a scene asks for.
pub open spec fn asked_haze(view: Option<&SavedView>, scene: Scene, fog: bool) -> Haze {
    match view {
        Some(v) => Haze {
            pinned: if band_pinned(*v) {
                Some((v.haze_near, v.haze_far))
            } else {
                None
            },
            strength: HazeStrength::Raw {
                transmittance: v.haze_transmittance,
                saturation: v.haze_saturation,
            },
        },
        None => Haze {
            pinned: None,
            strength: if scene.haze > 0 {
                HazeStrength::Amount(scene.haze)
            } else if fog {
                HazeStrength::Brightness(FOG_BRIGHTNESS)
            } else {
                HazeStrength::Amount(0)
            },
        },
    }
}

/// The point size that a view or a scene asks for.
pub open spec fn asked_size(view: Option<&SavedView>, scene: Scene) -> i64 {
    match view {
        Some(v) => v.point_size,
        None => scene.point_size,
    }
}

/// Point size and haze from a view, or the scene's own. The scene's haze wins
/// over the fog flag, which means on at a fixed strength.
pub fn base_render_params(view: Option<&SavedView>, scene: &Scene, fog: bool) -> (r: (i64, Haze))
    ensures
        r.0 == asked_size(view, *scene),
        r.1 == asked_haze(view, *scene, fog),
{
    match view {
        Some(v) => {
            let pinned = if v.haze.is_none() || v.haze_band_pinned {
                Some((v.haze_near, v.haze_far))
            } else {
                None
            };
            let strength = HazeStrength::Raw {
                transmittance: v.haze_transmittance,
                saturation: v.haze_saturation,
            };
            (v.point_size, Haze { pinned, strength })
        },
        None => {
            let strength = if scene.haze > 0 {
                HazeStrength::Amount(scene.haze)
            } else if fog {
                HazeStrength::Brightness(FOG_BRIGHTNESS)
            } else {
                HazeStrength::Amount(0)
            };
            (scene.point_size, Haze { pinned: None, strength })
        },
    }
}

/// What a render starts from.
pub struct Setup {
    pub camera: OrbitCamera,
    /// How many zoom periods the fold moved the camera.
    pub folded: i32,
    pub point_size: i64,
    pub haze: Haze,
    /// What is said of a band that lost its pin.
    pub notice: Option<&'static str>,
    /// Whether to say the framing, so that one found by flags can be kept.
    pub announce: bool,
}

/// Base camera and render settings from a view, or scene defaults. A band
/// pinned in world units cannot survive a zoom wrap, so under infinite zoom
/// the pin is dropped, and that is said.
pub fn base_setup(
    view: Option<&SavedView>,
    scene: &Scene,
    fog: bool,
    over: &CameraOverride,
    fold: Option<(OrbitCamera, i32)>,
) -> (s: Setup)
    ensures
        (s.camera, s.folded) == (match fold {
            Some(f) if zooms(*scene) => f,
            _ => (over.applied_to(base_camera(view, *scene, *over)), 0i32),
        }),
        s.point_size == asked_size(view, *scene),
        s.haze.strength == asked_haze(view, *scene, fog).strength,
        scene.zoom is Some ==> s.haze.pinned is None,
        scene.zoom is None ==> s.haze.pinned == asked_haze(view, *scene, fog).pinned,
        s.notice is Some <==> scene.zoom is Some && asked_haze(view, *scene, fog).pinned is Some,
        s.notice is Some ==> (s.notice->0)@
            == "haze band auto-ranged (a pinned band is not wrap-invariant under infinite zoom)"@,
        s.announce == !over.says_nothing(),
{
    let (point_size, mut haze) = base_render_params(view, scene, fog);
    let mut notice: Option<&'static str> = None;
    if haze.pinned.is_some() && scene.zoom.is_some() {
        haze.pinned = None;
        notice = Some(
            "haze band auto-ranged (a pinned band is not wrap-invariant under infinite zoom)",
        );
    }
    let (camera, folded) = effective_camera_folded(view, scene, over, fold);
    Setup { camera, folded, point_size, haze, notice, announce: !over.is_empty() }
}

/// Flags win: whatever a view, a scene or a flight says, a field that a flag
/// sets has the flag's value.
pub proof fn flags_win(view: Option<&SavedView>, scene: Scene, over: CameraOverride)
    ensures
        ({
            let c = over.applied_to(base_camera(view, scene, over));
            &&& over.yaw is Some ==> c.yaw == over.yaw->0
            &&& over.pitch is Some ==> c.pitch == over.pitch->0
            &&& over.roll is Some ==> c.roll == over.roll->0
            &&& over.distance is Some ==> c.distance == over.distance->0
            &&& over.focus is Some ==> c.focus == over.focus->0
        }),
{
}

/// No flags change nothing: a view is drawn as it was saved, and a scene as it
/// was authored.
pub proof fn no_flags_change_nothing(view: Option<&SavedView>, scene: Scene, over: CameraOverride)
    requires
        over.says_nothing(),
    ensures
        over.applied_to(base_camera(view, scene, over)) == (match view {
            Some(v) => view_camera(*v),
            None => scene.camera,
        }),
{
}

/// An orientation that is given whole counts before the framing's own, number
/// by number, and after the single flags. The framing's own counts where nothing
/// is given.
pub proof fn a_whole_orientation_counts_number_by_number(over: CameraOverride, c: OrbitCamera)
    ensures
        ({
            let r = over.applied_to(c);
            &&& over.rotvec is Some && over.yaw is None ==> r.yaw == over.rotvec->0.yaw
            &&& over.rotvec is Some && over.pitch is None ==> r.pitch == over.rotvec->0.pitch
            &&& over.rotvec is Some && over.roll is None ==> r.roll == over.rotvec->0.roll
            &&& over.rotvec is None && over.yaw is None ==> r.yaw == c.yaw
            &&& over.rotvec is None && over.pitch is None ==> r.pitch == c.pitch
            &&& over.rotvec is None && over.roll is None ==> r.roll == c.roll
            &&& over.distance is None ==> r.distance == c.distance
            &&& over.focus is None ==> r.focus == c.focus
        }),
{
}

/// A framing comes from the asked place of the flight, else from the view, else
/// from the scene. A view's is the one it was folded to, else its own numbers.
pub proof fn a_framing_comes_from_the_nearest_layer(
    view: Option<&SavedView>,
    scene: Scene,
    over: CameraOverride,
)
    ensures
        ({
            let c = base_camera(view, scene, over);
            &&& over.path_t is Some ==> c == over.path_t->0
            &&& over.path_t is None && view is None ==> c == scene.camera
            &&& over.path_t is None && view is Some && (view->0).folded is Some ==> c == (
            view->0).folded->0
            &&& over.path_t is None && view is Some && (view->0).folded is None ==> {
                &&& c.yaw == (view->0).rotation
                &&& c.pitch == (view->0).pitch
                &&& c.roll == (view->0).roll
                &&& c.distance == (view->0).distance
                &&& c.focus == (view->0).focus
            }
        }),
{
}

/// A view brings its own haze and point size, and its band where it has no
/// amount of haze or has pinned it. Without a view the scene's haze counts, and
/// fog only where the scene has none.
pub proof fn a_view_brings_its_haze(view: Option<&SavedView>, scene: Scene, fog: bool)
    ensures
        ({
            let h = asked_haze(view, scene, fog);
            &&& view matches Some(v) ==> {
                &&& asked_size(view, scene) == v.point_size
                &&& h.strength == (HazeStrength::Raw {
                    transmittance: v.haze_transmittance,
                    saturation: v.haze_saturation,
                })
                &&& h.pinned is Some <==> v.haze is None || v.haze_band_pinned
                &&& h.pinned is Some ==> h.pinned == Some((v.haze_near, v.haze_far))
            }
            &&& view is None ==> {
                &&& asked_size(view, scene) == scene.point_size
                &&& h.pinned is None
                &&& scene.haze > 0 ==> h.strength == HazeStrength::Amount(scene.haze)
                &&& scene.haze <= 0 && fog ==> h.strength is Brightness && 5 * h.strength->Brightness_0
                    == 2_000_000_000
                &&& scene.haze <= 0 && !fog ==> h.strength == HazeStrength::Amount(0)
            }
        }),
{
}

} // verus!
