//! A scene as the reports and the renderers' decisions read it: what its file
//! says, and what has been measured of it. Real numbers are integers in units
//! of `1 / UNIT`.

use crate::camera::OrbitCamera;
use crate::path::CameraPath;
use crate::quantity::{Color, Point};
use vstd::prelude::*;

verus! {

/// Where a point's colour comes from.
#[derive(Clone, Copy, Debug, PartialEq, Eq, Structural)]
pub enum ColorMode {
    /// A ring of the transforms' own colours, evenly spread.
    Transforms,
    /// The scene's palette.
    Palette,
    /// The transforms' own colours, mixed.
    Mix,
}

impl ColorMode {
    /// The word for a mode.
    pub open spec fn name_text(self) -> Seq<char> {
        match self {
            ColorMode::Transforms => "transforms"@,
            ColorMode::Palette => "palette"@,
            ColorMode::Mix => "mix"@,
        }
    }

    /// The word for a mode, as files and flags write it.
    pub fn name(self) -> (s: &'static str)
        ensures
            s@ == self.name_text(),
    {
        match self {
            ColorMode::Transforms => "transforms",
            ColorMode::Palette => "palette",
            ColorMode::Mix => "mix",
        }
    }
}

/// One map of the chaos game, taken apart.
pub struct Transform {
    pub name: Option<String>,
    pub weight: i64,
    /// The signed cube root of the determinant.
    pub contraction: i64,
    pub scale: Point,
    /// The rotation as angles about the three axes, in radians.
    pub rotation: Point,
    pub translation: Point,
    pub color_value: i64,
    pub color_speed: i64,
    /// The gradient where the map's own index falls on it.
    pub sampled: Color,
    /// What its variations are, in words.
    pub variations: String,
}

/// A gradient, as it is shown.
pub struct Gradient {
    pub description: String,
    pub mean_luminance: i64,
    pub swing: i64,
    /// Even samples for the row of hex stops.
    pub ramp: Vec<Color>,
    /// Even samples for the row of colour blocks.
    pub swatch: Vec<Color>,
}

/// Where the attractor lands and how big it is.
#[derive(Clone, Copy, Debug, PartialEq, Eq, Structural)]
pub struct Measured {
    pub center: Point,
    pub spread: Point,
    pub radius: i64,
    pub occupancy: i64,
}

/// What a file asks of infinite zoom.
#[derive(Clone, Copy, Debug, PartialEq, Eq, Structural)]
pub struct ZoomSpec {
    pub map: usize,
    pub radius: i64,
    pub levels: i64,
    pub octave_falloff: i64,
    pub edge_guard: i64,
}

/// The renormalization that carries an infinite zoom.
#[derive(Clone, Copy, Debug, PartialEq, Eq)]
pub struct Renorm {
    pub map: usize,
    pub fixed_point: Point,
    pub scale: i64,
    pub octaves: i64,
    /// Degrees the map twists by.
    pub twist: i64,
    pub periods: i64,
    /// Where the guard starts and ends, in eye distances.
    pub guard: Option<(i64, i64)>,
    pub guard_width: i64,
    /// The band's radius in eye distances.
    pub reach: i64,
    /// The least radius that covers the view.
    pub min_radius: i64,
    pub covers_the_view: bool,
    pub similar: bool,
    pub defect: i64,
}

/// An infinite zoom: what was asked, and what came of building it.
pub struct Zoom {
    pub spec: ZoomSpec,
    pub built: Result<Renorm, String>,
}

/// How a path's segment gets to the next key.
#[derive(Clone, Copy, Debug, PartialEq, Eq, Structural)]
pub enum Route {
    /// The short way and so many whole turns.
    Turns(i32),
    /// Exactly so many degrees.
    Exact(i64),
}

/// How a path closes.
pub enum Loops {
    /// Under the zoom symmetry, so many periods down per loop.
    Zoom(u32),
    /// Back the way it came.
    PingPong,
    /// Any other way, in words.
    Other(String),
}

/// An authored camera path.
pub struct Flight {
    pub path: CameraPath,
    pub loops: Loops,
    pub routes: Vec<Route>,
}

/// A scene.
pub struct Scene {
    pub name: String,
    pub author: String,
    pub transforms: Vec<Transform>,
    /// The transforms' own colours.
    pub colors: Vec<Color>,
    pub color_mode: ColorMode,
    pub color_speed: i64,
    pub color_falloff: i64,
    pub color_contrast: i64,
    /// Whether the file carries a palette.
    pub has_palette: bool,
    /// The gradient that colours are read from.
    pub gradient: Gradient,
    pub point_size: i64,
    pub point_count: usize,
    pub point_count_defaulted: bool,
    pub haze: i64,
    pub decay: i64,
    pub exposure: i64,
    pub background: Point,
    pub camera: OrbitCamera,
    pub camera_path: Option<Flight>,
    pub zoom: Option<Zoom>,
    /// What building a zoom on each map comes to.
    pub zoom_trials: Vec<Result<Renorm, String>>,
    /// Nothing where the chaos game does not converge.
    pub measured: Option<Measured>,
}

/// A framing and its render settings, as a view file holds them.
pub struct SavedView {
    pub scene: Option<String>,
    pub rotation: i64,
    pub pitch: i64,
    pub roll: i64,
    pub distance: i64,
    pub focus: Point,
    /// The eye offset of an old view.
    pub offset: Point,
    /// The framing that an eye offset folds into.
    pub folded: Option<OrbitCamera>,
    pub point_size: i64,
    pub haze_near: i64,
    pub haze_far: i64,
    pub haze_transmittance: i64,
    pub haze_saturation: i64,
    pub haze: Option<i64>,
    /// The amount that `haze_transmittance` stands for.
    pub haze_recovered: i64,
    pub haze_band_pinned: bool,
    pub color_falloff: Option<i64>,
    pub color_contrast: Option<i64>,
    pub renderer: Option<String>,
    pub exposure: Option<i64>,
}

/// An override that was applied to a scene, and what it displaced.
pub struct Applied {
    pub path: String,
    pub from: Option<String>,
    pub to: String,
}

/// The name of map `i`: its own, or its number.
pub open spec fn map_name(scene: Scene, i: int) -> Seq<char> {
    if 0 <= i < scene.transforms@.len() && scene.transforms@[i].name is Some {
        (scene.transforms@[i].name->0)@
    } else {
        "#"@ + crate::text::decimal(i as nat)
    }
}

/// The name of map `i`: its own, or its number behind a hash sign.
pub fn name_of(scene: &Scene, i: usize) -> (s: String)
    ensures
        s@ == map_name(*scene, i as int),
{
    let mut s = String::new();
    if i < scene.transforms.len() {
        if let Some(name) = &scene.transforms[i].name {
            s.append(name.as_str());
            assert(s@ =~= name@);
            return s;
        }
    }
    s.append("#");
    crate::text::push_decimal(&mut s, i as u128);
    assert(s@ =~= "#"@ + crate::text::decimal(i as nat));
    s
}

/// The infinite zoom that a scene asks for, or the error of one that cannot be
/// had: offline that is fatal, since a render is a thing one comes back to
/// later.
pub fn scene_zoom(scene: &Scene) -> (r: Result<Option<&Renorm>, String>)
    ensures
        match scene.zoom {
            None => r == Ok::<Option<&Renorm>, String>(None),
            Some(z) => match z.built {
                Ok(b) => r == Ok::<Option<&Renorm>, String>(Some(&b)),
                Err(e) => r is Err && (r->Err_0)@ == "infinite zoom: "@ + e@,
            },
        },
{
    match &scene.zoom {
        None => Ok(None),
        Some(z) => match &z.built {
            Ok(b) => Ok(Some(b)),
            Err(e) => {
                let mut s = String::new();
                s.append("infinite zoom: ");
                s.append(e.as_str());
                assert(s@ =~= "infinite zoom: "@ + e@);
                Err(s)
            },
        },
    }
}

/// A map with a name goes by it; one without goes by its number behind a hash
/// sign, and so does what is past the last map.
pub proof fn a_map_goes_by_its_name_or_number(scene: Scene, i: int)
    requires
        0 <= i,
    ensures
        i < scene.transforms@.len() ==> (scene.transforms@[i].name matches Some(n) ==> map_name(
            scene,
            i,
        ) == n@),
        i >= scene.transforms@.len() || scene.transforms@[i].name is None ==> ({
            let t = map_name(scene, i);
            &&& t.len() > 0
            &&& t[0] == '#'
            &&& t.skip(1) == crate::text::decimal(i as nat)
        }),
{
    reveal_strlit("#");
    let t = "#"@ + crate::text::decimal(i as nat);
    assert(t.skip(1) =~= crate::text::decimal(i as nat));
}

/// The three modes have three words.
pub proof fn modes_have_their_words(m: ColorMode)
    ensures
        m.name_text() == "transforms"@ <==> m == ColorMode::Transforms,
        m.name_text() == "palette"@ <==> m == ColorMode::Palette,
        m.name_text() == "mix"@ <==> m == ColorMode::Mix,
{
    reveal_strlit("transforms");
    reveal_strlit("palette");
    reveal_strlit("mix");
    assert("transforms"@.len() == 10 && "palette"@.len() == 7 && "mix"@.len() == 3);
}

} // verus!
