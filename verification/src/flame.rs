//! The parts of a flame that chance makes and changes: its maps, their names
//! and their colours. Real numbers are integers in units of `1 / UNIT`.

use crate::num;
use crate::quantity::Point;
use crate::scene::{ColorMode, Flight, ZoomSpec};
use crate::text;
use vstd::prelude::*;

verus! {

/// One map: where it takes the three axes and the origin, how often it is
/// walked, and how it bends and colours what it takes.
pub struct Map3 {
    pub x_axis: Point,
    pub y_axis: Point,
    pub z_axis: Point,
    pub translation: Point,
    pub weight: i64,
    pub color_value: i64,
    /// The blend of each variation. The first is the straight one.
    pub variations: Vec<i64>,
}

/// What a map holds.
pub struct MapModel {
    pub x_axis: Point,
    pub y_axis: Point,
    pub z_axis: Point,
    pub translation: Point,
    pub weight: int,
    pub color_value: int,
    pub variations: Seq<i64>,
}

impl View for Map3 {
    type V = MapModel;

    open spec fn view(&self) -> MapModel {
        MapModel {
            x_axis: self.x_axis,
            y_axis: self.y_axis,
            z_axis: self.z_axis,
            translation: self.translation,
            weight: self.weight as int,
            color_value: self.color_value as int,
            variations: self.variations@,
        }
    }
}

/// A flame: three lists that run in step.
pub struct Flame {
    pub maps: Vec<Map3>,
    pub names: Vec<Option<String>>,
    pub colors: Vec<Point>,
}

/// What a flame holds.
pub struct FlameModel {
    pub maps: Seq<MapModel>,
    pub names: Seq<Option<Seq<char>>>,
    pub colors: Seq<Point>,
}

/// What maps hold.
pub open spec fn map_models(s: Seq<Map3>) -> Seq<MapModel> {
    Seq::new(s.len(), |i: int| s[i]@)
}

/// What optional texts read.
pub open spec fn name_models(s: Seq<Option<String>>) -> Seq<Option<Seq<char>>> {
    Seq::new(s.len(), |i: int| crate::palette::text_of(s[i]))
}

impl View for Flame {
    type V = FlameModel;

    open spec fn view(&self) -> FlameModel {
        FlameModel {
            maps: map_models(self.maps@),
            names: name_models(self.names@),
            colors: self.colors@,
        }
    }
}

/// Whether a number can be scaled and moved.
pub open spec fn number_fits(v: int) -> bool {
    -num::SCALABLE <= v <= num::SCALABLE
}

/// Whether a point's numbers can be scaled and moved.
pub open spec fn point_fits(p: Point) -> bool {
    number_fits(p.x as int) && number_fits(p.y as int) && number_fits(p.z as int)
}

impl MapModel {
    /// Whether a map's numbers can be scaled and moved, and it has a blend for
    /// each of `kinds` variations.
    pub open spec fn fits(self, kinds: nat) -> bool {
        &&& point_fits(self.x_axis) && point_fits(self.y_axis) && point_fits(self.z_axis)
        &&& point_fits(self.translation)
        &&& number_fits(self.weight)
        &&& number_fits(self.color_value)
        &&& self.variations.len() == kinds
        &&& forall|k: int|
            0 <= k < self.variations.len() ==> number_fits(#[trigger] self.variations[k] as int)
    }
}

impl FlameModel {
    /// Whether the lists run in step.
    pub open spec fn in_step(self) -> bool {
        self.names.len() == self.maps.len() && self.colors.len() == self.maps.len()
    }

    /// Whether the lists run in step and every map fits.
    pub open spec fn fits(self, kinds: nat) -> bool {
        &&& self.in_step()
        &&& forall|i: int| 0 <= i < self.maps.len() ==> (#[trigger] self.maps[i]).fits(kinds)
    }
}

/// A list of blends of one's own.
pub fn copy_blends(v: &Vec<i64>) -> (r: Vec<i64>)
    ensures
        r@ == v@,
{
    let mut r: Vec<i64> = Vec::new();
    let mut i: usize = 0;
    while i < v.len()
        invariant
            i <= v@.len(),
            r@ == v@.take(i as int),
        decreases v@.len() - i,
    {
        r.push(v[i]);
        i += 1;
        assert(r@ =~= v@.take(i as int));
    }
    assert(r@ =~= v@);
    r
}

/// A map of one's own.
pub fn copy_map(m: &Map3) -> (r: Map3)
    ensures
        r@ == m@,
{
    Map3 {
        x_axis: m.x_axis,
        y_axis: m.y_axis,
        z_axis: m.z_axis,
        translation: m.translation,
        weight: m.weight,
        color_value: m.color_value,
        variations: copy_blends(&m.variations),
    }
}

/// A name of one's own.
pub fn copy_name(n: &Option<String>) -> (r: Option<String>)
    ensures
        crate::palette::text_of(r) == crate::palette::text_of(*n),
{
    match n {
        Some(s) => Some(text::owned(s.as_str())),
        None => None,
    }
}

// ---- the flame that a run starts from --------------------------------------

/// How many maps the first flame has: the corners of a tetrahedron.
pub const CORNERS: usize = 4;

/// A point.
pub open spec fn at(x: int, y: int, z: int) -> Point {
    Point { x: x as i64, y: y as i64, z: z as i64 }
}

/// Where map `i` of the first flame takes the origin.
pub open spec fn corner(i: int) -> Point {
    if i == 0 {
        at(0, 0, 500_000_000)
    } else if i == 1 {
        at(0, 470_000_000, -170_000_000)
    } else if i == 2 {
        at(-410_000_000, -240_000_000, -170_000_000)
    } else {
        at(410_000_000, -240_000_000, -170_000_000)
    }
}

/// The colour of map `i` of the first flame: red, green, blue and yellow.
pub open spec fn corner_color(i: int) -> Point {
    if i == 0 {
        Point { x: 1_000_000_000, y: 200_000_000, z: 200_000_000 }
    } else if i == 1 {
        Point { x: 200_000_000, y: 1_000_000_000, z: 200_000_000 }
    } else if i == 2 {
        Point { x: 200_000_000, y: 200_000_000, z: 1_000_000_000 }
    } else {
        Point { x: 1_000_000_000, y: 1_000_000_000, z: 200_000_000 }
    }
}

/// Where map `i` of the first flame lies on the gradient.
pub open spec fn corner_place(i: int) -> int {
    if i == 0 {
        0
    } else if i == 1 {
        333_000_000
    } else if i == 2 {
        667_000_000
    } else {
        1_000_000_000
    }
}

/// Map `i` of the first flame: half the size, moved to a corner, and straight.
pub open spec fn first_map(i: int, kinds: nat) -> MapModel {
    MapModel {
        x_axis: Point { x: 500_000_000, y: 0, z: 0 },
        y_axis: Point { x: 0, y: 500_000_000, z: 0 },
        z_axis: Point { x: 0, y: 0, z: 500_000_000 },
        translation: corner(i),
        weight: 1_000_000_000,
        color_value: corner_place(i),
        variations: crate::randomize::straight(kinds),
    }
}

/// The flame that a run starts from when it is given none.
pub open spec fn first_flame(kinds: nat) -> FlameModel {
    FlameModel {
        maps: Seq::new(4, |i: int| first_map(i, kinds)),
        names: Seq::new(4, |i: int| None::<Seq<char>>),
        colors: Seq::new(4, |i: int| corner_color(i)),
    }
}

fn corner_of(i: usize) -> (p: Point)
    ensures
        p == corner(i as int),
{
    if i == 0 {
        Point { x: 0, y: 0, z: 500_000_000 }
    } else if i == 1 {
        Point { x: 0, y: 470_000_000, z: -170_000_000 }
    } else if i == 2 {
        Point { x: -410_000_000, y: -240_000_000, z: -170_000_000 }
    } else {
        Point { x: 410_000_000, y: -240_000_000, z: -170_000_000 }
    }
}

fn corner_color_of(i: usize) -> (p: Point)
    ensures
        p == corner_color(i as int),
        100_000_000 <= p.x <= 1_000_000_000,
        100_000_000 <= p.y <= 1_000_000_000,
        100_000_000 <= p.z <= 1_000_000_000,
{
    if i == 0 {
        Point { x: 1_000_000_000, y: 200_000_000, z: 200_000_000 }
    } else if i == 1 {
        Point { x: 200_000_000, y: 1_000_000_000, z: 200_000_000 }
    } else if i == 2 {
        Point { x: 200_000_000, y: 200_000_000, z: 1_000_000_000 }
    } else {
        Point { x: 1_000_000_000, y: 1_000_000_000, z: 200_000_000 }
    }
}

/// The flame that a run starts from when it is given none: four half-size
/// copies at the corners of a tetrahedron.
pub fn default_scene(kinds: usize) -> (f: Flame)
    ensures
        f@ == first_flame(kinds as nat),
{
    let mut maps: Vec<Map3> = Vec::new();
    let mut names: Vec<Option<String>> = Vec::new();
    let mut colors: Vec<Point> = Vec::new();
    let ghost want = first_flame(kinds as nat);
    let mut i: usize = 0;
    assert(map_models(maps@) =~= want.maps.take(0));
    assert(name_models(names@) =~= want.names.take(0));
    while i < CORNERS
        invariant
            i <= CORNERS,
            want == first_flame(kinds as nat),
            map_models(maps@) == want.maps.take(i as int),
            name_models(names@) == want.names.take(i as int),
            colors@ == want.colors.take(i as int),
        decreases CORNERS - i,
    {
        let color_value: i64 = if i == 0 {
            0
        } else if i == 1 {
            333_000_000
        } else if i == 2 {
            667_000_000
        } else {
            1_000_000_000
        };
        let m = Map3 {
            x_axis: Point { x: 500_000_000, y: 0, z: 0 },
            y_axis: Point { x: 0, y: 500_000_000, z: 0 },
            z_axis: Point { x: 0, y: 0, z: 500_000_000 },
            translation: corner_of(i),
            weight: 1_000_000_000,
            color_value,
            variations: crate::randomize::make_straight(kinds),
        };
        let ghost shown = m@;
        let ghost had = map_models(maps@);
        let ghost had_names = name_models(names@);
        maps.push(m);
        names.push(None);
        colors.push(corner_color_of(i));
        i += 1;
        assert(map_models(maps@) =~= had.push(shown));
        assert(had.push(shown) =~= want.maps.take(i as int));
        assert(name_models(names@) =~= had_names.push(None));
        assert(had_names.push(None) =~= want.names.take(i as int));
        assert(colors@ =~= want.colors.take(i as int));
    }
    assert(want.maps.take(4) =~= want.maps);
    assert(want.names.take(4) =~= want.names);
    assert(want.colors.take(4) =~= want.colors);
    Flame { maps, names, colors }
}

/// What a run that is given no scene starts with, beside its maps.
pub struct Settings {
    pub name: String,
    pub point_size: i64,
    pub points_per_frame: u32,
    pub point_count: usize,
    /// Whether the count is a default rather than a wish.
    pub point_count_defaulted: bool,
    pub decay: i64,
    /// How fast each map pulls a point's colour to its own.
    pub color_speed: i64,
    pub color_falloff: i64,
    pub color_contrast: i64,
    pub haze: i64,
    pub exposure: i64,
    pub color_mode: ColorMode,
    /// Whether there is a palette.
    pub has_palette: bool,
    pub camera_path: Option<Flight>,
    pub zoom: Option<ZoomSpec>,
    /// The framing: what is looked at, where the eye is lifted to, and how far
    /// off it is.
    pub focus: Point,
    pub eye_offset: Point,
    pub distance: i64,
}

/// The settings of the flame that a run starts from.
pub fn default_settings() -> (s: Settings)
    ensures
        s.name@ == "Default Sierpinski"@,
        s.point_size == 2_000_000,
        s.points_per_frame == 100_000,
        s.point_count == 500_000,
        s.point_count_defaulted,
        s.decay == 800_000_000,
        s.color_speed == 500_000_000,
        s.color_falloff == 0,
        s.color_contrast == 1_000_000_000,
        s.haze == 0,
        s.exposure == 1_000_000_000,
        s.color_mode == ColorMode::Transforms,
        !s.has_palette,
        s.camera_path is None,
        s.zoom is None,
        s.focus == at(0, 0, 0),
        s.eye_offset == at(0, 1_000_000_000, 0),
        s.distance == 3_000_000_000,
{
    let mut name = String::new();
    name.append("Default Sierpinski");
    assert(name@ =~= "Default Sierpinski"@);
    Settings {
        name,
        point_size: 2_000_000,
        points_per_frame: 100_000,
        point_count: 500_000,
        point_count_defaulted: true,
        decay: 800_000_000,
        color_speed: 500_000_000,
        color_falloff: 0,
        color_contrast: 1_000_000_000,
        haze: 0,
        exposure: 1_000_000_000,
        color_mode: ColorMode::Transforms,
        has_palette: false,
        camera_path: None,
        zoom: None,
        focus: Point { x: 0, y: 0, z: 0 },
        eye_offset: Point { x: 0, y: 1_000_000_000, z: 0 },
        distance: 3_000_000_000,
    }
}

/// The map whose colour an entry of the first gradient starts from.
pub open spec fn entry_map(i: int) -> int {
    if i * 3 / 255 < 2 {
        i * 3 / 255
    } else {
        2
    }
}

/// How far an entry is from one map's colour to the next's, out of 255.
pub open spec fn entry_share(i: int) -> int {
    3 * i - 255 * entry_map(i)
}

/// Between two numbers, `k` parts of 255 from the first.
pub open spec fn part_way(a: int, b: int, k: int) -> int {
    (a * (255 - k) + b * k) / 255
}

/// Entry `i` of the gradient that the first flame is coloured by: straight
/// from each colour to the next.
pub open spec fn first_gradient(i: int) -> Point {
    let a = corner_color(entry_map(i));
    let b = corner_color(entry_map(i) + 1);
    let k = entry_share(i);
    Point {
        x: part_way(a.x as int, b.x as int, k) as i64,
        y: part_way(a.y as int, b.y as int, k) as i64,
        z: part_way(a.z as int, b.z as int, k) as i64,
    }
}

fn mix(a: i64, b: i64, k: i64) -> (r: i64)
    requires
        0 <= a <= 1_000_000_000,
        0 <= b <= 1_000_000_000,
        0 <= k <= 255,
    ensures
        r == part_way(a as int, b as int, k as int),
{
    assert(0 <= a * (255 - k) <= 255_000_000_000) by (nonlinear_arith)
        requires
            0 <= a <= 1_000_000_000,
            0 <= k <= 255,
    ;
    assert(0 <= b * k <= 255_000_000_000) by (nonlinear_arith)
        requires
            0 <= b <= 1_000_000_000,
            0 <= k <= 255,
    ;
    (a * (255 - k) + b * k) / 255
}

/// Entry `i` of the gradient that the first flame is coloured by.
pub fn default_color(i: usize) -> (p: Point)
    requires
        i < 256,
    ensures
        p == first_gradient(i as int),
{
    let third: usize = i * 3 / 255;
    let map: usize = if third < 2 {
        third
    } else {
        2
    };
    let k: i64 = 3 * i as i64 - 255 * map as i64;
    assert(0 <= k <= 255);
    let a = corner_color_of(map);
    let b = corner_color_of(map + 1);
    Point { x: mix(a.x, b.x, k), y: mix(a.y, b.y, k), z: mix(a.z, b.z, k) }
}

/// The gradient starts at the first colour, ends at the last, and passes
/// through those between.
pub proof fn the_first_gradient_meets_its_colours(j: int)
    requires
        0 <= j < 4,
    ensures
        first_gradient(85 * j) == corner_color(j),
{
    if j == 3 {
        assert(entry_map(255) == 2 && entry_share(255) == 255);
    } else {
        assert(entry_map(85 * j) == j && entry_share(85 * j) == 0);
    }
    let a = corner_color(entry_map(85 * j));
    let b = corner_color(entry_map(85 * j) + 1);
    assert(part_way(a.x as int, b.x as int, 0) == a.x && part_way(a.x as int, b.x as int, 255)
        == b.x);
    assert(part_way(a.y as int, b.y as int, 0) == a.y && part_way(a.y as int, b.y as int, 255)
        == b.y);
    assert(part_way(a.z as int, b.z as int, 0) == a.z && part_way(a.z as int, b.z as int, 255)
        == b.z);
}

/// Between two of its colours the first gradient goes evenly from the one to the
/// other, channel by channel, over 85 steps.
pub proof fn the_first_gradient_goes_evenly(i: int, j: int)
    requires
        0 <= j < 3,
        85 * j <= i < 85 * (j + 1),
    ensures
        ({
            let (a, b, p) = (corner_color(j), corner_color(j + 1), first_gradient(i));
            let (to, from) = (i - 85 * j, 85 * (j + 1) - i);
            &&& 85 * p.x <= a.x * from + b.x * to < 85 * p.x + 85
            &&& 85 * p.y <= a.y * from + b.y * to < 85 * p.y + 85
            &&& 85 * p.z <= a.z * from + b.z * to < 85 * p.z + 85
        }),
{
    assert(entry_map(i) == j);
    let k = entry_share(i);
    assert(k == 3 * (i - 85 * j));
    let (a, b) = (corner_color(j), corner_color(j + 1));
    a_part_is_even(a.x as int, b.x as int, i - 85 * j);
    a_part_is_even(a.y as int, b.y as int, i - 85 * j);
    a_part_is_even(a.z as int, b.z as int, i - 85 * j);
}

proof fn a_part_is_even(a: int, b: int, t: int)
    requires
        0 <= a <= 1_000_000_000,
        0 <= b <= 1_000_000_000,
        0 <= t <= 85,
    ensures
        85 * part_way(a, b, 3 * t) <= a * (85 - t) + b * t < 85 * part_way(a, b, 3 * t) + 85,
        0 <= part_way(a, b, 3 * t) <= 1_000_000_000,
{
    let s = a * (85 - t) + b * t;
    assert(a * (255 - 3 * t) + b * (3 * t) == 3 * s) by (nonlinear_arith)
        requires
            s == a * (85 - t) + b * t,
    ;
    assert(0 <= a * (85 - t) <= 1_000_000_000 * (85 - t) && 0 <= b * t <= 1_000_000_000 * t)
        by (nonlinear_arith)
        requires
            0 <= a <= 1_000_000_000,
            0 <= b <= 1_000_000_000,
            0 <= t <= 85,
    ;
}

/// How far apart two points are, squared.
pub open spec fn apart(p: Point, q: Point) -> int {
    (p.x - q.x) * (p.x - q.x) + (p.y - q.y) * (p.y - q.y) + (p.z - q.z) * (p.z - q.z)
}

/// The first flame is four maps to half the size about the corners of an even
/// tetrahedron: every corner is half a unit from the centre and as far from
/// each other one, to two hundredths of the square; the first stands straight
/// above the centre, the second on the positive side of the second axis, and
/// the other two across from each other along the first. The maps weigh alike
/// and are spread evenly over the gradient.
pub proof fn the_first_flame_is_a_tetrahedron(kinds: nat, i: int, j: int)
    requires
        0 <= i < 4,
        0 <= j < 4,
        i != j,
    ensures
        first_flame(kinds).maps.len() == 4,
        ({
            let m = first_flame(kinds).maps[i];
            let n = first_flame(kinds).maps[j];
            let o = Point { x: 0, y: 0, z: 0 };
            &&& 2 * m.x_axis.x == 1_000_000_000 && m.x_axis.y == 0 && m.x_axis.z == 0
            &&& 2 * m.y_axis.y == 1_000_000_000 && m.y_axis.x == 0 && m.y_axis.z == 0
            &&& 2 * m.z_axis.z == 1_000_000_000 && m.z_axis.x == 0 && m.z_axis.y == 0
            &&& 245_000_000_000_000_000 <= apart(m.translation, o) <= 255_000_000_000_000_000
            &&& 660_000_000_000_000_000 <= apart(m.translation, n.translation)
                <= 680_000_000_000_000_000
            &&& i == 0 ==> m.translation.x == 0 && m.translation.y == 0 && m.translation.z > 0
            &&& i == 1 ==> m.translation.x == 0 && m.translation.y > 0
            &&& i == 2 && j == 3 ==> m.translation.x < 0 && m.translation.x
                == -n.translation.x && m.translation.y == n.translation.y
            &&& m.weight == n.weight == 1_000_000_000
            &&& -1_000_000 <= 3 * m.color_value - i * 1_000_000_000 <= 1_000_000
        }),
{
    let p = corner(i);
    let q = corner(j);
    squares_of_corners(p.x as int);
    squares_of_corners(p.y as int);
    squares_of_corners(p.z as int);
    squares_of_corners(p.x - q.x);
    squares_of_corners(p.y - q.y);
    squares_of_corners(p.z - q.z);
    assert(first_flame(kinds).maps[i] == first_map(i, kinds));
    assert(first_flame(kinds).maps[j] == first_map(j, kinds));
}

proof fn squares_of_corners(d: int)
    ensures
        d == 0 ==> d * d == 0,
        d == 500_000_000 ==> d * d == 250_000_000_000_000_000,
        d == 170_000_000 || d == -170_000_000 ==> d * d == 28_900_000_000_000_000,
        d == 240_000_000 || d == -240_000_000 ==> d * d == 57_600_000_000_000_000,
        d == 410_000_000 || d == -410_000_000 ==> d * d == 168_100_000_000_000_000,
        d == 470_000_000 || d == -470_000_000 ==> d * d == 220_900_000_000_000_000,
        d == 670_000_000 || d == -670_000_000 ==> d * d == 448_900_000_000_000_000,
        d == 710_000_000 || d == -710_000_000 ==> d * d == 504_100_000_000_000_000,
        d == 820_000_000 || d == -820_000_000 ==> d * d == 672_400_000_000_000_000,
{
    a_square(d, 0, 0);
    a_square(d, 500_000_000, 250_000_000_000_000_000);
    a_square(d, 170_000_000, 28_900_000_000_000_000);
    a_square(d, 240_000_000, 57_600_000_000_000_000);
    a_square(d, 410_000_000, 168_100_000_000_000_000);
    a_square(d, 470_000_000, 220_900_000_000_000_000);
    a_square(d, 670_000_000, 448_900_000_000_000_000);
    a_square(d, 710_000_000, 504_100_000_000_000_000);
    a_square(d, 820_000_000, 672_400_000_000_000_000);
}

proof fn a_square(d: int, e: int, f: int)
    requires
        f == e * e,
    ensures
        d == e || d == -e ==> d * d == f,
{
    if d == -e {
        assert(d * d == e * e) by (nonlinear_arith)
            requires
                d == -e,
        ;
    }
}

} // verus!
