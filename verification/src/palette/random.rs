//! Rolling gradients that are worth keeping.
//!
//! Three generators: formulas of cosines, schemes of hues with a deliberate
//! rise and fall of brightness, and the library. A few candidates are rolled,
//! and the one with the best score is kept.

use super::{Body, BodyModel, Cosine, Ink, Interpolate, Palette, PaletteModel, Stop};
use crate::num;
use crate::offline::UNIT;
use crate::quantity;
use crate::quantity::Point;
use crate::rng;
use crate::text;
use rand::rngs::StdRng;
use vstd::prelude::*;

verus! {

/// How many candidates a generator rolls before the best is kept.
pub const CANDIDATES: usize = 12;

/// Which generator makes a palette.
#[derive(Clone, Copy, Debug, PartialEq, Eq, Structural)]
pub enum Generator {
    /// Formulas of cosines: smooth by construction, twelve numbers.
    Cosine,
    /// A base hue and a classical scheme.
    Harmony,
    /// A palette of the library.
    Library,
}

impl Generator {
    /// Every generator.
    pub const ALL: [Generator; 3] = [Generator::Cosine, Generator::Harmony, Generator::Library];

    /// The word for a generator.
    pub open spec fn name_text(self) -> Seq<char> {
        match self {
            Generator::Cosine => "cosine"@,
            Generator::Harmony => "harmony"@,
            Generator::Library => "library"@,
        }
    }

    /// The word for a generator.
    pub fn name(&self) -> (s: &'static str)
        ensures
            s@ == self.name_text(),
    {
        match self {
            Generator::Cosine => "cosine",
            Generator::Harmony => "harmony",
            Generator::Library => "library",
        }
    }

    /// The generator that a word names, in any case.
    pub open spec fn named(s: Seq<char>) -> Option<Generator> {
        if text::lowered(s) == text::lowered("cosine"@) {
            Some(Generator::Cosine)
        } else if text::lowered(s) == text::lowered("harmony"@) {
            Some(Generator::Harmony)
        } else if text::lowered(s) == text::lowered("library"@) {
            Some(Generator::Library)
        } else {
            None
        }
    }

    /// The generator that a word names, in any case.
    pub fn parse(s: &str) -> (r: Option<Generator>)
        ensures
            r == Generator::named(s@),
    {
        if text::same_ignoring_case(s, "cosine") {
            Some(Generator::Cosine)
        } else if text::same_ignoring_case(s, "harmony") {
            Some(Generator::Harmony)
        } else if text::same_ignoring_case(s, "library") {
            Some(Generator::Library)
        } else {
            None
        }
    }
}

/// A generator is found by its name.
pub proof fn a_name_finds_its_generator(g: Generator)
    ensures
        Generator::named(g.name_text()) == Some(g),
{
    reveal_strlit("cosine");
    reveal_strlit("harmony");
    reveal_strlit("library");
    assert(text::lowered("cosine"@)[0] == 'c');
    assert(text::lowered("harmony"@)[0] == 'h');
    assert(text::lowered("library"@)[0] == 'l');
}

/// The generator that a roll chooses: cosines for the first 45 in a hundred,
/// harmonies up to 80, and the library for the rest.
pub open spec fn chosen(roll: int) -> Generator {
    if roll < 7_549_747 {
        Generator::Cosine
    } else if roll < 13_421_773 {
        Generator::Harmony
    } else {
        Generator::Library
    }
}

/// The generator that a roll chooses.
pub fn choose_by(roll: u32) -> (g: Generator)
    ensures
        g == chosen(roll as int),
{
    if roll < 7_549_747 {
        Generator::Cosine
    } else if roll < 13_421_773 {
        Generator::Harmony
    } else {
        Generator::Library
    }
}

/// A generator by a roll.
pub fn choose_generator(rng: &mut StdRng) -> (g: Generator)
    ensures
        exists|r: int| 0 <= r < rng::ROLLS && g == #[trigger] chosen(r),
{
    let roll: u32 = rng::roll(rng);
    assert(chosen(roll as int) == chosen(roll as int));
    choose_by(roll)
}

/// The first candidate whose score no other exceeds. Scores are any integers
/// in the order of the numbers they stand for.
pub fn best_of(scores: &Vec<i64>) -> (b: usize)
    requires
        scores@.len() > 0,
    ensures
        b < scores@.len(),
        forall|i: int| 0 <= i < scores@.len() ==> (#[trigger] scores@[i]) <= scores@[b as int],
        forall|i: int| 0 <= i < b ==> (#[trigger] scores@[i]) < scores@[b as int],
{
    let mut b: usize = 0;
    let mut i: usize = 1;
    while i < scores.len()
        invariant
            b < i <= scores@.len(),
            forall|k: int| 0 <= k < i ==> (#[trigger] scores@[k]) <= scores@[b as int],
            forall|k: int| 0 <= k < b ==> (#[trigger] scores@[k]) < scores@[b as int],
        decreases scores@.len() - i,
    {
        if scores[i] > scores[b] {
            b = i;
        }
        i += 1;
    }
    b
}

// ---- cosines ---------------------------------------------------------------

/// What a formula of cosines is made from.
#[derive(Clone, Copy, Debug, PartialEq, Eq, Structural)]
pub struct CosineRolls {
    /// A roll for the frequency.
    pub frequency: u32,
    /// A roll for the phase of the first channel.
    pub phase: u32,
    /// How far the channels' phases are apart.
    pub spread: i64,
    pub bias: i64,
    pub amplitude: i64,
    /// What is added to the bias in each channel.
    pub bias_jitter: Point,
    /// What is added to the amplitude in each channel.
    pub amplitude_jitter: Point,
}

/// Whether a number is within the reach of a jitter.
pub open spec fn jitters(v: int) -> bool {
    -80_000_000 <= v < 80_000_000
}

impl CosineRolls {
    /// The rolls there are.
    pub open spec fn valid(self) -> bool {
        &&& self.frequency < rng::ROLLS
        &&& self.phase < rng::ROLLS
        &&& 80_000_000 <= self.spread < 420_000_000
        &&& 350_000_000 <= self.bias < 550_000_000
        &&& 300_000_000 <= self.amplitude < 500_000_000
        &&& jitters(self.bias_jitter.x as int) && jitters(self.bias_jitter.y as int) && jitters(
            self.bias_jitter.z as int,
        )
        &&& jitters(self.amplitude_jitter.x as int) && jitters(self.amplitude_jitter.y as int)
            && jitters(self.amplitude_jitter.z as int)
    }
}

/// The smaller of two numbers.
pub open spec fn smaller(a: int, b: int) -> int {
    if a < b {
        a
    } else {
        b
    }
}

/// A centre with a jitter in each channel, held within two bounds.
pub open spec fn jittered(centre: int, by: Point, low: int, high: int) -> Point {
    Point {
        x: num::clamped(centre + by.x, low, high) as i64,
        y: num::clamped(centre + by.y, low, high) as i64,
        z: num::clamped(centre + by.z, low, high) as i64,
    }
}

/// The formula that rolls make. Channels share a frequency, one for the first
/// 80 in a hundred and two for the rest, and are told apart by phase; the
/// amplitude keeps within what the bias leaves room for.
pub open spec fn cosine_of(r: CosineRolls) -> Cosine {
    let frequency: i64 = if r.frequency < 13_421_773 {
        UNIT as i64
    } else {
        (2 * UNIT) as i64
    };
    let phase = r.phase * UNIT / rng::ROLLS as int;
    let amplitude = smaller(smaller(r.amplitude as int, r.bias as int), UNIT - r.bias);
    Cosine {
        a: jittered(r.bias as int, r.bias_jitter, 150_000_000, 850_000_000),
        b: jittered(amplitude, r.amplitude_jitter, 150_000_000, 600_000_000),
        c: Point { x: frequency, y: frequency, z: frequency },
        d: Point {
            x: phase as i64,
            y: (phase + r.spread) as i64,
            z: (phase + 2 * r.spread) as i64,
        },
    }
}

/// The palette that rolls make.
pub open spec fn cosine_palette(r: CosineRolls) -> PaletteModel {
    PaletteModel {
        name: Some("random cosine"@),
        ..super::plain(BodyModel::Cosine(cosine_of(r)))
    }
}

fn jitter(centre: i64, by: Point, low: i64, high: i64) -> (p: Point)
    requires
        0 <= centre <= UNIT,
        jitters(by.x as int),
        jitters(by.y as int),
        jitters(by.z as int),
    ensures
        p == jittered(centre as int, by, low as int, high as int),
{
    Point {
        x: num::clamp(centre + by.x, low, high),
        y: num::clamp(centre + by.y, low, high),
        z: num::clamp(centre + by.z, low, high),
    }
}

/// The palette that rolls make.
pub fn cosine_from(r: CosineRolls) -> (p: Palette)
    requires
        r.valid(),
    ensures
        p@ == cosine_palette(r),
{
    let frequency: i64 = if r.frequency < 13_421_773 {
        UNIT as i64
    } else {
        2 * UNIT as i64
    };
    let phase: i64 = (r.phase as u64 * UNIT / rng::ROLLS as u64) as i64;
    let room: i64 = UNIT as i64 - r.bias;
    let mut amplitude: i64 = r.amplitude;
    if r.bias < amplitude {
        amplitude = r.bias;
    }
    if room < amplitude {
        amplitude = room;
    }
    let cosine = Cosine {
        a: jitter(r.bias, r.bias_jitter, 150_000_000, 850_000_000),
        b: jitter(amplitude, r.amplitude_jitter, 150_000_000, 600_000_000),
        c: Point { x: frequency, y: frequency, z: frequency },
        d: Point { x: phase, y: phase + r.spread, z: phase + r.spread * 2 },
    };
    let mut p = Palette::from_cosine(cosine);
    p.name = Some(text::owned("random cosine"));
    p
}

fn roll_jitter(rng: &mut StdRng) -> (p: Point)
    ensures
        jitters(p.x as int),
        jitters(p.y as int),
        jitters(p.z as int),
{
    let x: i64 = rng::between(rng, -80_000_000, 80_000_000);
    let y: i64 = rng::between(rng, -80_000_000, 80_000_000);
    let z: i64 = rng::between(rng, -80_000_000, 80_000_000);
    Point { x, y, z }
}

/// A formula of cosines by rolls.
pub fn cosine(rng: &mut StdRng) -> (p: Palette)
    ensures
        exists|r: CosineRolls| r.valid() && p@ == #[trigger] cosine_palette(r),
{
    let frequency: u32 = rng::roll(rng);
    let phase: u32 = rng::roll(rng);
    let spread: i64 = rng::between(rng, 80_000_000, 420_000_000);
    let bias: i64 = rng::between(rng, 350_000_000, 550_000_000);
    let amplitude: i64 = rng::between(rng, 300_000_000, 500_000_000);
    let bias_jitter = roll_jitter(rng);
    let amplitude_jitter = roll_jitter(rng);
    let r = CosineRolls {
        frequency,
        phase,
        spread,
        bias,
        amplitude,
        bias_jitter,
        amplitude_jitter,
    };
    let p = cosine_from(r);
    assert(r.valid() && p@ == cosine_palette(r));
    p
}

/// A point with every number within two bounds.
pub open spec fn point_within(p: Point, low: int, high: int) -> bool {
    low <= p.x <= high && low <= p.y <= high && low <= p.z <= high
}

/// Whatever is rolled, a formula has a middling bias, an amplitude that swings
/// it, and the same whole number of cycles in every channel, so that its end
/// meets its beginning.
pub proof fn every_cosine_is_seamless(r: CosineRolls)
    requires
        r.valid(),
    ensures
        ({
            let c = cosine_of(r);
            &&& point_within(c.a, 150_000_000, 850_000_000)
            &&& point_within(c.b, 150_000_000, 600_000_000)
            &&& c.c.x == c.c.y == c.c.z
            &&& c.c.x == UNIT || c.c.x == 2 * UNIT
        }),
{
    assert(2 * UNIT == 2_000_000_000i64);
}

// ---- harmonies -------------------------------------------------------------

/// What a harmony is made from. Hues are in degrees.
pub struct HarmonyRolls {
    pub base: i64,
    pub scheme: u32,
    /// How many stops.
    pub n: usize,
    /// The lowest and the highest value.
    pub floor: i64,
    pub peak: i64,
    /// The saturation at the peak, and away from it.
    pub sat_low: i64,
    pub sat_high: i64,
    /// Where the peak lies.
    pub peak_at: i64,
    /// What is added to the hue of each stop.
    pub jitters: Vec<i64>,
    /// A roll for the space to mix in.
    pub space: u32,
}

impl HarmonyRolls {
    /// The rolls there are.
    pub open spec fn valid(self) -> bool {
        &&& 0 <= self.base < 360_000_000_000
        &&& self.scheme < 4
        &&& 5 <= self.n <= 7
        &&& 30_000_000 <= self.floor < 120_000_000
        &&& 900_000_000 <= self.peak < 1_000_000_000
        &&& 50_000_000 <= self.sat_low < 250_000_000
        &&& 750_000_000 <= self.sat_high < 1_000_000_000
        &&& 400_000_000 <= self.peak_at < 720_000_000
        &&& self.jitters@.len() == self.n
        &&& forall|i: int|
            0 <= i < self.jitters@.len() ==> -8_000_000_000 <= (#[trigger] self.jitters@[i])
                < 8_000_000_000
        &&& self.space < rng::ROLLS
    }
}

/// The hues of a scheme, in degrees from the base: analogous, complementary,
/// triadic or split complementary. Stops take them in turn.
pub open spec fn offset(scheme: int, i: int) -> int {
    if scheme == 0 {
        22 * (i % 4)
    } else if scheme == 1 {
        if i % 4 == 0 {
            0
        } else if i % 4 == 1 {
            30
        } else if i % 4 == 2 {
            180
        } else {
            210
        }
    } else if scheme == 2 {
        120 * (i % 3)
    } else {
        if i % 3 == 0 {
            0
        } else if i % 3 == 1 {
            150
        } else {
            210
        }
    }
}

fn offset_of(scheme: u32, i: usize) -> (d: i64)
    ensures
        d == offset(scheme as int, i as int),
        0 <= d <= 240,
{
    let four: usize = i % 4;
    let three: usize = i % 3;
    if scheme == 0 {
        22 * four as i64
    } else if scheme == 1 {
        if four == 0 {
            0
        } else if four == 1 {
            30
        } else if four == 2 {
            180
        } else {
            210
        }
    } else if scheme == 2 {
        120 * three as i64
    } else {
        if three == 0 {
            0
        } else if three == 1 {
            150
        } else {
            210
        }
    }
}

/// How far stop `i` of `n` is up the rise to the peak, or down the fall from
/// it: nothing at either end, all the way at the peak.
pub open spec fn climb(i: int, n: int, peak_at: int) -> int {
    if i * UNIT < peak_at * n {
        i * UNIT * UNIT / (peak_at * n)
    } else {
        (n - i) * UNIT * UNIT / ((UNIT - peak_at) * n)
    }
}

/// How far stop `i` of `n` is up the rise to the peak, or down the fall.
pub fn climb_of(i: usize, n: usize, peak_at: i64) -> (c: i64)
    requires
        i < n <= 7,
        400_000_000 <= peak_at < 720_000_000,
    ensures
        c == climb(i as int, n as int, peak_at as int),
        0 <= c <= UNIT,
{
    let unit: i128 = UNIT as i128;
    let along: i128 = i as i128 * unit;
    assert(0 <= peak_at * n <= 720_000_000 * 7) by (nonlinear_arith)
        requires
            400_000_000 <= peak_at < 720_000_000,
            1 <= n <= 7,
    ;
    let at: i128 = peak_at as i128 * n as i128;
    assert(400_000_000 <= at <= 5_040_000_000) by (nonlinear_arith)
        requires
            at == peak_at * n,
            400_000_000 <= peak_at < 720_000_000,
            1 <= n <= 7,
    ;
    if along < at {
        assert(0 <= along * unit / at as int <= unit) by (nonlinear_arith)
            requires
                0 <= along < at,
                unit == 1_000_000_000,
        ;
        (along * unit / at) as i64
    } else {
        let left: i128 = (n - i) as i128 * unit;
        assert(0 <= (unit - peak_at) * n <= 600_000_000 * 7) by (nonlinear_arith)
            requires
                280_000_000 <= unit - peak_at <= 600_000_000,
                1 <= n <= 7,
        ;
        let rest: i128 = (unit - peak_at as i128) * n as i128;
        assert(rest == unit * n - at) by (nonlinear_arith)
            requires
                rest == (unit - peak_at) * n,
                at == peak_at * n,
        ;
        assert(left <= rest);
        assert(rest > 0) by (nonlinear_arith)
            requires
                rest == (unit - peak_at) * n,
                unit - peak_at > 0,
                n >= 1,
        ;
        assert(0 <= left * unit / rest as int <= unit) by (nonlinear_arith)
            requires
                0 <= left <= rest,
                rest > 0,
                unit == 1_000_000_000,
        ;
        (left * unit / rest) as i64
    }
}

/// What a rise and fall is at a stop: the height there, and the share of the
/// highlight.
#[derive(Clone, Copy, Debug, PartialEq, Eq, Structural)]
pub struct Height {
    pub value: i64,
    pub highlight: i64,
}

impl Height {
    /// Both are shares.
    pub open spec fn valid(self) -> bool {
        0 <= self.value <= UNIT && 0 <= self.highlight <= UNIT
    }
}

/// A channel of a colour, rounded to a byte.
pub open spec fn byte(v: int) -> int {
    num::clamped((255 * v + UNIT / 2) / UNIT as int, 0, 255)
}

/// The place on the colour wheel at `h` degrees: `c` above the floor `m` in
/// the channel that leads, and less in the one beside it.
pub open spec fn wheel(h: int, c: int, m: int) -> Point {
    let degrees = h % 360_000_000_000;
    let turn = degrees % 120_000_000_000;
    let x = c * smaller(turn, 120_000_000_000 - turn) / 60_000_000_000;
    let sector = degrees / 60_000_000_000;
    let (r, g, b) = if sector == 0 {
        (c, x, 0)
    } else if sector == 1 {
        (x, c, 0)
    } else if sector == 2 {
        (0, c, x)
    } else if sector == 3 {
        (0, x, c)
    } else if sector == 4 {
        (x, 0, c)
    } else {
        (c, 0, x)
    };
    Point { x: (r + m) as i64, y: (g + m) as i64, z: (b + m) as i64 }
}

/// The three channels of a colour from hue in degrees, saturation and value.
pub open spec fn channels(h: int, s: int, v: int) -> Point {
    let c = v * s / UNIT as int;
    wheel(h, c, v - c)
}

/// A colour from hue in degrees, saturation and value, as a display shows it.
pub open spec fn hsv(h: int, s: int, v: int) -> Ink {
    let c = channels(h, s, v);
    Ink::of(byte(c.x as int) as u8, byte(c.y as int) as u8, byte(c.z as int) as u8)
}

fn byte_of(v: i64) -> (b: u8)
    requires
        0 <= v <= 2 * UNIT,
    ensures
        b == byte(v as int) as u8,
{
    let n: i64 = (255 * v + 500_000_000) / 1_000_000_000;
    if n > 255 {
        255
    } else {
        n as u8
    }
}

/// The place on the colour wheel at `h` degrees.
pub fn wheel_at(h: i64, c: i64, m: i64) -> (p: Point)
    requires
        0 <= c <= 2 * num::SCALABLE,
        -num::SCALABLE <= m <= num::SCALABLE,
    ensures
        p == wheel(h as int, c as int, m as int),
        point_within(p, m as int, m + c),
{
    let (_, degrees) = num::floor_divide(h, 360_000_000_000);
    assert(degrees == h as int % 360_000_000_000);
    let turn: i64 = degrees % 120_000_000_000;
    let part: i64 = if turn < 120_000_000_000 - turn {
        turn
    } else {
        120_000_000_000 - turn
    };
    assert(0 <= c * part <= 2 * num::SCALABLE * 60_000_000_000) by (nonlinear_arith)
        requires
            0 <= c <= 2 * num::SCALABLE,
            0 <= part <= 60_000_000_000,
    ;
    let x: i64 = (c as i128 * part as i128 / 60_000_000_000) as i64;
    assert(0 <= x <= c) by (nonlinear_arith)
        requires
            x == c * part / 60_000_000_000,
            0 <= part <= 60_000_000_000,
            0 <= c,
    ;
    let sector: i64 = degrees / 60_000_000_000;
    let (r, g, b): (i64, i64, i64) = if sector == 0 {
        (c, x, 0)
    } else if sector == 1 {
        (x, c, 0)
    } else if sector == 2 {
        (0, c, x)
    } else if sector == 3 {
        (0, x, c)
    } else if sector == 4 {
        (x, 0, c)
    } else {
        (c, 0, x)
    };
    Point { x: r + m, y: g + m, z: b + m }
}

/// The three channels of a colour from hue in degrees, saturation and value.
pub fn channels_of(h: i64, s: i64, v: i64) -> (p: Point)
    requires
        0 <= s <= UNIT,
        0 <= v <= UNIT,
    ensures
        p == channels(h as int, s as int, v as int),
        point_within(p, 0, v as int),
{
    assert(0 <= v * s <= UNIT * UNIT) by (nonlinear_arith)
        requires
            0 <= s <= UNIT,
            0 <= v <= UNIT,
    ;
    let c: i64 = (v as i128 * s as i128 / UNIT as i128) as i64;
    assert(0 <= c <= v) by (nonlinear_arith)
        requires
            c == v * s / UNIT as int,
            0 <= s <= UNIT,
            0 <= v,
            UNIT == 1_000_000_000,
    ;
    wheel_at(h, c, v - c)
}

/// A colour from hue in degrees, saturation and value, as a display shows it.
pub fn hsv_to_linear(h: i64, s: i64, v: i64) -> (i: Ink)
    requires
        0 <= s <= UNIT,
        0 <= v <= UNIT,
    ensures
        i == hsv(h as int, s as int, v as int),
{
    let c = channels_of(h, s, v);
    Ink::shown(byte_of(c.x), byte_of(c.y), byte_of(c.z))
}

/// Stop `i` of a harmony: its hue is the base, its turn of the scheme and its
/// jitter; brightness follows the height, and saturation runs the other way.
pub open spec fn harmony_stop(r: HarmonyRolls, heights: Seq<Height>, i: int) -> Stop {
    let e = heights[i];
    let hue = r.base + offset(r.scheme as int, i) * UNIT + r.jitters@[i];
    let v = r.floor + (r.peak - r.floor) * e.value / UNIT as int;
    let s = r.sat_high - (r.sat_high - r.sat_low) * e.highlight / UNIT as int;
    Stop { at: (i * UNIT / r.n as int) as i64, color: hsv(hue, s, v) }
}

/// The stops of a harmony.
pub open spec fn harmony_stops(r: HarmonyRolls, heights: Seq<Height>) -> Seq<Stop> {
    Seq::new(r.n as nat, |i: int| harmony_stop(r, heights, i))
}

/// The palette that rolls make, mixed where hues meet in an even space for the
/// first 70 in a hundred.
pub open spec fn harmony_palette(r: HarmonyRolls, heights: Seq<Height>) -> PaletteModel {
    PaletteModel {
        name: Some("random harmony"@),
        interpolate: if r.space < 11_744_051 {
            Interpolate::Oklab
        } else {
            Interpolate::Rgb
        },
        ..super::plain(BodyModel::Stops(super::sorted(harmony_stops(r, heights))))
    }
}

fn make_stop(r: &HarmonyRolls, e: Height, i: usize) -> (s: Stop)
    requires
        r.valid(),
        e.valid(),
        i < r.n,
    ensures
        forall|heights: Seq<Height>|
            heights.len() == r.n && heights[i as int] == e ==> s == #[trigger] harmony_stop(
                *r,
                heights,
                i as int,
            ),
{
    assert(-8_000_000_000 <= r.jitters@[i as int] < 8_000_000_000);
    let turn: i64 = offset_of(r.scheme, i);
    assert(0 <= turn * UNIT <= 240 * UNIT) by (nonlinear_arith)
        requires
            0 <= turn <= 240,
            UNIT == 1_000_000_000,
    ;
    let hue: i64 = r.base + turn * UNIT as i64 + r.jitters[i];
    let rise: i64 = r.peak - r.floor;
    assert(0 <= rise * e.value <= rise * UNIT) by (nonlinear_arith)
        requires
            0 <= e.value <= UNIT,
            rise >= 0,
    ;
    let up: i64 = (rise as i128 * e.value as i128 / UNIT as i128) as i64;
    assert(0 <= up <= rise);
    let v: i64 = r.floor + up;
    let fall: i64 = r.sat_high - r.sat_low;
    assert(0 <= fall * e.highlight <= fall * UNIT) by (nonlinear_arith)
        requires
            0 <= e.highlight <= UNIT,
            fall >= 0,
    ;
    let down: i64 = (fall as i128 * e.highlight as i128 / UNIT as i128) as i64;
    assert(0 <= down <= fall);
    let s: i64 = r.sat_high - down;
    let at: i64 = (i as u64 * UNIT / r.n as u64) as i64;
    Stop { at, color: hsv_to_linear(hue, s, v) }
}

/// The palette that rolls make, given the heights of its rise and fall.
pub fn harmony(r: &HarmonyRolls, heights: &Vec<Height>) -> (p: Palette)
    requires
        r.valid(),
        heights@.len() == r.n,
        forall|i: int| 0 <= i < heights@.len() ==> (#[trigger] heights@[i]).valid(),
    ensures
        p@ == harmony_palette(*r, heights@),
{
    let mut stops: Vec<Stop> = Vec::new();
    let mut i: usize = 0;
    while i < r.n
        invariant
            i <= r.n,
            r.valid(),
            heights@.len() == r.n,
            forall|k: int| 0 <= k < heights@.len() ==> (#[trigger] heights@[k]).valid(),
            stops@ == harmony_stops(*r, heights@).take(i as int),
        decreases r.n - i,
    {
        assert(heights@[i as int].valid());
        let s = make_stop(r, heights[i], i);
        assert(s == harmony_stop(*r, heights@, i as int));
        stops.push(s);
        i += 1;
        assert(stops@ =~= harmony_stops(*r, heights@).take(i as int));
    }
    assert(stops@ =~= harmony_stops(*r, heights@));
    let mut p = Palette::from_stops(&stops);
    p.interpolate = if r.space < 11_744_051 {
        Interpolate::Oklab
    } else {
        Interpolate::Rgb
    };
    p.name = Some(text::owned("random harmony"));
    p
}

/// What is drawn for a harmony: 32 bits for each number that lies in a range.
pub struct HarmonyDraws {
    pub base: u32,
    pub scheme: u32,
    /// How many stops there are beyond the fewest.
    pub more: usize,
    pub floor: u32,
    pub peak: u32,
    pub sat_low: u32,
    pub sat_high: u32,
    pub peak_at: u32,
    /// One for each stop.
    pub jitters: Vec<u32>,
    pub space: u32,
}

impl HarmonyDraws {
    /// What can be drawn.
    pub open spec fn valid(self) -> bool {
        &&& self.scheme < 4
        &&& self.more < 3
        &&& self.jitters@.len() == 5 + self.more
        &&& self.space < rng::ROLLS
    }
}

/// Whether a harmony is made from what was drawn.
pub open spec fn is_drawn(r: HarmonyRolls, d: HarmonyDraws) -> bool {
    &&& r.base == rng::chosen(d.base, 0, 360_000_000_000)
    &&& r.scheme == d.scheme
    &&& r.n == 5 + d.more
    &&& r.floor == rng::chosen(d.floor, 30_000_000, 120_000_000)
    &&& r.peak == rng::chosen(d.peak, 900_000_000, 1_000_000_000)
    &&& r.sat_low == rng::chosen(d.sat_low, 50_000_000, 250_000_000)
    &&& r.sat_high == rng::chosen(d.sat_high, 750_000_000, 1_000_000_000)
    &&& r.peak_at == rng::chosen(d.peak_at, 400_000_000, 720_000_000)
    &&& r.jitters@ == shifts_of(d.jitters@, 8_000_000_000)
    &&& r.space == d.space
}

/// What a harmony is made from, by what was drawn.
pub fn harmony_from(d: &HarmonyDraws) -> (r: HarmonyRolls)
    requires
        d.valid(),
    ensures
        is_drawn(r, *d),
        r.valid(),
{
    let jitters = choose_shifts(&d.jitters, 8_000_000_000);
    assert forall|i: int| 0 <= i < jitters@.len() implies -8_000_000_000 <= (#[trigger] jitters@[i])
        < 8_000_000_000 by {
        assert(near_zero(jitters@[i] as int, 8_000_000_000));
    }
    HarmonyRolls {
        base: rng::choose_between(d.base, 0, 360_000_000_000),
        scheme: d.scheme,
        n: 5 + d.more,
        floor: rng::choose_between(d.floor, 30_000_000, 120_000_000),
        peak: rng::choose_between(d.peak, 900_000_000, 1_000_000_000),
        sat_low: rng::choose_between(d.sat_low, 50_000_000, 250_000_000),
        sat_high: rng::choose_between(d.sat_high, 750_000_000, 1_000_000_000),
        peak_at: rng::choose_between(d.peak_at, 400_000_000, 720_000_000),
        jitters,
        space: d.space,
    }
}

/// What a harmony is made from, by rolls.
pub fn roll_harmony(rng: &mut StdRng) -> (r: HarmonyRolls)
    ensures
        r.valid(),
        exists|d: HarmonyDraws| d.valid() && #[trigger] is_drawn(r, d),
{
    let base: u32 = rng::next(rng);
    let scheme: u32 = rng::one_below(rng, 4);
    let more: usize = rng::below(rng, 3);
    let floor: u32 = rng::next(rng);
    let peak: u32 = rng::next(rng);
    let sat_low: u32 = rng::next(rng);
    let sat_high: u32 = rng::next(rng);
    let peak_at: u32 = rng::next(rng);
    let jitters = roll_each(rng, 5 + more);
    let space: u32 = rng::roll(rng);
    harmony_from(
        &HarmonyDraws {
            base,
            scheme,
            more,
            floor,
            peak,
            sat_low,
            sat_high,
            peak_at,
            jitters,
            space,
        },
    )
}

/// Both ends of a rise and fall are at the bottom: the first stop is, and what
/// would follow the last one is.
pub proof fn both_ends_are_dark(n: int, peak_at: int)
    requires
        1 <= n,
        0 < peak_at < UNIT,
    ensures
        climb(0, n, peak_at) == 0,
        climb(n, n, peak_at) == 0,
{
    assert(peak_at * n > 0) by (nonlinear_arith)
        requires
            peak_at > 0,
            n >= 1,
    ;
    assert(peak_at * n <= n * UNIT) by (nonlinear_arith)
        requires
            peak_at < UNIT,
            n >= 1,
    ;
    assert((UNIT - peak_at) * n > 0) by (nonlinear_arith)
        requires
            peak_at < UNIT,
            n >= 1,
    ;
    assert(0int / (peak_at * n) == 0) by (nonlinear_arith)
        requires
            peak_at * n > 0,
    ;
    assert(0int / ((UNIT - peak_at) * n) == 0) by (nonlinear_arith)
        requires
            (UNIT - peak_at) * n > 0,
    ;
}

// ---- changing a palette a little -------------------------------------------

/// A small change to a palette.
pub enum Change {
    /// Turn every hue by so many degrees.
    Hue { degrees: i64 },
    /// Shift the gradient along.
    Rotate { by: i64 },
    /// Run it backward.
    Reverse,
    /// Move every stop a little, by less than `by` either way.
    Stops { by: i64, shifts: Vec<i64> },
    /// Move the phase of every channel a little.
    Phase { by: i64, shift: Point },
}

/// What a change holds.
pub enum ChangeModel {
    Hue(int),
    Rotate(int),
    Reverse,
    Stops(int, Seq<i64>),
    Phase(int, Point),
}

impl View for Change {
    type V = ChangeModel;

    open spec fn view(&self) -> ChangeModel {
        match self {
            Change::Hue { degrees } => ChangeModel::Hue(*degrees as int),
            Change::Rotate { by } => ChangeModel::Rotate(*by as int),
            Change::Reverse => ChangeModel::Reverse,
            Change::Stops { by, shifts } => ChangeModel::Stops(*by as int, shifts@),
            Change::Phase { by, shift } => ChangeModel::Phase(*by as int, *shift),
        }
    }
}

/// Whether a number is a roll from `low` up to `high`, in proportion to a
/// strength.
pub open spec fn rolled(v: int, low: int, high: int, strength: int) -> bool {
    exists|r: int| low <= r < high && v == #[trigger] num::scaled(r, strength)
}

/// Whether a number is less than `by` from zero.
pub open spec fn near_zero(v: int, by: int) -> bool {
    -by <= v < by
}

/// The changes there are to a palette: stops move only where there are stops,
/// and phases only where there is a formula; entries shift along instead.
pub open spec fn possible(c: ChangeModel, body: BodyModel, strength: int) -> bool {
    match c {
        ChangeModel::Hue(degrees) => rolled(degrees, -60_000_000_000, 60_000_000_000, strength),
        ChangeModel::Rotate(by) => rolled(by, -250_000_000, 250_000_000, strength) || (
        body is Entries && rolled(by, 20_000_000, 100_000_000, strength)),
        ChangeModel::Reverse => true,
        ChangeModel::Stops(by, shifts) => {
            &&& rolled(by, 20_000_000, 100_000_000, strength)
            &&& body matches BodyModel::Stops(s) && s.len() == shifts.len()
            &&& forall|i: int| 0 <= i < shifts.len() ==> near_zero(#[trigger] shifts[i] as int, by)
        },
        ChangeModel::Phase(by, shift) => {
            &&& rolled(by, 20_000_000, 100_000_000, strength)
            &&& body is Cosine
            &&& near_zero(shift.x as int, by) && near_zero(shift.y as int, by) && near_zero(
                shift.z as int,
                by,
            )
        },
    }
}

/// The largest strength.
pub const STRONGEST: i64 = 1_000_000_000_000;

/// The smallest strength: a stop can still move by it.
pub const WEAKEST: i64 = 50;

/// What can move a stop still moves it in proportion.
proof fn strong_enough(v: int, strength: int)
    requires
        v >= 20_000_000,
        strength >= WEAKEST,
    ensures
        num::scaled(v, strength) > 0,
{
    assert(v * strength >= 1_000_000_000) by (nonlinear_arith)
        requires
            v >= 20_000_000,
            strength >= 50,
    ;
}

proof fn a_roll_is_rolled(r: int, low: int, high: int, strength: int)
    requires
        low <= r < high,
    ensures
        rolled(num::scaled(r, strength), low, high, strength),
{
}

/// What a change is rolled from. What was not rolled, because nothing depends
/// on it, is zero or missing.
pub struct ChangeRolls {
    /// Which of four changes it is.
    pub which: u32,
    /// How far it goes.
    pub bits: u32,
    /// Where each stop moves, or each of the three phases.
    pub each: Vec<u32>,
}

impl ChangeRolls {
    /// The rolls there are for a palette of this form.
    pub open spec fn valid(self, body: BodyModel) -> bool {
        &&& self.which < 4
        &&& self.which == 3 ==> match body {
            BodyModel::Stops(s) => self.each@.len() == s.len(),
            BodyModel::Cosine(_) => self.each@.len() == 3,
            BodyModel::Entries(_) => true,
        }
    }
}

/// Shifts of less than `by` either way.
pub open spec fn shifts_of(each: Seq<u32>, by: int) -> Seq<i64> {
    Seq::new(each.len(), |i: int| rng::chosen(each[i], -by, by) as i64)
}

/// The change that rolls make to a palette of a form: its hues turn, it shifts
/// along, it runs backward, or what gives it its form moves a little.
pub open spec fn change_of(r: ChangeRolls, body: BodyModel, strength: int) -> ChangeModel {
    if r.which == 0 {
        ChangeModel::Hue(
            num::scaled(rng::chosen(r.bits, -60_000_000_000, 60_000_000_000), strength),
        )
    } else if r.which == 1 {
        ChangeModel::Rotate(
            num::scaled(rng::chosen(r.bits, -250_000_000, 250_000_000), strength),
        )
    } else if r.which == 2 {
        ChangeModel::Reverse
    } else {
        let by = num::scaled(rng::chosen(r.bits, 20_000_000, 100_000_000), strength);
        match body {
            BodyModel::Stops(_) => ChangeModel::Stops(by, shifts_of(r.each@, by)),
            BodyModel::Cosine(_) => {
                let s = shifts_of(r.each@, by);
                ChangeModel::Phase(by, Point { x: s[0], y: s[1], z: s[2] })
            },
            BodyModel::Entries(_) => ChangeModel::Rotate(by),
        }
    }
}

fn choose_shifts(each: &Vec<u32>, by: i64) -> (v: Vec<i64>)
    requires
        0 < by <= 1_000_000_000_000_000_000,
    ensures
        v@ == shifts_of(each@, by as int),
        forall|i: int| 0 <= i < v@.len() ==> near_zero(#[trigger] v@[i] as int, by as int),
{
    let mut v: Vec<i64> = Vec::new();
    while v.len() < each.len()
        invariant
            v@.len() <= each@.len(),
            0 < by <= 1_000_000_000_000_000_000,
            v@ == shifts_of(each@, by as int).take(v@.len() as int),
            forall|i: int| 0 <= i < v@.len() ==> near_zero(#[trigger] v@[i] as int, by as int),
        decreases each@.len() - v@.len(),
    {
        let d: i64 = rng::choose_between(each[v.len()], -by, by);
        v.push(d);
        assert(v@ =~= shifts_of(each@, by as int).take(v@.len() as int));
    }
    assert(v@ =~= shifts_of(each@, by as int));
    v
}

/// The change that rolls make to a palette.
pub fn change_from(r: &ChangeRolls, p: &Palette, strength: i64) -> (c: Change)
    requires
        WEAKEST <= strength <= STRONGEST,
        r.valid(p.body@),
    ensures
        c@ == change_of(*r, p.body@, strength as int),
        possible(c@, p.body@, strength as int),
{
    if r.which == 0 {
        let v: i64 = rng::choose_between(r.bits, -60_000_000_000, 60_000_000_000);
        proof {
            a_roll_is_rolled(v as int, -60_000_000_000, 60_000_000_000, strength as int);
        }
        Change::Hue { degrees: num::scale(v, strength) }
    } else if r.which == 1 {
        let v: i64 = rng::choose_between(r.bits, -250_000_000, 250_000_000);
        proof {
            a_roll_is_rolled(v as int, -250_000_000, 250_000_000, strength as int);
        }
        Change::Rotate { by: num::scale(v, strength) }
    } else if r.which == 2 {
        Change::Reverse
    } else {
        let v: i64 = rng::choose_between(r.bits, 20_000_000, 100_000_000);
        proof {
            a_roll_is_rolled(v as int, 20_000_000, 100_000_000, strength as int);
            strong_enough(v as int, strength as int);
        }
        let by: i64 = num::scale(v, strength);
        match &p.body {
            Body::Stops(_) => {
                let shifts = choose_shifts(&r.each, by);
                Change::Stops { by, shifts }
            },
            Body::Cosine(_) => {
                let s = choose_shifts(&r.each, by);
                Change::Phase { by, shift: Point { x: s[0], y: s[1], z: s[2] } }
            },
            Body::Entries(_) => Change::Rotate { by },
        }
    }
}

fn roll_each(rng: &mut StdRng, n: usize) -> (v: Vec<u32>)
    ensures
        v@.len() == n,
{
    let mut v: Vec<u32> = Vec::new();
    while v.len() < n
        invariant
            v@.len() <= n,
        decreases n - v@.len(),
    {
        let bits: u32 = rng::next(rng);
        v.push(bits);
    }
    v
}

/// A change to a palette, by rolls: the one that the rolls make.
pub fn roll_change(p: &Palette, rng: &mut StdRng, strength: i64) -> (c: Change)
    requires
        WEAKEST <= strength <= STRONGEST,
    ensures
        possible(c@, p.body@, strength as int),
        exists|r: ChangeRolls|
            r.valid(p.body@) && c@ == #[trigger] change_of(r, p.body@, strength as int),
{
    let mut r = ChangeRolls { which: rng::one_below(rng, 4), bits: 0, each: Vec::new() };
    if r.which != 2 {
        r.bits = rng::next(rng);
    }
    if r.which == 3 {
        match &p.body {
            Body::Stops(s) => {
                r.each = roll_each(rng, s.len());
            },
            Body::Cosine(_) => {
                r.each = roll_each(rng, 3);
            },
            Body::Entries(_) => {},
        }
    }
    change_from(&r, p, strength)
}

/// A number to `decimals` places with its sign, plus or minus.
pub open spec fn with_sign(v: int, decimals: nat) -> Seq<char> {
    (if v < 0 {
        ""@
    } else {
        "+"@
    }) + quantity::plain_text(v, decimals)
}

/// A change in words.
pub open spec fn change_text(c: ChangeModel) -> Seq<char> {
    match c {
        ChangeModel::Hue(degrees) => "palette hue "@ + with_sign(degrees, 0) + "\u{b0}"@,
        ChangeModel::Rotate(by) => "palette rotate "@ + with_sign(by, 2),
        ChangeModel::Reverse => "palette reversed"@,
        ChangeModel::Stops(by, _) => "palette stops jittered "@ + quantity::plain_text(by, 2),
        ChangeModel::Phase(by, _) => "palette phase jittered "@ + quantity::plain_text(by, 2),
    }
}

/// Append a number to `decimals` places with its sign.
pub fn push_with_sign(out: &mut String, v: i64, decimals: usize)
    requires
        decimals <= 18,
    ensures
        final(out)@ == old(out)@ + with_sign(v as int, decimals as nat),
{
    let ghost before = out@;
    if v >= 0 {
        out.append("+");
    }
    quantity::push_plain(out, v, decimals);
    proof {
        reveal_strlit("");
    }
    assert(out@ =~= before + with_sign(v as int, decimals as nat));
}

impl Change {
    /// The change in words.
    pub fn describe(&self) -> (s: String)
        ensures
            s@ == change_text(self@),
    {
        match self {
            Change::Hue { degrees } => {
                let mut s = text::owned("palette hue ");
                push_with_sign(&mut s, *degrees, 0);
                s.append("\u{b0}");
                s
            },
            Change::Rotate { by } => {
                let mut s = text::owned("palette rotate ");
                push_with_sign(&mut s, *by, 2);
                s
            },
            Change::Reverse => text::owned("palette reversed"),
            Change::Stops { by, shifts } => {
                let mut s = text::owned("palette stops jittered ");
                quantity::push_plain(&mut s, *by, 2);
                s
            },
            Change::Phase { by, shift } => {
                let mut s = text::owned("palette phase jittered ");
                quantity::push_plain(&mut s, *by, 2);
                s
            },
        }
    }
}

/// A shift along a gradient, on the gradient.
pub open spec fn turned(rotate: int, by: int) -> int {
    (rotate + by) % (UNIT as int)
}

/// Stops, each moved by its shift, held on the gradient and in order.
pub open spec fn moved_stops(s: Seq<Stop>, shifts: Seq<i64>) -> Seq<Stop> {
    Seq::new(
        s.len(),
        |i: int|
            Stop {
                at: num::clamped(s[i].at + shifts[i], 0, super::LAST_STOP as int) as i64,
                color: s[i].color,
            },
    )
}

/// Stops with other colours.
pub open spec fn recolored(s: Seq<Stop>, colors: Seq<Ink>) -> Seq<Stop> {
    Seq::new(s.len(), |i: int| Stop { at: s[i].at, color: colors[i] })
}

/// A point, moved by another.
pub open spec fn moved(p: Point, by: Point) -> Point {
    Point { x: (p.x + by.x) as i64, y: (p.y + by.y) as i64, z: (p.z + by.z) as i64 }
}

/// How far a formula's phase moves for a hue: a quarter of what its bias gains
/// in brightness, which counts for half at most.
pub open spec fn phase_shift(gain: int) -> int {
    num::clamped(gain, -500_000_000, 500_000_000) / 4
}

/// A body with its hues turned: `colors` are the turned colours, and `gain` is
/// what a formula's bias gains in brightness.
pub open spec fn with_hues(body: BodyModel, colors: Seq<Ink>, gain: int) -> BodyModel {
    match body {
        BodyModel::Stops(s) => BodyModel::Stops(recolored(s, colors)),
        BodyModel::Entries(e) => BodyModel::Entries(colors),
        BodyModel::Cosine(c) => {
            let by = phase_shift(gain) as i64;
            BodyModel::Cosine(Cosine { d: moved(c.d, Point { x: by, y: by, z: by }), ..c })
        },
    }
}

/// A palette after a change. Turned hues are no longer those of the library,
/// so its name goes.
pub open spec fn changed(p: PaletteModel, c: ChangeModel, colors: Seq<Ink>, gain: int) -> PaletteModel {
    match c {
        ChangeModel::Hue(_) => PaletteModel {
            name: None,
            body: with_hues(p.body, colors, gain),
            ..p
        },
        ChangeModel::Rotate(by) => PaletteModel { rotate: turned(p.rotate, by), ..p },
        ChangeModel::Reverse => PaletteModel { reverse: !p.reverse, ..p },
        ChangeModel::Stops(_, shifts) => PaletteModel {
            body: match p.body {
                BodyModel::Stops(s) => BodyModel::Stops(super::sorted(moved_stops(s, shifts))),
                b => b,
            },
            ..p
        },
        ChangeModel::Phase(_, shift) => PaletteModel {
            body: match p.body {
                BodyModel::Cosine(k) => BodyModel::Cosine(Cosine { d: moved(k.d, shift), ..k }),
                b => b,
            },
            ..p
        },
    }
}

/// The largest size of a phase or a shift that can still be moved.
pub const FAR: i64 = 4_000_000_000_000_000_000;

/// Whether a point's numbers are small enough to move.
pub open spec fn can_move(p: Point) -> bool {
    point_within(p, -FAR as int, FAR as int)
}

/// Whether a change and what comes with it fit a palette.
pub open spec fn applies(p: PaletteModel, c: ChangeModel, colors: Seq<Ink>) -> bool {
    &&& p.body matches BodyModel::Cosine(k) ==> can_move(k.d)
    &&& p.body matches BodyModel::Stops(s) ==> forall|i: int|
        0 <= i < s.len() ==> -FAR <= (#[trigger] s[i]).at <= FAR
    &&& -FAR <= p.rotate <= FAR
    &&& match c {
        ChangeModel::Hue(_) => match p.body {
            BodyModel::Stops(s) => colors.len() == s.len(),
            BodyModel::Entries(e) => colors.len() == e.len(),
            BodyModel::Cosine(_) => true,
        },
        ChangeModel::Rotate(by) => -FAR <= by <= FAR,
        ChangeModel::Reverse => true,
        ChangeModel::Stops(_, shifts) => {
            &&& p.body matches BodyModel::Stops(s) ==> s.len() == shifts.len()
            &&& forall|i: int| 0 <= i < shifts.len() ==> -FAR <= (#[trigger] shifts[i]) <= FAR
        },
        ChangeModel::Phase(_, shift) => can_move(shift),
    }
}

fn move_by(p: Point, by: Point) -> (r: Point)
    requires
        can_move(p),
        can_move(by),
    ensures
        r == moved(p, by),
{
    Point { x: p.x + by.x, y: p.y + by.y, z: p.z + by.z }
}

fn move_stops(s: &Vec<Stop>, shifts: &Vec<i64>) -> (v: Vec<Stop>)
    requires
        s@.len() == shifts@.len(),
        forall|i: int| 0 <= i < s@.len() ==> -FAR <= (#[trigger] s@[i]).at <= FAR,
        forall|i: int| 0 <= i < shifts@.len() ==> -FAR <= (#[trigger] shifts@[i]) <= FAR,
    ensures
        v@ == moved_stops(s@, shifts@),
{
    let mut v: Vec<Stop> = Vec::new();
    let mut i: usize = 0;
    while i < s.len()
        invariant
            i <= s@.len() == shifts@.len(),
            forall|k: int| 0 <= k < s@.len() ==> -FAR <= (#[trigger] s@[k]).at <= FAR,
            forall|k: int| 0 <= k < shifts@.len() ==> -FAR <= (#[trigger] shifts@[k]) <= FAR,
            v@ == moved_stops(s@, shifts@).take(i as int),
        decreases s@.len() - i,
    {
        assert(-FAR <= s@[i as int].at <= FAR);
        assert(-FAR <= shifts@[i as int] <= FAR);
        v.push(Stop { at: num::clamp(s[i].at + shifts[i], 0, super::LAST_STOP), color: s[i].color });
        i += 1;
        assert(v@ =~= moved_stops(s@, shifts@).take(i as int));
    }
    assert(v@ =~= moved_stops(s@, shifts@));
    v
}

fn recolor(s: &Vec<Stop>, colors: &Vec<Ink>) -> (v: Vec<Stop>)
    requires
        s@.len() == colors@.len(),
    ensures
        v@ == recolored(s@, colors@),
{
    let mut v: Vec<Stop> = Vec::new();
    let mut i: usize = 0;
    while i < s.len()
        invariant
            i <= s@.len() == colors@.len(),
            v@ == recolored(s@, colors@).take(i as int),
        decreases s@.len() - i,
    {
        v.push(Stop { at: s[i].at, color: colors[i] });
        i += 1;
        assert(v@ =~= recolored(s@, colors@).take(i as int));
    }
    assert(v@ =~= recolored(s@, colors@));
    v
}

fn copy_inks(e: &Vec<Ink>) -> (v: Vec<Ink>)
    ensures
        v@ == e@,
{
    let mut v: Vec<Ink> = Vec::new();
    let mut i: usize = 0;
    while i < e.len()
        invariant
            i <= e@.len(),
            v@ == e@.take(i as int),
        decreases e@.len() - i,
    {
        v.push(e[i]);
        i += 1;
        assert(v@ =~= e@.take(i as int));
    }
    assert(v@ =~= e@);
    v
}

fn turn_hues(body: &Body, colors: &Vec<Ink>, gain: i64) -> (b: Body)
    requires
        match body@ {
            BodyModel::Stops(s) => colors@.len() == s.len(),
            BodyModel::Entries(e) => true,
            BodyModel::Cosine(c) => can_move(c.d),
        },
    ensures
        b@ == with_hues(body@, colors@, gain as int),
{
    match body {
        Body::Stops(s) => Body::Stops(recolor(s, colors)),
        Body::Entries(_) => Body::Entries(copy_inks(colors)),
        Body::Cosine(c) => {
            let half: i64 = num::clamp(gain, -500_000_000, 500_000_000);
            let (by, _) = num::floor_divide(half, 4);
            assert(by == phase_shift(gain as int));
            Body::Cosine(
                Cosine {
                    a: c.a,
                    b: c.b,
                    c: c.c,
                    d: move_by(c.d, Point { x: by, y: by, z: by }),
                },
            )
        },
    }
}

/// Change a palette, and say how. `colors` are its colours with the hues
/// turned and `gain` is what turning them gains its formula's bias in
/// brightness, for a change of hue.
pub fn perturb(p: &mut Palette, c: &Change, colors: &Vec<Ink>, gain: i64) -> (s: String)
    requires
        applies(old(p)@, c@, colors@),
    ensures
        final(p)@ == changed(old(p)@, c@, colors@, gain as int),
        s@ == change_text(c@),
{
    match c {
        Change::Hue { degrees } => {
            let body = turn_hues(&p.body, colors, gain);
            p.body = body;
            p.name = None;
        },
        Change::Rotate { by } => {
            let (_, r) = num::floor_divide(p.rotate + *by, UNIT as i64);
            p.rotate = r;
        },
        Change::Reverse => {
            p.reverse = !p.reverse;
        },
        Change::Stops { by, shifts } => {
            let next = match &p.body {
                Body::Stops(s) => Some(super::sort(&move_stops(s, shifts))),
                _ => None,
            };
            if let Some(v) = next {
                p.body = Body::Stops(v);
            }
        },
        Change::Phase { by, shift } => {
            let next = match &p.body {
                Body::Cosine(k) => Some(
                    Cosine { a: k.a, b: k.b, c: k.c, d: move_by(k.d, *shift) },
                ),
                _ => None,
            };
            if let Some(k) = next {
                p.body = Body::Cosine(k);
            }
        },
    }
    c.describe()
}

/// Any change there is can be made to a palette of middling numbers.
pub proof fn a_rolled_change_applies(p: PaletteModel, c: ChangeModel, colors: Seq<Ink>, strength: int)
    requires
        WEAKEST <= strength <= STRONGEST,
        possible(c, p.body, strength),
        p.body matches BodyModel::Cosine(k) ==> can_move(k.d),
        p.body matches BodyModel::Stops(s) ==> colors.len() == s.len() && forall|i: int|
            0 <= i < s.len() ==> -FAR <= (#[trigger] s[i]).at <= FAR,
        p.body matches BodyModel::Entries(e) ==> colors.len() == e.len(),
        -FAR <= p.rotate <= FAR,
    ensures
        applies(p, c, colors),
{
    match c {
        ChangeModel::Rotate(by) => {
            if rolled(by, -250_000_000, 250_000_000, strength) {
                rolls_are_small(by, -250_000_000, 250_000_000, strength);
            } else {
                rolls_are_small(by, 20_000_000, 100_000_000, strength);
            }
        },
        ChangeModel::Stops(by, shifts) => {
            rolls_are_small(by, 20_000_000, 100_000_000, strength);
            assert forall|i: int| 0 <= i < shifts.len() implies -FAR <= (#[trigger] shifts[i])
                <= FAR by {
                assert(near_zero(shifts[i] as int, by));
            }
        },
        ChangeModel::Phase(by, shift) => {
            rolls_are_small(by, 20_000_000, 100_000_000, strength);
        },
        _ => {},
    }
}

proof fn rolls_are_small(v: int, low: int, high: int, strength: int)
    requires
        rolled(v, low, high, strength),
        -60_000_000_000 <= low,
        high <= 60_000_000_000,
        0 <= strength <= STRONGEST,
    ensures
        -FAR < v < FAR,
{
    let r = choose|r: int| low <= r < high && v == #[trigger] num::scaled(r, strength);
    assert(-60_000_000_000_000_000_000_000 <= r * strength <= 60_000_000_000_000_000_000_000)
        by (nonlinear_arith)
        requires
            -60_000_000_000 <= r <= 60_000_000_000,
            0 <= strength <= 1_000_000_000_000,
    ;
}

/// A change keeps the form of a palette and how many colours it has, and
/// leaves how it is read alone; stops that were in order are in order.
pub proof fn a_change_keeps_the_form(p: PaletteModel, c: ChangeModel, colors: Seq<Ink>, gain: int)
    requires
        applies(p, c, colors),
    ensures
        ({
            let q = changed(p, c, colors, gain);
            &&& q.cyclic == p.cyclic && q.interpolate == p.interpolate
            &&& match (p.body, q.body) {
                (BodyModel::Stops(s), BodyModel::Stops(t)) => {
                    &&& t.len() == s.len()
                    &&& super::in_order(s) ==> super::in_order(t)
                },
                (BodyModel::Entries(e), BodyModel::Entries(f)) => f.len() == e.len(),
                (BodyModel::Cosine(_), BodyModel::Cosine(_)) => true,
                _ => false,
            }
        }),
{
    match (p.body, c) {
        (BodyModel::Stops(s), ChangeModel::Stops(_, shifts)) => {
            super::sorting_orders(moved_stops(s, shifts));
        },
        (BodyModel::Stops(s), ChangeModel::Hue(_)) => {
            let t = recolored(s, colors);
            if super::in_order(s) {
                assert forall|i: int, j: int| 0 <= i <= j < t.len() implies t[i].at <= t[j].at by {
                    assert(s[i].at <= s[j].at);
                }
            }
        },
        _ => {},
    }
}

/// Turning a palette round twice leaves it as it was.
pub proof fn reversing_twice_changes_nothing(p: PaletteModel, colors: Seq<Ink>, gain: int)
    ensures
        changed(changed(p, ChangeModel::Reverse, colors, gain), ChangeModel::Reverse, colors, gain)
            == p,
{
}

// ---- what is rolled ---------------------------------------------------------

/// Of a hundred palettes 45 are formulas, 35 are harmonies and the rest are from
/// the library, to within a roll.
pub proof fn generators_come_in_their_shares(roll: int)
    requires
        0 <= roll < rng::ROLLS,
    ensures
        100 * (roll + 1) <= 45 * rng::ROLLS ==> chosen(roll) is Cosine,
        45 * rng::ROLLS <= 100 * (roll - 1) && 100 * (roll + 1) <= 80 * rng::ROLLS ==> chosen(
            roll,
        ) is Harmony,
        80 * rng::ROLLS <= 100 * (roll - 1) ==> chosen(roll) is Library,
{
}

/// A formula follows its rolls: the phases stand equally far apart, the bias and
/// the amplitude are those rolled with what is added to them in each channel, the
/// amplitude as far as the bias leaves room for it on either side, and four out
/// of five go through one cycle.
pub proof fn a_cosine_follows_its_rolls(r: CosineRolls)
    requires
        r.valid(),
    ensures
        ({
            let c = cosine_of(r);
            &&& c.d.y - c.d.x == r.spread && c.d.z - c.d.y == r.spread
            &&& 16_777_216 * c.d.x <= r.phase * 1_000_000_000 < 16_777_216 * (c.d.x + 1)
            &&& c.a.x == r.bias + r.bias_jitter.x && c.a.y == r.bias + r.bias_jitter.y && c.a.z
                == r.bias + r.bias_jitter.z
            &&& exists|amp: int|
                #![trigger is_room(r, amp)]
                is_room(r, amp) && c.b.x == amp + r.amplitude_jitter.x && c.b.y == amp
                    + r.amplitude_jitter.y && c.b.z == amp + r.amplitude_jitter.z
            &&& 10 * (r.frequency + 1) <= 8 * rng::ROLLS ==> c.c.x == 1_000_000_000
            &&& 10 * (r.frequency - 1) >= 8 * rng::ROLLS ==> c.c.x == 2_000_000_000
        }),
{
    every_cosine_is_seamless(r);
    assert(2 * UNIT == 2_000_000_000i64);
    let amp = smaller(smaller(r.amplitude as int, r.bias as int), UNIT - r.bias);
    assert(is_room(r, amp));
}

/// Whether an amplitude is the one rolled, or as much of it as there is room for.
pub open spec fn is_room(r: CosineRolls, amp: int) -> bool {
    &&& amp <= r.amplitude && amp <= r.bias && amp + r.bias <= 1_000_000_000
    &&& amp == r.amplitude || amp == r.bias || amp + r.bias == 1_000_000_000
}

/// A byte is the nearest there is to a channel's value.
pub proof fn a_byte_is_the_nearest(v: int)
    requires
        0 <= v <= UNIT,
    ensures
        0 <= byte(v) <= 255,
        -1_000_000_000 <= 2 * (byte(v) * 1_000_000_000 - 255 * v) <= 1_000_000_000,
{
}

/// In the first third of the wheel red gives way to green, in proportion; blue
/// stays out of it. Every third is like it, one channel on.
pub proof fn the_wheel_goes_from_channel_to_channel(h: int, c: int, m: int)
    requires
        0 <= c <= 2 * num::SCALABLE,
        -num::SCALABLE <= m <= num::SCALABLE,
    ensures
        ({
            let p = wheel(h, c, m);
            &&& 0 <= h < 60_000_000_000 ==> {
                &&& p.x == m + c && p.z == m
                &&& 60_000_000_000 * (p.y - m) <= c * h < 60_000_000_000 * (p.y - m + 1)
            }
            &&& 60_000_000_000 <= h < 120_000_000_000 ==> {
                &&& p.y == m + c && p.z == m
                &&& 60_000_000_000 * (p.x - m) <= c * (120_000_000_000 - h) < 60_000_000_000 * (p.x
                    - m + 1)
            }
        }),
        ({
            let (p, q) = (wheel(h, c, m), wheel(h + 120_000_000_000, c, m));
            q.x == p.z && q.y == p.x && q.z == p.y
        }),
        wheel(h + 360_000_000_000, c, m) == wheel(h, c, m),
{
    let d = h % 360_000_000_000;
    assert((h + 120_000_000_000) % 360_000_000_000 == if d < 240_000_000_000 {
        d + 120_000_000_000
    } else {
        d - 240_000_000_000
    });
    assert((h + 360_000_000_000) % 360_000_000_000 == d);
    let part = if h < 60_000_000_000 {
        h
    } else {
        120_000_000_000 - h
    };
    if 0 <= h < 120_000_000_000 {
        assert(0 <= c * part <= c * 60_000_000_000) by (nonlinear_arith)
            requires
                c >= 0,
                0 <= part <= 60_000_000_000,
        ;
        let x = c * part / 60_000_000_000;
        assert(0 <= x <= c);
    }
}

/// A colour's brightest channel is its value, and its darkest is less by the
/// saturation's share of it.
pub proof fn channels_keep_the_value_and_the_saturation(h: int, s: int, v: int)
    requires
        0 <= s <= UNIT,
        0 <= v <= UNIT,
    ensures
        ({
            let p = channels(h, s, v);
            &&& p.x <= v && p.y <= v && p.z <= v
            &&& p.x == v || p.y == v || p.z == v
            &&& exists|low: int|
                #![trigger is_darkest(p, low)]
                is_darkest(p, low) && 1_000_000_000 * (v - low) <= v * s < 1_000_000_000 * (v - low
                    + 1)
        }),
{
    let c = v * s / UNIT as int;
    assert(0 <= v * s <= v * UNIT) by (nonlinear_arith)
        requires
            0 <= v,
            0 <= s <= UNIT,
    ;
    assert(0 <= c <= v);
    let d = h % 360_000_000_000;
    let turn = d % 120_000_000_000;
    let part = smaller(turn, 120_000_000_000 - turn);
    assert(0 <= c * part <= c * 60_000_000_000) by (nonlinear_arith)
        requires
            c >= 0,
            0 <= part <= 60_000_000_000,
    ;
    let x = c * part / 60_000_000_000;
    assert(0 <= x <= c);
    assert(is_darkest(channels(h, s, v), v - c));
}

/// Whether a number is the smallest channel's.
pub open spec fn is_darkest(p: Point, low: int) -> bool {
    &&& low <= p.x && low <= p.y && low <= p.z
    &&& low == p.x || low == p.y || low == p.z
}

/// Up to the peak a climb is the share of the way there, and past it the share of
/// the way left to the end.
pub proof fn a_climb_is_even_on_both_sides(i: int, n: int, peak_at: int)
    requires
        0 <= i < n,
        0 < peak_at < UNIT,
    ensures
        ({
            let c = climb(i, n, peak_at);
            let (up, down) = (peak_at * n, (1_000_000_000 - peak_at) * n);
            &&& i * 1_000_000_000 < up ==> up * c <= i * 1_000_000_000 * 1_000_000_000 < up * (c
                + 1)
            &&& i * 1_000_000_000 >= up ==> down * c <= (n - i) * 1_000_000_000 * 1_000_000_000
                < down * (c + 1)
        }),
{
    let (up, down) = (peak_at * n, (UNIT - peak_at) * n);
    assert(up > 0 && down > 0) by (nonlinear_arith)
        requires
            0 < peak_at < UNIT,
            n > 0,
            up == peak_at * n,
            down == (UNIT - peak_at) * n,
    ;
    let (a, b) = (i * UNIT * UNIT, (n - i) * UNIT * UNIT);
    vstd::arithmetic::div_mod::lemma_fundamental_div_mod(a, up);
    vstd::arithmetic::div_mod::lemma_fundamental_div_mod(b, down);
    vstd::arithmetic::div_mod::lemma_mod_bound(a, up);
    vstd::arithmetic::div_mod::lemma_mod_bound(b, down);
    let (q, r) = (a / up, b / down);
    assert(up * (q + 1) == up * q + up) by (nonlinear_arith);
    assert(down * (r + 1) == down * r + down) by (nonlinear_arith);
}

/// The four schemes: neighbours 22 degrees apart; two neighbours and their
/// opposites; three that divide the circle; and one with the two beside its
/// opposite.
pub proof fn schemes_are_the_classical_ones(i: int)
    requires
        0 <= i,
    ensures
        i % 4 < 3 ==> offset(0, i + 1) - offset(0, i) == 22,
        offset(0, i + 4) == offset(0, i) && offset(1, i + 4) == offset(1, i),
        offset(2, i + 3) == offset(2, i) && offset(3, i + 3) == offset(3, i),
        i % 4 < 2 ==> offset(1, i + 2) - offset(1, i) == 180,
        i % 2 == 0 ==> offset(1, i + 1) - offset(1, i) == 30,
        (offset(2, i + 1) - offset(2, i)) % 360 == 120,
        i % 3 == 1 ==> 180 - offset(3, i) == 30 && offset(3, i + 1) - 180 == 30,
        i % 4 == 0 ==> offset(0, i) == 0 && offset(1, i) == 0,
        i % 3 == 0 ==> offset(2, i) == 0 && offset(3, i) == 0,
{
}

/// A harmony's stops divide the way evenly. Each has the base hue, its scheme's
/// degrees on and what is added to it, a value as high between the floor and the
/// peak as it stands, and a saturation as far down as it is lit.
pub proof fn a_harmony_divides_the_way(r: HarmonyRolls, heights: Seq<Height>, i: int)
    requires
        r.valid(),
        heights.len() == r.n,
        0 <= i < r.n,
        heights[i].valid(),
    ensures
        ({
            let s = harmony_stop(r, heights, i);
            let e = heights[i];
            &&& s.at * r.n <= i * 1_000_000_000 < s.at * r.n + r.n
            &&& exists|h: int, sat: int, v: int|
                #![trigger hsv(h, sat, v)]
                s.color == hsv(h, sat, v) && h - r.base - r.jitters@[i] == 1_000_000_000 * offset(
                    r.scheme as int,
                    i,
                ) && 1_000_000_000 * (v - r.floor) <= (r.peak - r.floor) * e.value < 1_000_000_000
                    * (v - r.floor + 1) && 1_000_000_000 * (r.sat_high - sat) <= (r.sat_high
                    - r.sat_low) * e.highlight < 1_000_000_000 * (r.sat_high - sat + 1)
        }),
        10 * (r.space + 1) <= 7 * rng::ROLLS ==> harmony_palette(r, heights).interpolate is Oklab,
        10 * (r.space - 1) >= 7 * rng::ROLLS ==> harmony_palette(r, heights).interpolate is Rgb,
{
    let n = r.n as int;
    let q = i * UNIT / n;
    assert(q * n <= i * UNIT < q * n + n && 0 <= q <= i * UNIT) by (nonlinear_arith)
        requires
            q == i * UNIT / n,
            n > 0,
            i >= 0,
    ;
    let e = heights[i];
    let hue = r.base + offset(r.scheme as int, i) * UNIT + r.jitters@[i];
    let (a, b) = ((r.peak - r.floor) * e.value, (r.sat_high - r.sat_low) * e.highlight);
    let v = r.floor + a / UNIT as int;
    let s = r.sat_high - b / UNIT as int;
    assert(harmony_stop(r, heights, i).color == hsv(hue, s, v));
}

/// A shift along a cyclic gradient moves every colour so much further along, and
/// nothing else changes.
pub proof fn a_shift_moves_every_colour_along(
    p: PaletteModel,
    by: int,
    t: int,
    colors: Seq<Ink>,
    gain: int,
)
    requires
        p.cyclic,
    ensures
        ({
            let q = changed(p, ChangeModel::Rotate(by), colors, gain);
            &&& super::read_at(q, t + by) == super::read_at(p, t)
            &&& 0 <= q.rotate < UNIT
            &&& q == (PaletteModel { rotate: q.rotate, ..p })
        }),
{
    let u = UNIT as int;
    let w = p.rotate + by;
    vstd::arithmetic::div_mod::lemma_fundamental_div_mod(w, u);
    let k = w / u;
    if p.reverse {
        assert((w % u) - (t + by) == (p.rotate - t) + (-k) * u) by (nonlinear_arith)
            requires
                w == u * k + w % u,
                w == p.rotate + by,
        ;
        vstd::arithmetic::div_mod::lemma_mod_multiples_vanish(-k, p.rotate - t, u);
        assert((-k) * u + (p.rotate - t) == u * (-k) + (p.rotate - t)) by (nonlinear_arith);
    } else {
        assert((t + by) - (w % u) == (t - p.rotate) + k * u) by (nonlinear_arith)
            requires
                w == u * k + w % u,
                w == p.rotate + by,
        ;
        vstd::arithmetic::div_mod::lemma_mod_multiples_vanish(k, t - p.rotate, u);
        assert(k * u + (t - p.rotate) == u * k + (t - p.rotate)) by (nonlinear_arith);
    }
}

/// Moved stops keep their colours: each goes by its own shift, held on the
/// gradient, and they are put in order again.
#[verifier::spinoff_prover]
#[verifier::rlimit(40)]
pub proof fn every_stop_goes_by_its_shift(
    p: PaletteModel,
    by: int,
    shifts: Seq<i64>,
    colors: Seq<Ink>,
    gain: int,
    i: int,
)
    requires
        p.body is Stops,
        p.body->Stops_0.len() == shifts.len(),
        0 <= i < shifts.len(),
    ensures
        ({
            let q = changed(p, ChangeModel::Stops(by, shifts), colors, gain);
            let (s, to) = (p.body->Stops_0, p.body->Stops_0[i].at + shifts[i]);
            &&& q == (PaletteModel { body: q.body, ..p })
            &&& q.body is Stops && super::in_order(q.body->Stops_0)
            &&& exists|k: int|
                #![trigger q.body->Stops_0[k]]
                0 <= k < s.len() && q.body->Stops_0[k].color == s[i].color && (0 <= to
                    <= 999_000_000 ==> q.body->Stops_0[k].at == to) && (to < 0
                    ==> q.body->Stops_0[k].at == 0) && (to > 999_000_000 ==> q.body->Stops_0[k].at
                    == 999_000_000)
        }),
{
    let m = moved_stops(p.body->Stops_0, shifts);
    super::stops_land_by_rank(m, i);
    let k = super::rank(m, i, m.len()) as int;
    assert(super::sorted(m)[k] == m[i]);
}

/// A formula's phases go each by its own shift, or all by a quarter of the gain
/// of a turned hue, and the rest of it stays.
pub proof fn phases_go_by_their_shift(
    p: PaletteModel,
    by: int,
    shift: Point,
    degrees: int,
    colors: Seq<Ink>,
    gain: int,
)
    requires
        p.body is Cosine,
        can_move(p.body->Cosine_0.d),
        can_move(shift),
        -500_000_000 <= gain <= 500_000_000,
    ensures
        ({
            let q = changed(p, ChangeModel::Phase(by, shift), colors, gain);
            let (c, e) = (p.body->Cosine_0, q.body->Cosine_0);
            &&& q == (PaletteModel { body: q.body, ..p }) && q.body is Cosine
            &&& e == (Cosine { d: e.d, ..c })
            &&& e.d.x - c.d.x == shift.x && e.d.y - c.d.y == shift.y && e.d.z - c.d.z == shift.z
        }),
        ({
            let q = changed(p, ChangeModel::Hue(degrees), colors, gain);
            let (c, e) = (p.body->Cosine_0, q.body->Cosine_0);
            let d = e.d.x - c.d.x;
            &&& q == (PaletteModel { name: None, body: q.body, ..p }) && q.body is Cosine
            &&& e == (Cosine { d: e.d, ..c })
            &&& 4 * d <= gain < 4 * d + 4
            &&& e.d.y - c.d.y == d && e.d.z - c.d.z == d
        }),
{
}

/// A turned hue gives every stop or entry its new colour where it stands.
pub proof fn turned_hues_stay_in_place(
    p: PaletteModel,
    degrees: int,
    colors: Seq<Ink>,
    gain: int,
    i: int,
)
    requires
        p.body is Stops || p.body is Entries,
        p.body is Stops ==> p.body->Stops_0.len() == colors.len(),
        0 <= i < colors.len(),
    ensures
        ({
            let q = changed(p, ChangeModel::Hue(degrees), colors, gain);
            &&& q == (PaletteModel { name: None, body: q.body, ..p })
            &&& p.body is Stops ==> q.body is Stops && q.body->Stops_0.len() == colors.len()
                && q.body->Stops_0[i].at == p.body->Stops_0[i].at && q.body->Stops_0[i].color
                == colors[i]
            &&& p.body is Entries ==> q.body is Entries && q.body->Entries_0 == colors
        }),
{
}

/// What a change is by is spread evenly over its reach: a sixth of a turn of hue
/// either way, a quarter of the gradient either way, or a jitter of two to ten
/// hundredths.
pub proof fn palette_changes_are_spread_over_their_reach(r: ChangeRolls, body: BodyModel)
    requires
        r.valid(body),
    ensures
        ({
            let k = (r.bits / 512) as int;
            match change_of(r, body, 1_000_000_000) {
                ChangeModel::Hue(d) => r.which == 0 && 8_388_608 * (d + 60_000_000_000) <= k
                    * 120_000_000_000 < 8_388_608 * (d + 60_000_000_001),
                ChangeModel::Rotate(d) => (r.which == 1 && 8_388_608 * (d + 250_000_000) <= k
                    * 500_000_000 < 8_388_608 * (d + 250_000_001)) || (r.which == 3
                    && body is Entries && 8_388_608 * (d - 20_000_000) <= k * 80_000_000 < 8_388_608
                    * (d - 19_999_999)),
                ChangeModel::Reverse => r.which == 2,
                ChangeModel::Stops(d, shifts) => r.which == 3 && body is Stops && 8_388_608 * (d
                    - 20_000_000) <= k * 80_000_000 < 8_388_608 * (d - 19_999_999) && shifts.len()
                    == r.each@.len(),
                ChangeModel::Phase(d, _) => r.which == 3 && body is Cosine && 8_388_608 * (d
                    - 20_000_000) <= k * 80_000_000 < 8_388_608 * (d - 19_999_999),
            }
        }),
{
    if r.which == 0 {
        let d = rng::chosen(r.bits, -60_000_000_000, 60_000_000_000);
        rng::a_choice_is_as_far_between_as_its_bits(r.bits, -60_000_000_000, 60_000_000_000);
        assert(num::scaled(d, 1_000_000_000) == d);
    } else if r.which == 1 {
        let d = rng::chosen(r.bits, -250_000_000, 250_000_000);
        rng::a_choice_is_as_far_between_as_its_bits(r.bits, -250_000_000, 250_000_000);
        assert(num::scaled(d, 1_000_000_000) == d);
    } else if r.which == 3 {
        let d = rng::chosen(r.bits, 20_000_000, 100_000_000);
        rng::a_choice_is_as_far_between_as_its_bits(r.bits, 20_000_000, 100_000_000);
        assert(num::scaled(d, 1_000_000_000) == d);
    }
}

/// Every shift is spread evenly as far either way as the jitter goes.
pub proof fn shifts_are_spread_either_way(each: Seq<u32>, by: int, i: int)
    requires
        0 < by <= 1_000_000_000_000_000_000,
        0 <= i < each.len(),
    ensures
        ({
            let s = shifts_of(each, by);
            &&& s.len() == each.len()
            &&& -by <= s[i] < by
            &&& 8_388_608 * (s[i] + by) <= (each[i] / 512) * (2 * by) < 8_388_608 * (s[i] + by + 1)
        }),
{
    rng::a_choice_is_as_far_between_as_its_bits(each[i], -by, by);
}

/// What a harmony is made from is spread evenly over its reaches: any hue, five to
/// seven stops, a floor near the bottom and a peak near the top, a saturation that
/// is low at the peak and high away from it, a peak past the middle, and hues moved
/// by up to eight degrees.
pub proof fn a_harmony_is_drawn_over_its_reaches(r: HarmonyRolls, d: HarmonyDraws, i: int)
    requires
        d.valid(),
        is_drawn(r, d),
        0 <= i < d.jitters@.len(),
    ensures
        r.n == 5 + d.more && r.scheme == d.scheme && r.space == d.space,
        is_even(r.base as int, d.base, 0, 360_000_000_000),
        is_even(r.floor as int, d.floor, 30_000_000, 120_000_000),
        is_even(r.peak as int, d.peak, 900_000_000, 1_000_000_000),
        is_even(r.sat_low as int, d.sat_low, 50_000_000, 250_000_000),
        is_even(r.sat_high as int, d.sat_high, 750_000_000, 1_000_000_000),
        is_even(r.peak_at as int, d.peak_at, 400_000_000, 720_000_000),
        r.jitters@.len() == r.n,
        is_even(r.jitters@[i] as int, d.jitters@[i], -8_000_000_000, 8_000_000_000),
{
    rng::a_choice_is_as_far_between_as_its_bits(d.base, 0, 360_000_000_000);
    rng::a_choice_is_as_far_between_as_its_bits(d.floor, 30_000_000, 120_000_000);
    rng::a_choice_is_as_far_between_as_its_bits(d.peak, 900_000_000, 1_000_000_000);
    rng::a_choice_is_as_far_between_as_its_bits(d.sat_low, 50_000_000, 250_000_000);
    rng::a_choice_is_as_far_between_as_its_bits(d.sat_high, 750_000_000, 1_000_000_000);
    rng::a_choice_is_as_far_between_as_its_bits(d.peak_at, 400_000_000, 720_000_000);
    rng::a_choice_is_as_far_between_as_its_bits(d.jitters@[i], -8_000_000_000, 8_000_000_000);
}

/// Whether a number lies as far from `low` to `high` as bits do from none to all.
pub open spec fn is_even(v: int, bits: u32, low: int, high: int) -> bool {
    &&& low <= v < high
    &&& 8_388_608 * (v - low) <= (bits / 512) * (high - low) < 8_388_608 * (v - low + 1)
}

/// The same rolls make the same change of a palette at any strength, and what it
/// is by is so many times what it is at a strength of one.
pub proof fn a_palette_change_is_as_strong_as_asked(
    r: ChangeRolls,
    body: BodyModel,
    strength: int,
)
    requires
        r.valid(body),
    ensures
        match (change_of(r, body, 1_000_000_000), change_of(r, body, strength)) {
            (ChangeModel::Hue(a), ChangeModel::Hue(b)) => num::is_product(b, a, strength),
            (ChangeModel::Rotate(a), ChangeModel::Rotate(b)) => num::is_product(b, a, strength),
            (ChangeModel::Reverse, ChangeModel::Reverse) => true,
            (ChangeModel::Stops(a, _), ChangeModel::Stops(b, s)) => num::is_product(b, a, strength)
                && s == shifts_of(r.each@, b),
            (ChangeModel::Phase(a, _), ChangeModel::Phase(b, p)) => num::is_product(b, a, strength)
                && p == (Point {
                x: shifts_of(r.each@, b)[0],
                y: shifts_of(r.each@, b)[1],
                z: shifts_of(r.each@, b)[2],
            }),
            _ => false,
        },
{
    let v = if r.which == 0 {
        rng::chosen(r.bits, -60_000_000_000, 60_000_000_000)
    } else if r.which == 1 {
        rng::chosen(r.bits, -250_000_000, 250_000_000)
    } else {
        rng::chosen(r.bits, 20_000_000, 100_000_000)
    };
    assert(num::scaled(v, 1_000_000_000) == v);
    num::scaling_multiplies(v, strength);
}

} // verus!
