//! Small random changes to a flame, for exploring from one to the next.
//!
//! A change is rolled, what only a formula can work out of it is worked out,
//! and then it is made: the maps, their names and their colours change in
//! step, and the change is told in words.

use crate::flame::{copy_map, copy_name, Flame, FlameModel, Map3, MapModel};
use crate::flame;
use crate::num;
use crate::offline::UNIT;
use crate::palette;
use crate::palette::random;
use crate::quantity;
use crate::quantity::Point;
use crate::rng;
use crate::text;
use rand_xoshiro::Xoshiro256PlusPlus;
use vstd::prelude::*;

verus! {

/// How many changes two rolls ask for: one, another for the first 55 in a
/// hundred of the first, and another for the first 25 of the second.
pub open spec fn change_count(first: int, second: int) -> nat {
    (1 + (if first < 9_227_469 {
        1int
    } else {
        0
    }) + (if second < 4_194_304 {
        1int
    } else {
        0
    })) as nat
}

/// How many changes two rolls ask for.
pub fn count_changes(first: u32, second: u32) -> (n: usize)
    ensures
        n == change_count(first as int, second as int),
        1 <= n <= 3,
{
    let mut n: usize = 1;
    if first < 9_227_469 {
        n += 1;
    }
    if second < 4_194_304 {
        n += 1;
    }
    n
}

/// How many changes to make, by rolls: one to three.
pub fn roll_count(rng: &mut Xoshiro256PlusPlus) -> (n: usize)
    ensures
        1 <= n <= 3,
        exists|a: int, b: int|
            0 <= a < rng::ROLLS && 0 <= b < rng::ROLLS && n == #[trigger] change_count(a, b),
{
    let first: u32 = rng::variant_roll(rng);
    let second: u32 = rng::variant_roll(rng);
    count_changes(first, second)
}

/// What a change does.
#[derive(Clone, Copy, Debug, PartialEq, Eq, Structural)]
pub enum Kind {
    Translate,
    Rotate,
    Scale,
    Weight,
    Variation,
    Hue,
    ColorValue,
    Duplicate,
    Delete,
}

/// The kind of change that a roll chooses for a flame of `n` maps. A flame
/// grows to eight maps and shrinks to two; where it can do neither, a map
/// moves.
pub open spec fn kind_of(roll: int, n: int) -> Kind {
    if roll < 3_019_899 {
        Kind::Translate
    } else if roll < 5_536_482 {
        Kind::Rotate
    } else if roll < 8_053_064 {
        Kind::Scale
    } else if roll < 10_066_330 {
        Kind::Weight
    } else if roll < 13_086_228 {
        Kind::Variation
    } else if roll < 14_596_178 {
        Kind::Hue
    } else if roll < 15_435_039 {
        Kind::ColorValue
    } else if roll < 16_273_900 && n < 8 {
        Kind::Duplicate
    } else if n > 2 {
        Kind::Delete
    } else {
        Kind::Translate
    }
}

/// The kind of change that a roll chooses for a flame of `n` maps.
pub fn choose_kind(roll: u32, n: usize) -> (k: Kind)
    ensures
        k == kind_of(roll as int, n as int),
{
    if roll < 3_019_899 {
        Kind::Translate
    } else if roll < 5_536_482 {
        Kind::Rotate
    } else if roll < 8_053_064 {
        Kind::Scale
    } else if roll < 10_066_330 {
        Kind::Weight
    } else if roll < 13_086_228 {
        Kind::Variation
    } else if roll < 14_596_178 {
        Kind::Hue
    } else if roll < 15_435_039 {
        Kind::ColorValue
    } else if roll < 16_273_900 && n < 8 {
        Kind::Duplicate
    } else if n > 2 {
        Kind::Delete
    } else {
        Kind::Translate
    }
}

/// A change to a flame.
#[derive(Clone, Copy, Debug, PartialEq, Eq, Structural)]
pub enum Change {
    /// Move a map.
    Translate { map: usize, step: Point },
    /// Turn a map about an axis through its origin.
    Rotate { map: usize, axis: Point, degrees: i64 },
    /// Scale a map by the exponential of a number.
    Scale { map: usize, log: i64 },
    /// Scale a map's weight by the exponential of a number.
    Weight { map: usize, log: i64 },
    /// Blend more of a variation in.
    Introduce { map: usize, slot: usize, weight: i64 },
    /// Change how much of a variation is in.
    Adjust { map: usize, slot: usize, by: i64 },
    /// Turn the hue of a map's colour.
    Hue { map: usize, degrees: i64 },
    /// Shift a map's place on the gradient.
    ColorValue { map: usize, by: i64 },
    /// Make a second map of one, moved a little.
    Duplicate { map: usize, step: Point },
    /// Take a map away.
    Delete { map: usize },
}

/// The map that a change is to.
pub open spec fn map_of(c: Change) -> int {
    match c {
        Change::Translate { map, .. } => map as int,
        Change::Rotate { map, .. } => map as int,
        Change::Scale { map, .. } => map as int,
        Change::Weight { map, .. } => map as int,
        Change::Introduce { map, .. } => map as int,
        Change::Adjust { map, .. } => map as int,
        Change::Hue { map, .. } => map as int,
        Change::ColorValue { map, .. } => map as int,
        Change::Duplicate { map, .. } => map as int,
        Change::Delete { map } => map as int,
    }
}

// ---- rolling ---------------------------------------------------------------

/// The square of a length.
pub open spec fn squared(p: Point) -> int {
    p.x * p.x + p.y * p.y + p.z * p.z
}

/// Whether a direction is neither too short to tell nor past the unit ball.
pub open spec fn is_direction(p: Point) -> bool {
    1_000_000 * 1_000_000 < squared(p) <= UNIT * UNIT
}

/// A point within the cube that directions are rolled in.
pub open spec fn in_cube(p: Point) -> bool {
    -UNIT <= p.x < UNIT && -UNIT <= p.y < UNIT && -UNIT <= p.z < UNIT
}

/// A direction at length one: each number over the length, which is the whole
/// part of the root.
pub open spec fn unit_of(p: Point) -> Point {
    let len = num::root(squared(p) as nat) as int;
    Point {
        x: (p.x * UNIT / len) as i64,
        y: (p.y * UNIT / len) as i64,
        z: (p.z * UNIT / len) as i64,
    }
}

/// A component of a direction at length one.
fn over(v: i64, len: u64) -> (r: i64)
    requires
        -UNIT <= v <= UNIT,
        1_000_000 <= len <= UNIT,
    ensures
        r == v * UNIT / len as int,
        -1_000_000_000_000 <= r <= 1_000_000_000_000,
{
    let t: i64 = v * UNIT as i64;
    let (q, _) = num::floor_divide(t, len as i64);
    assert(-1_000_000_000_000 <= t as int / len as int <= 1_000_000_000_000) by (nonlinear_arith)
        requires
            -1_000_000_000_000_000_000 <= t <= 1_000_000_000_000_000_000,
            1_000_000 <= len,
    ;
    q
}

fn square_of(p: Point) -> (s: u64)
    requires
        in_cube(p),
    ensures
        s == squared(p),
{
    let x: i64 = p.x;
    let y: i64 = p.y;
    let z: i64 = p.z;
    assert(0 <= x * x <= UNIT * UNIT) by (nonlinear_arith)
        requires
            -UNIT <= x <= UNIT,
    ;
    assert(0 <= y * y <= UNIT * UNIT) by (nonlinear_arith)
        requires
            -UNIT <= y <= UNIT,
    ;
    assert(0 <= z * z <= UNIT * UNIT) by (nonlinear_arith)
        requires
            -UNIT <= z <= UNIT,
    ;
    (x * x + y * y + z * z) as u64
}

/// A root is at least as large as any number whose square is no larger.
proof fn root_reaches(n: nat, r: nat, k: nat)
    requires
        num::is_root(n, r),
        k * k <= n,
    ensures
        k <= r,
{
    if k > r {
        assert(k * k >= (r + 1) * (r + 1)) by (nonlinear_arith)
            requires
                k >= r + 1,
        ;
    }
}

fn unit(p: Point) -> (r: Point)
    requires
        in_cube(p),
        is_direction(p),
    ensures
        r == unit_of(p),
        -1_000_000_000_000 <= r.x <= 1_000_000_000_000,
        -1_000_000_000_000 <= r.y <= 1_000_000_000_000,
        -1_000_000_000_000 <= r.z <= 1_000_000_000_000,
{
    let s: u64 = square_of(p);
    let len: u64 = num::root_of(s as u128);
    proof {
        let r = num::root(s as nat);
        assert(num::is_root(s as nat, r));
        root_reaches(s as nat, r, 1_000_000);
        assert(r <= UNIT) by (nonlinear_arith)
            requires
                r * r <= s,
                s <= UNIT * UNIT,
        ;
    }
    Point { x: over(p.x, len), y: over(p.y, len), z: over(p.z, len) }
}

/// A direction by rolls: points of the cube until one is in the ball and not
/// at its middle. Past four thousand million misses, which chance does not
/// come to, it is the first axis.
fn roll_direction(rng: &mut Xoshiro256PlusPlus) -> (p: Point)
    ensures
        in_cube(p),
        is_direction(p),
{
    let mut left: u32 = u32::MAX;
    while left > 0
        decreases left,
    {
        let x: i64 = rng::variant_between(rng, -1_000_000_000, 1_000_000_000);
        let y: i64 = rng::variant_between(rng, -1_000_000_000, 1_000_000_000);
        let z: i64 = rng::variant_between(rng, -1_000_000_000, 1_000_000_000);
        let p = Point { x, y, z };
        let s: u64 = square_of(p);
        if 1_000_000_000_000 < s && s <= 1_000_000_000_000_000_000 {
            return p;
        }
        left -= 1;
    }
    Point { x: 999_999_999, y: 0, z: 0 }
}

/// A direction at length one, scaled by two numbers.
pub open spec fn stretched(d: Point, by: int, strength: int) -> Point {
    let u = unit_of(d);
    Point {
        x: num::scaled(num::scaled(u.x as int, by), strength) as i64,
        y: num::scaled(num::scaled(u.y as int, by), strength) as i64,
        z: num::scaled(num::scaled(u.z as int, by), strength) as i64,
    }
}

/// Whether a strength is within what can be scaled by.
pub open spec fn strength_fits(strength: int) -> bool {
    -num::LARGEST_FACTOR <= strength <= num::LARGEST_FACTOR
}

fn stretch(d: Point, by: i64, strength: i64) -> (p: Point)
    requires
        in_cube(d),
        is_direction(d),
        0 <= by <= UNIT,
        strength_fits(strength as int),
    ensures
        p == stretched(d, by as int, strength as int),
        flame::point_fits(p),
{
    let u = unit(d);
    proof {
        scaled_stays_small(u.x as int, by as int, 1_000_000_000_000);
        scaled_stays_small(u.y as int, by as int, 1_000_000_000_000);
        scaled_stays_small(u.z as int, by as int, 1_000_000_000_000);
    }
    let x: i64 = num::scale(u.x, by);
    let y: i64 = num::scale(u.y, by);
    let z: i64 = num::scale(u.z, by);
    proof {
        scaled_is_bounded(x as int, strength as int);
        scaled_is_bounded(y as int, strength as int);
        scaled_is_bounded(z as int, strength as int);
    }
    Point { x: num::scale(x, strength), y: num::scale(y, strength), z: num::scale(z, strength) }
}

/// A share of a number is no larger than it.
proof fn scaled_stays_small(v: int, by: int, most: int)
    requires
        -most <= v <= most,
        0 <= by <= UNIT,
        most >= 0,
    ensures
        -most <= num::scaled(v, by) <= most,
{
    assert(-most * 1_000_000_000 <= v * by <= most * 1_000_000_000) by (nonlinear_arith)
        requires
            -most <= v <= most,
            0 <= by <= 1_000_000_000,
            most >= 0,
    ;
}

/// A thousand times a thousand is a million.
proof fn scaled_is_bounded(v: int, by: int)
    requires
        -1_000_000_000_000 <= v <= 1_000_000_000_000,
        strength_fits(by),
    ensures
        flame::number_fits(num::scaled(v, by)),
{
    assert(-1_000_000_000_000_000_000_000_000 <= v * by <= 1_000_000_000_000_000_000_000_000)
        by (nonlinear_arith)
        requires
            -1_000_000_000_000 <= v <= 1_000_000_000_000,
            -1_000_000_000_000 <= by <= 1_000_000_000_000,
    ;
}

/// Whether a number is a roll from `low` up to `high`, in proportion to a
/// strength.
pub open spec fn rolled(v: int, low: int, high: int, strength: int) -> bool {
    exists|r: int| low <= r < high && v == #[trigger] num::scaled(r, strength)
}

/// Whether a move is a direction at a length from `low` up to `high`, in
/// proportion to a strength.
pub open spec fn stepped(p: Point, low: int, high: int, strength: int) -> bool {
    exists|d: Point, by: int|
        in_cube(d) && is_direction(d) && low <= by < high && p == #[trigger] stretched(
            d,
            by,
            strength,
        )
}

/// The variations that a map has some of, in order, among the first `n`.
pub open spec fn present(v: Seq<i64>, n: nat) -> Seq<usize>
    decreases n,
{
    if n == 0 {
        Seq::empty()
    } else if v[n - 1] != 0 {
        present(v, (n - 1) as nat).push((n - 1) as usize)
    } else {
        present(v, (n - 1) as nat)
    }
}

/// The changes there are to a flame of `kinds` variations: each with the reach
/// of its kind. The straight variation is never introduced, and only one that
/// is there is adjusted.
pub open spec fn possible(c: Change, f: FlameModel, kinds: int, strength: int) -> bool {
    &&& 0 <= map_of(c) < f.maps.len()
    &&& match c {
        Change::Translate { step, .. } => stepped(step, 30_000_000, 180_000_000, strength) || (
        f.maps.len() <= 2 && stepped(step, 50_000_000, 50_000_001, strength)),
        Change::Rotate { axis, degrees, .. } => {
            &&& exists|d: Point| in_cube(d) && is_direction(d) && axis == #[trigger] unit_of(d)
            &&& rolled(degrees as int, 5_000_000_000, 30_000_000_000, strength)
        },
        Change::Scale { log, .. } => rolled(log as int, -250_000_000, 250_000_000, strength),
        Change::Weight { log, .. } => rolled(log as int, -500_000_000, 500_000_000, strength),
        Change::Introduce { slot, weight, .. } => {
            &&& 1 <= slot < kinds
            &&& rolled(weight as int, 80_000_000, 350_000_000, strength)
        },
        Change::Adjust { map, slot, by } => {
            &&& slot < kinds && f.maps[map as int].variations[slot as int] != 0
            &&& rolled(by as int, -150_000_000, 150_000_000, strength)
        },
        Change::Hue { degrees, .. } => rolled(
            degrees as int,
            -90_000_000_000,
            90_000_000_000,
            strength,
        ),
        Change::ColorValue { by, .. } => rolled(by as int, -200_000_000, 200_000_000, strength),
        Change::Duplicate { step, .. } => f.maps.len() < 8 && stepped(
            step,
            50_000_000,
            200_000_000,
            strength,
        ),
        Change::Delete { .. } => f.maps.len() > 2,
    }
}

/// The number that 32 bits choose from `low` on and below `high`, in
/// proportion to a strength.
pub open spec fn scaled_choice(bits: u32, low: int, high: int, strength: int) -> int {
    num::scaled(rng::chosen(bits, low, high), strength)
}

fn choose_scaled(bits: u32, low: i64, high: i64, strength: i64) -> (v: i64)
    requires
        -90_000_000_000 <= low < high <= 90_000_000_000,
        strength_fits(strength as int),
    ensures
        v == scaled_choice(bits, low as int, high as int, strength as int),
        rolled(v as int, low as int, high as int, strength as int),
        flame::number_fits(v as int),
{
    let r: i64 = rng::choose_between(bits, low, high);
    let v: i64 = num::scale(r, strength);
    assert(v == num::scaled(r as int, strength as int));
    proof {
        scaled_is_bounded(r as int, strength as int);
    }
    v
}

/// The step in a direction that 32 bits choose, from `low` long on and below
/// `high`, in proportion to a strength.
pub open spec fn chosen_step(d: Point, bits: u32, low: int, high: int, strength: int) -> Point {
    stretched(d, rng::chosen(bits, low, high), strength)
}

fn choose_step(d: Point, bits: u32, low: i64, high: i64, strength: i64) -> (p: Point)
    requires
        in_cube(d),
        is_direction(d),
        0 <= low < high <= UNIT,
        strength_fits(strength as int),
    ensures
        p == chosen_step(d, bits, low as int, high as int, strength as int),
        stepped(p, low as int, high as int, strength as int),
        flame::point_fits(p),
{
    let by: i64 = rng::choose_between(bits, low, high);
    let p = stretch(d, by, strength);
    assert(p == stretched(d, by as int, strength as int));
    p
}

fn present_slots(v: &Vec<i64>) -> (r: Vec<usize>)
    ensures
        r@ == present(v@, v@.len()),
        forall|k: int| 0 <= k < r@.len() ==> (#[trigger] r@[k]) < v@.len() && v@[r@[k] as int] != 0,
{
    let mut r: Vec<usize> = Vec::new();
    let mut i: usize = 0;
    assert(r@ =~= Seq::empty());
    while i < v.len()
        invariant
            i <= v@.len(),
            r@ == present(v@, i as nat),
            forall|k: int|
                0 <= k < r@.len() ==> (#[trigger] r@[k]) < v@.len() && v@[r@[k] as int] != 0,
        decreases v@.len() - i,
    {
        if v[i] != 0 {
            r.push(i);
        }
        i += 1;
    }
    r
}

/// Whether the numbers of a change can be added to what it changes.
pub open spec fn change_fits(c: Change) -> bool {
    match c {
        Change::Translate { step, .. } => flame::point_fits(step),
        Change::Introduce { weight, .. } => flame::number_fits(weight as int),
        Change::Adjust { by, .. } => flame::number_fits(by as int),
        Change::ColorValue { by, .. } => flame::number_fits(by as int),
        Change::Duplicate { step, .. } => flame::point_fits(step),
        _ => true,
    }
}

/// What a change is rolled from. What was not rolled, because nothing depends
/// on it, is any direction or zero.
#[derive(Clone, Copy, Debug, PartialEq, Eq, Structural)]
pub struct ChangeRolls {
    /// The map that it is made to.
    pub map: usize,
    /// Which kind of change it is.
    pub roll: u32,
    /// Which way a map moves, or what it turns about.
    pub direction: Point,
    /// How far, within the reach of its kind.
    pub bits: u32,
    /// Whether a variation is new to the map: four in ten are.
    pub fresh: u32,
    /// Which of the variations there are to choose from.
    pub which: usize,
}

/// Whether a change of variation introduces one: always where the map has
/// none, and for four shares in ten elsewhere.
pub open spec fn introduces(fresh: u32, existing: nat) -> bool {
    existing == 0 || fresh < 6_710_887
}

impl ChangeRolls {
    /// The rolls there are for a flame of `kinds` variations.
    pub open spec fn valid(self, f: FlameModel, kinds: nat) -> bool {
        &&& self.map < f.maps.len()
        &&& in_cube(self.direction) && is_direction(self.direction)
        &&& kind_of(self.roll as int, f.maps.len() as int) == Kind::Variation ==> {
            let v = f.maps[self.map as int].variations;
            if introduces(self.fresh, present(v, v.len()).len()) {
                self.which < kinds - 1
            } else {
                self.which < present(v, v.len()).len()
            }
        }
    }
}

/// The change that rolls make to a flame.
pub open spec fn change_of(r: ChangeRolls, f: FlameModel, strength: int) -> Change {
    let map = r.map;
    match kind_of(r.roll as int, f.maps.len() as int) {
        Kind::Translate => Change::Translate {
            map,
            step: if r.roll < 3_019_899 {
                chosen_step(r.direction, r.bits, 30_000_000, 180_000_000, strength)
            } else {
                stretched(r.direction, 50_000_000, strength)
            },
        },
        Kind::Rotate => Change::Rotate {
            map,
            axis: unit_of(r.direction),
            degrees: scaled_choice(r.bits, 5_000_000_000, 30_000_000_000, strength) as i64,
        },
        Kind::Scale => Change::Scale {
            map,
            log: scaled_choice(r.bits, -250_000_000, 250_000_000, strength) as i64,
        },
        Kind::Weight => Change::Weight {
            map,
            log: scaled_choice(r.bits, -500_000_000, 500_000_000, strength) as i64,
        },
        Kind::Variation => {
            let v = f.maps[map as int].variations;
            let existing = present(v, v.len());
            if introduces(r.fresh, existing.len()) {
                Change::Introduce {
                    map,
                    slot: (1 + r.which) as usize,
                    weight: scaled_choice(r.bits, 80_000_000, 350_000_000, strength) as i64,
                }
            } else {
                Change::Adjust {
                    map,
                    slot: existing[r.which as int],
                    by: scaled_choice(r.bits, -150_000_000, 150_000_000, strength) as i64,
                }
            }
        },
        Kind::Hue => Change::Hue {
            map,
            degrees: scaled_choice(r.bits, -90_000_000_000, 90_000_000_000, strength) as i64,
        },
        Kind::ColorValue => Change::ColorValue {
            map,
            by: scaled_choice(r.bits, -200_000_000, 200_000_000, strength) as i64,
        },
        Kind::Duplicate => Change::Duplicate {
            map,
            step: chosen_step(r.direction, r.bits, 50_000_000, 200_000_000, strength),
        },
        Kind::Delete => Change::Delete { map },
    }
}

fn variation_from(r: &ChangeRolls, f: &Flame, kinds: usize, strength: i64) -> (c: Change)
    requires
        f@.fits(kinds as nat),
        kinds >= 2,
        strength_fits(strength as int),
        r.valid(f@, kinds as nat),
        kind_of(r.roll as int, f@.maps.len() as int) == Kind::Variation,
    ensures
        c == change_of(*r, f@, strength as int),
        possible(c, f@, kinds as int, strength as int),
        change_fits(c),
{
    let map: usize = r.map;
    assert(f@.maps[map as int].fits(kinds as nat));
    assert(f@.maps[map as int] == f.maps@[map as int]@);
    let existing = present_slots(&f.maps[map].variations);
    if existing.len() == 0 || r.fresh < 6_710_887 {
        let slot: usize = 1 + r.which;
        let weight: i64 = choose_scaled(r.bits, 80_000_000, 350_000_000, strength);
        Change::Introduce { map, slot, weight }
    } else {
        let slot: usize = existing[r.which];
        let by: i64 = choose_scaled(r.bits, -150_000_000, 150_000_000, strength);
        Change::Adjust { map, slot, by }
    }
}

/// The change that rolls make to a flame.
pub fn change_from(r: &ChangeRolls, f: &Flame, kinds: usize, strength: i64) -> (c: Change)
    requires
        f@.fits(kinds as nat),
        kinds >= 2,
        strength_fits(strength as int),
        r.valid(f@, kinds as nat),
    ensures
        c == change_of(*r, f@, strength as int),
        possible(c, f@, kinds as int, strength as int),
        change_fits(c),
{
    let n: usize = f.maps.len();
    assert(f@.maps.len() == n);
    let map: usize = r.map;
    match choose_kind(r.roll, n) {
        Kind::Translate => {
            if r.roll < 3_019_899 {
                let step = choose_step(r.direction, r.bits, 30_000_000, 180_000_000, strength);
                Change::Translate { map, step }
            } else {
                let step = stretch(r.direction, 50_000_000, strength);
                assert(stepped(step, 50_000_000, 50_000_001, strength as int)) by {
                    assert(step == stretched(r.direction, 50_000_000, strength as int));
                }
                Change::Translate { map, step }
            }
        },
        Kind::Rotate => {
            let axis = unit(r.direction);
            assert(axis == unit_of(r.direction));
            let degrees: i64 = choose_scaled(r.bits, 5_000_000_000, 30_000_000_000, strength);
            Change::Rotate { map, axis, degrees }
        },
        Kind::Scale => {
            let log: i64 = choose_scaled(r.bits, -250_000_000, 250_000_000, strength);
            Change::Scale { map, log }
        },
        Kind::Weight => {
            let log: i64 = choose_scaled(r.bits, -500_000_000, 500_000_000, strength);
            Change::Weight { map, log }
        },
        Kind::Variation => variation_from(r, f, kinds, strength),
        Kind::Hue => {
            let degrees: i64 = choose_scaled(r.bits, -90_000_000_000, 90_000_000_000, strength);
            Change::Hue { map, degrees }
        },
        Kind::ColorValue => {
            let by: i64 = choose_scaled(r.bits, -200_000_000, 200_000_000, strength);
            Change::ColorValue { map, by }
        },
        Kind::Duplicate => {
            let step = choose_step(r.direction, r.bits, 50_000_000, 200_000_000, strength);
            Change::Duplicate { map, step }
        },
        Kind::Delete => Change::Delete { map },
    }
}

/// The rolls for a change to a flame: which map, which kind, and what a change
/// of that kind depends on.
fn roll_rolls(f: &Flame, rng: &mut Xoshiro256PlusPlus, kinds: usize) -> (r: ChangeRolls)
    requires
        f@.fits(kinds as nat),
        f@.maps.len() > 0,
        kinds >= 2,
    ensures
        r.valid(f@, kinds as nat),
        r.roll < rng::ROLLS,
{
    let n: usize = f.maps.len();
    assert(f@.maps.len() == n);
    let map: usize = rng::variant_below(rng, n);
    let roll: u32 = rng::variant_roll(rng);
    let mut r = ChangeRolls {
        map,
        roll,
        direction: Point { x: 999_999_999, y: 0, z: 0 },
        bits: 0,
        fresh: 0,
        which: 0,
    };
    assert(is_direction(r.direction));
    match choose_kind(roll, n) {
        Kind::Translate => {
            r.direction = roll_direction(rng);
            if roll < 3_019_899 {
                r.bits = rng::variant_next(rng);
            }
        },
        Kind::Rotate => {
            r.direction = roll_direction(rng);
            r.bits = rng::variant_next(rng);
        },
        Kind::Duplicate => {
            r.direction = roll_direction(rng);
            r.bits = rng::variant_next(rng);
        },
        Kind::Variation => {
            assert(f@.maps[map as int] == f.maps@[map as int]@);
            let existing = present_slots(&f.maps[map].variations);
            if existing.len() > 0 {
                r.fresh = rng::variant_roll(rng);
            }
            if existing.len() == 0 || r.fresh < 6_710_887 {
                r.which = rng::variant_below(rng, kinds - 1);
            } else {
                r.which = rng::variant_below(rng, existing.len());
            }
            r.bits = rng::variant_next(rng);
        },
        Kind::Delete => {},
        _ => {
            r.bits = rng::variant_next(rng);
        },
    }
    r
}

/// A change to a flame, by rolls; none where it has no maps. It is the one
/// that the rolls make, and of the kind that they choose.
pub fn roll_change(
    f: &Flame,
    rng: &mut Xoshiro256PlusPlus,
    kinds: usize,
    strength: i64,
) -> (c: Option<Change>)
    requires
        f@.fits(kinds as nat),
        kinds >= 2,
        strength_fits(strength as int),
    ensures
        c is None <==> f@.maps.len() == 0,
        c matches Some(c) ==> {
            &&& possible(c, f@, kinds as int, strength as int)
            &&& change_fits(c)
            &&& exists|r: ChangeRolls|
                r.valid(f@, kinds as nat) && r.roll < rng::ROLLS && c == #[trigger] change_of(
                    r,
                    f@,
                    strength as int,
                )
        },
{
    if f.maps.len() == 0 {
        return None;
    }
    let r = roll_rolls(f, rng, kinds);
    Some(change_from(&r, f, kinds, strength))
}

// ---- making a change -------------------------------------------------------

/// What only a formula can work out of a change: the exponential of a scale or
/// a weight, and the turned axes of a rotation.
#[derive(Clone, Copy, Debug, PartialEq, Eq, Structural)]
pub struct Outcome {
    pub factor: i64,
    pub x_axis: Point,
    pub y_axis: Point,
    pub z_axis: Point,
}

/// The largest of three numbers.
pub open spec fn largest(p: Point) -> int {
    if p.x >= p.y && p.x >= p.z {
        p.x as int
    } else if p.y >= p.z {
        p.y as int
    } else {
        p.z as int
    }
}

/// The smallest of three numbers.
pub open spec fn smallest(p: Point) -> int {
    if p.x <= p.y && p.x <= p.z {
        p.x as int
    } else if p.y <= p.z {
        p.y as int
    } else {
        p.z as int
    }
}

/// Less than a millionth.
pub const NEXT_TO_NOTHING: i64 = 1_000;

/// The hue of a colour, in degrees round from red: none of its own for a grey.
pub open spec fn hue(c: Point) -> int {
    let spread = largest(c) - smallest(c);
    if spread < NEXT_TO_NOTHING {
        0
    } else if largest(c) == c.x {
        60_000_000_000 * (c.y - c.z) / spread
    } else if largest(c) == c.y {
        60_000_000_000 * (c.z - c.x) / spread + 120_000_000_000
    } else {
        60_000_000_000 * (c.x - c.y) / spread + 240_000_000_000
    }
}

/// How far a colour's channels stand apart: not at all for one that is black.
pub open spec fn strength_of(c: Point) -> int {
    if largest(c) < NEXT_TO_NOTHING {
        0
    } else {
        largest(c) - smallest(c)
    }
}

/// A colour with its hue turned by so many degrees.
pub open spec fn turned_hue(c: Point, degrees: int) -> Point {
    random::wheel(hue(c) + degrees, strength_of(c), largest(c) - strength_of(c))
}

/// A point, moved by another.
pub open spec fn moved(p: Point, by: Point) -> Point {
    Point { x: (p.x + by.x) as i64, y: (p.y + by.y) as i64, z: (p.z + by.z) as i64 }
}

/// A point, scaled.
pub open spec fn point_scaled(p: Point, by: int) -> Point {
    Point {
        x: num::scaled(p.x as int, by) as i64,
        y: num::scaled(p.y as int, by) as i64,
        z: num::scaled(p.z as int, by) as i64,
    }
}

/// A weight, scaled, and held between a hundredth and a hundred.
pub open spec fn weighed(w: int, by: int) -> int {
    num::clamped(num::scaled(w, by), 10_000_000, 100_000_000_000)
}

/// A blend after an adjustment: held within four either way, and gone where
/// next to nothing is left.
pub open spec fn adjusted(w: int, by: int) -> int {
    let v = num::clamped(w + by, -4_000_000_000, 4_000_000_000);
    if -30_000_000 < v < 30_000_000 {
        0
    } else {
        v
    }
}

/// A map after a change to it.
pub open spec fn changed_map(m: MapModel, c: Change, o: Outcome) -> MapModel {
    match c {
        Change::Translate { step, .. } => MapModel { translation: moved(m.translation, step), ..m },
        Change::Rotate { .. } => MapModel {
            x_axis: o.x_axis,
            y_axis: o.y_axis,
            z_axis: o.z_axis,
            ..m
        },
        Change::Scale { .. } => MapModel {
            x_axis: point_scaled(m.x_axis, o.factor as int),
            y_axis: point_scaled(m.y_axis, o.factor as int),
            z_axis: point_scaled(m.z_axis, o.factor as int),
            ..m
        },
        Change::Weight { .. } => MapModel { weight: weighed(m.weight, o.factor as int), ..m },
        Change::Introduce { slot, weight, .. } => MapModel {
            variations: m.variations.update(
                slot as int,
                (m.variations[slot as int] + weight) as i64,
            ),
            ..m
        },
        Change::Adjust { slot, by, .. } => MapModel {
            variations: m.variations.update(
                slot as int,
                adjusted(m.variations[slot as int] as int, by as int) as i64,
            ),
            ..m
        },
        Change::ColorValue { by, .. } => MapModel {
            color_value: (m.color_value + by) % (UNIT as int),
            ..m
        },
        _ => m,
    }
}

/// The name of a second map made of one.
pub open spec fn second_name(n: Option<Seq<char>>) -> Option<Seq<char>> {
    match n {
        Some(s) => Some(s + " mut"@),
        None => None,
    }
}

/// A flame after a change.
pub open spec fn changed(f: FlameModel, c: Change, o: Outcome) -> FlameModel {
    let i = map_of(c);
    match c {
        Change::Hue { degrees, .. } => FlameModel {
            colors: f.colors.update(i, turned_hue(f.colors[i], degrees as int)),
            ..f
        },
        Change::Duplicate { step, .. } => FlameModel {
            maps: f.maps.push(
                MapModel { translation: moved(f.maps[i].translation, step), ..f.maps[i] },
            ),
            names: f.names.push(second_name(f.names[i])),
            colors: f.colors.push(f.colors[i]),
        },
        Change::Delete { .. } => FlameModel {
            maps: f.maps.remove(i),
            names: f.names.remove(i),
            colors: f.colors.remove(i),
        },
        _ => FlameModel { maps: f.maps.update(i, changed_map(f.maps[i], c, o)), ..f },
    }
}

/// Three numbers with their signs, to two places.
pub open spec fn signed_triple(p: Point) -> Seq<char> {
    "("@ + random::with_sign(p.x as int, 2) + ","@ + random::with_sign(p.y as int, 2) + ","@
        + random::with_sign(p.z as int, 2) + ")"@
}

/// A map by its number.
pub open spec fn map_text(i: int) -> Seq<char> {
    "T"@ + text::decimal(i as nat)
}

/// A change to a variation in words.
pub open spec fn adjust_text(kind: Seq<char>, by: int, w: int) -> Seq<char> {
    if w == 0 {
        " -"@ + kind + " (removed)"@
    } else {
        " "@ + kind + " "@ + random::with_sign(by, 2) + " -> "@ + quantity::plain_text(w, 2)
    }
}

/// A change in words.
pub open spec fn change_text(f: FlameModel, c: Change, o: Outcome, kinds: Seq<Seq<char>>) -> Seq<char> {
    let i = map_of(c);
    match c {
        Change::Translate { step, .. } => map_text(i) + " translate "@ + signed_triple(step),
        Change::Rotate { axis, degrees, .. } => map_text(i) + " rotate "@ + quantity::plain_text(
            degrees as int,
            0,
        ) + "\u{b0} about "@ + signed_triple(axis),
        Change::Scale { .. } => map_text(i) + " scale \u{d7}"@ + quantity::plain_text(
            o.factor as int,
            2,
        ),
        Change::Weight { .. } => map_text(i) + " weight \u{d7}"@ + quantity::plain_text(
            o.factor as int,
            2,
        ),
        Change::Introduce { slot, weight, .. } => map_text(i) + " +"@ + kinds[slot as int] + " "@
            + quantity::plain_text(weight as int, 2),
        Change::Adjust { slot, by, .. } => map_text(i) + adjust_text(
            kinds[slot as int],
            by as int,
            adjusted(f.maps[i].variations[slot as int] as int, by as int),
        ),
        Change::Hue { degrees, .. } => map_text(i) + " hue "@ + random::with_sign(degrees as int, 0)
            + "\u{b0}"@,
        Change::ColorValue { by, .. } => map_text(i) + " color_value "@ + random::with_sign(
            by as int,
            2,
        ),
        Change::Duplicate { .. } => "duplicate "@ + map_text(i) + " -> "@ + map_text(
            f.maps.len() as int,
        ),
        Change::Delete { .. } => "delete "@ + map_text(i),
    }
}

/// Whether a change can be made to a flame.
pub open spec fn applies(f: FlameModel, c: Change, o: Outcome, kinds: nat) -> bool {
    &&& f.fits(kinds)
    &&& 0 <= map_of(c) < f.maps.len()
    &&& change_fits(c)
    &&& 0 <= o.factor <= num::LARGEST_FACTOR
    &&& match c {
        Change::Introduce { slot, .. } => slot < kinds,
        Change::Adjust { slot, .. } => slot < kinds,
        Change::Hue { map, .. } => flame::point_fits(f.colors[map as int]),
        _ => true,
    }
}

fn largest_of(p: Point) -> (n: i64)
    ensures
        n == largest(p),
{
    if p.x >= p.y && p.x >= p.z {
        p.x
    } else if p.y >= p.z {
        p.y
    } else {
        p.z
    }
}

fn smallest_of(p: Point) -> (n: i64)
    ensures
        n == smallest(p),
{
    if p.x <= p.y && p.x <= p.z {
        p.x
    } else if p.y <= p.z {
        p.y
    } else {
        p.z
    }
}

/// How far round a channel's lead over another takes the hue, in a sixth of
/// the wheel either way.
fn lead(a: i64, b: i64, spread: i64) -> (d: i64)
    requires
        0 < spread <= 2 * num::SCALABLE,
        -spread <= a - b <= spread,
        flame::number_fits(a as int),
        flame::number_fits(b as int),
    ensures
        d == 60_000_000_000 * (a - b) / spread as int,
        -60_000_000_000 <= d <= 60_000_000_000,
{
    let n: i128 = 60_000_000_000 * (a as i128 - b as i128);
    let s: i128 = spread as i128;
    let ghost q = n as int / s as int;
    assert(-60_000_000_000 <= q <= 60_000_000_000) by (nonlinear_arith)
        requires
            q == n as int / s as int,
            -60_000_000_000 * s <= n <= 60_000_000_000 * s,
            s > 0,
    ;
    if n >= 0 {
        (n / s) as i64
    } else {
        let up: i128 = (-n + s - 1) / s;
        assert(-up == q) by (nonlinear_arith)
            requires
                up == (-n + s - 1) / s as int,
                q == n as int / s as int,
                s > 0,
        ;
        (-up) as i64
    }
}

/// A colour with its hue turned, and its saturation and value as they were.
pub fn rotate_hue(c: Point, degrees: i64) -> (r: Point)
    requires
        flame::point_fits(c),
    ensures
        r == turned_hue(c, degrees as int),
{
    let top: i64 = largest_of(c);
    let spread: i64 = top - smallest_of(c);
    let h: i64 = if spread < NEXT_TO_NOTHING {
        0
    } else if top == c.x {
        lead(c.y, c.z, spread)
    } else if top == c.y {
        lead(c.z, c.x, spread) + 120_000_000_000
    } else {
        lead(c.x, c.y, spread) + 240_000_000_000
    };
    assert(h == hue(c));
    let strength: i64 = if top < NEXT_TO_NOTHING {
        0
    } else {
        spread
    };
    let (_, turn) = num::floor_divide(degrees, 360_000_000_000);
    proof {
        vstd::arithmetic::div_mod::lemma_add_mod_noop_right(
            h as int,
            degrees as int,
            360_000_000_000,
        );
    }
    assert((h + turn) % 360_000_000_000 == (h + degrees) % 360_000_000_000);
    random::wheel_at(h + turn, strength, top - strength)
}

fn move_by(p: Point, by: Point) -> (r: Point)
    requires
        flame::point_fits(p),
        flame::point_fits(by),
    ensures
        r == moved(p, by),
{
    Point { x: p.x + by.x, y: p.y + by.y, z: p.z + by.z }
}

fn scale_point(p: Point, by: i64) -> (r: Point)
    requires
        flame::point_fits(p),
        0 <= by <= num::LARGEST_FACTOR,
    ensures
        r == point_scaled(p, by as int),
{
    Point { x: num::scale(p.x, by), y: num::scale(p.y, by), z: num::scale(p.z, by) }
}

fn adjust(w: i64, by: i64) -> (r: i64)
    requires
        flame::number_fits(w as int),
        flame::number_fits(by as int),
    ensures
        r == adjusted(w as int, by as int),
{
    let v: i64 = num::clamp(w + by, -4_000_000_000, 4_000_000_000);
    if -30_000_000 < v && v < 30_000_000 {
        0
    } else {
        v
    }
}

fn change_map(m: &Map3, c: &Change, o: &Outcome, kinds: usize) -> (r: Map3)
    requires
        m@.fits(kinds as nat),
        change_fits(*c),
        0 <= o.factor <= num::LARGEST_FACTOR,
        match c {
            Change::Introduce { slot, .. } => *slot < kinds,
            Change::Adjust { slot, .. } => *slot < kinds,
            _ => true,
        },
    ensures
        r@ == changed_map(m@, *c, *o),
{
    let mut r = copy_map(m);
    match c {
        Change::Translate { map, step } => {
            r.translation = move_by(m.translation, *step);
        },
        Change::Rotate { .. } => {
            r.x_axis = o.x_axis;
            r.y_axis = o.y_axis;
            r.z_axis = o.z_axis;
        },
        Change::Scale { .. } => {
            r.x_axis = scale_point(m.x_axis, o.factor);
            r.y_axis = scale_point(m.y_axis, o.factor);
            r.z_axis = scale_point(m.z_axis, o.factor);
        },
        Change::Weight { .. } => {
            r.weight = num::clamp(num::scale(m.weight, o.factor), 10_000_000, 100_000_000_000);
        },
        Change::Introduce { map, slot, weight } => {
            assert(flame::number_fits(m@.variations[*slot as int] as int));
            let w: i64 = m.variations[*slot] + *weight;
            r.variations.set(*slot, w);
        },
        Change::Adjust { map, slot, by } => {
            assert(flame::number_fits(m@.variations[*slot as int] as int));
            let w: i64 = adjust(m.variations[*slot], *by);
            r.variations.set(*slot, w);
        },
        Change::ColorValue { map, by } => {
            let (_, v) = num::floor_divide(m.color_value + *by, UNIT as i64);
            r.color_value = v;
        },
        _ => {},
    }
    r
}

fn push_map(out: &mut String, i: usize)
    ensures
        final(out)@ == old(out)@ + map_text(i as int),
{
    let ghost before = out@;
    out.append("T");
    text::push_decimal(out, i as u128);
    assert(out@ =~= before + map_text(i as int));
}

fn push_triple(out: &mut String, p: Point)
    ensures
        final(out)@ == old(out)@ + signed_triple(p),
{
    let ghost before = out@;
    out.append("(");
    random::push_with_sign(out, p.x, 2);
    out.append(",");
    random::push_with_sign(out, p.y, 2);
    out.append(",");
    random::push_with_sign(out, p.z, 2);
    out.append(")");
    assert(out@ =~= before + signed_triple(p));
}

fn push_adjust(out: &mut String, kind: &str, by: i64, w: i64)
    ensures
        final(out)@ == old(out)@ + adjust_text(kind@, by as int, w as int),
{
    let ghost before = out@;
    if w == 0 {
        out.append(" -");
        out.append(kind);
        out.append(" (removed)");
    } else {
        out.append(" ");
        out.append(kind);
        out.append(" ");
        random::push_with_sign(out, by, 2);
        out.append(" -> ");
        quantity::push_plain(out, w, 2);
    }
    assert(out@ =~= before + adjust_text(kind@, by as int, w as int));
}

/// A change in words, with the names of the variations.
pub fn describe(f: &Flame, c: &Change, o: &Outcome, kinds: &Vec<String>) -> (s: String)
    requires
        applies(f@, *c, *o, kinds@.len()),
    ensures
        s@ == change_text(f@, *c, *o, text::views(kinds@)),
{
    let ghost names = text::views(kinds@);
    let mut s = String::new();
    match c {
        Change::Translate { map, step } => {
            push_map(&mut s, *map);
            s.append(" translate ");
            push_triple(&mut s, *step);
        },
        Change::Rotate { map, axis, degrees } => {
            push_map(&mut s, *map);
            s.append(" rotate ");
            quantity::push_plain(&mut s, *degrees, 0);
            s.append("\u{b0} about ");
            push_triple(&mut s, *axis);
        },
        Change::Scale { map, log } => {
            push_map(&mut s, *map);
            s.append(" scale \u{d7}");
            quantity::push_plain(&mut s, o.factor, 2);
        },
        Change::Weight { map, log } => {
            push_map(&mut s, *map);
            s.append(" weight \u{d7}");
            quantity::push_plain(&mut s, o.factor, 2);
        },
        Change::Introduce { map, slot, weight } => {
            assert(names[*slot as int] == kinds@[*slot as int]@);
            push_map(&mut s, *map);
            s.append(" +");
            s.append(kinds[*slot].as_str());
            s.append(" ");
            quantity::push_plain(&mut s, *weight, 2);
        },
        Change::Adjust { map, slot, by } => {
            assert(names[*slot as int] == kinds@[*slot as int]@);
            assert(f@.maps[*map as int].fits(kinds@.len()));
            assert(f@.maps[*map as int] == f.maps@[*map as int]@);
            assert(flame::number_fits(f@.maps[*map as int].variations[*slot as int] as int));
            let w: i64 = adjust(f.maps[*map].variations[*slot], *by);
            push_map(&mut s, *map);
            push_adjust(&mut s, kinds[*slot].as_str(), *by, w);
        },
        Change::Hue { map, degrees } => {
            push_map(&mut s, *map);
            s.append(" hue ");
            random::push_with_sign(&mut s, *degrees, 0);
            s.append("\u{b0}");
        },
        Change::ColorValue { map, by } => {
            push_map(&mut s, *map);
            s.append(" color_value ");
            random::push_with_sign(&mut s, *by, 2);
        },
        Change::Duplicate { map, step } => {
            s.append("duplicate ");
            push_map(&mut s, *map);
            s.append(" -> ");
            push_map(&mut s, f.maps.len());
        },
        Change::Delete { map } => {
            s.append("delete ");
            push_map(&mut s, *map);
        },
    }
    assert(s@ =~= change_text(f@, *c, *o, names));
    s
}

fn duplicate(f: &mut Flame, map: usize, step: Point, Ghost(kinds): Ghost<nat>)
    requires
        old(f)@.fits(kinds),
        map < old(f)@.maps.len(),
        flame::point_fits(step),
    ensures
        forall|o: Outcome| final(f)@ == #[trigger] changed(old(f)@, Change::Duplicate { map, step }, o),
{
    assert(f@.maps[map as int].fits(kinds));
    assert(f@.maps[map as int] == f.maps@[map as int]@);
    let ghost had = f@;
    let mut m = copy_map(&f.maps[map]);
    m.translation = move_by(m.translation, step);
    let mut name = copy_name(&f.names[map]);
    name = match name {
        Some(n) => {
            let mut n = n;
            n.append(" mut");
            Some(n)
        },
        None => None,
    };
    let ghost shown_map = m@;
    let ghost shown_name = palette::text_of(name);
    let color = f.colors[map];
    assert(shown_name == second_name(had.names[map as int]));
    f.maps.push(m);
    f.names.push(name);
    f.colors.push(color);
    assert(f@.maps =~= had.maps.push(shown_map));
    assert(f@.names =~= had.names.push(shown_name));
    assert(f@.colors =~= had.colors.push(had.colors[map as int]));
}

fn delete(f: &mut Flame, map: usize)
    requires
        old(f)@.in_step(),
        map < old(f)@.maps.len(),
    ensures
        forall|o: Outcome| final(f)@ == #[trigger] changed(old(f)@, Change::Delete { map }, o),
{
    let ghost had = f@;
    f.maps.remove(map);
    f.names.remove(map);
    f.colors.remove(map);
    assert(f@.maps =~= had.maps.remove(map as int));
    assert(f@.names =~= had.names.remove(map as int));
    assert(f@.colors =~= had.colors.remove(map as int));
}

fn index_of(c: &Change) -> (i: usize)
    ensures
        i == map_of(*c),
{
    match c {
        Change::Translate { map, .. } => *map,
        Change::Rotate { map, .. } => *map,
        Change::Scale { map, .. } => *map,
        Change::Weight { map, .. } => *map,
        Change::Introduce { map, .. } => *map,
        Change::Adjust { map, .. } => *map,
        Change::Hue { map, .. } => *map,
        Change::ColorValue { map, .. } => *map,
        Change::Duplicate { map, .. } => *map,
        Change::Delete { map } => *map,
    }
}

/// Make a change to a flame, and say what it is. `kinds` are the names of the
/// variations.
pub fn apply(f: &mut Flame, c: &Change, o: &Outcome, kinds: &Vec<String>) -> (s: String)
    requires
        applies(old(f)@, *c, *o, kinds@.len()),
    ensures
        final(f)@ == changed(old(f)@, *c, *o),
        s@ == change_text(old(f)@, *c, *o, text::views(kinds@)),
{
    let s = describe(f, c, o, kinds);
    let ghost had = f@;
    let i: usize = index_of(c);
    match c {
        Change::Hue { map, degrees } => {
            let color = rotate_hue(f.colors[i], *degrees);
            f.colors.set(i, color);
            assert(f@.colors =~= had.colors.update(i as int, color));
        },
        Change::Duplicate { map, step } => {
            duplicate(f, *map, *step, Ghost(kinds@.len()));
        },
        Change::Delete { map } => {
            delete(f, *map);
        },
        _ => {
            assert(f@.maps[i as int].fits(kinds@.len()));
            assert(f@.maps[i as int] == f.maps@[i as int]@);
            let m = change_map(&f.maps[i], c, o, kinds.len());
            let ghost shown = m@;
            f.maps.set(i, m);
            assert(f@.maps =~= had.maps.update(i as int, shown));
        },
    }
    s
}

// ---- what holds of every change --------------------------------------------

/// A rolled change leaves the maps, their names and their colours in step, and
/// never makes more than eight maps nor leaves fewer than two, of a flame that
/// had no more or no fewer.
pub proof fn a_change_keeps_step(f: FlameModel, c: Change, o: Outcome, kinds: int, strength: int)
    requires
        f.in_step(),
        possible(c, f, kinds, strength),
    ensures
        ({
            let g = changed(f, c, o);
            &&& g.in_step()
            &&& g.maps.len() >= 1
            &&& f.maps.len() >= 2 ==> g.maps.len() >= 2
            &&& f.maps.len() <= 8 ==> g.maps.len() <= 8
        }),
{
}

/// A change is to one map: what it does not add or take away stays as it was,
/// but for that map, its name and its colour.
pub proof fn a_change_is_to_one_map(f: FlameModel, c: Change, o: Outcome, i: int)
    requires
        f.in_step(),
        0 <= map_of(c) < f.maps.len(),
        0 <= i < f.maps.len(),
        i != map_of(c),
    ensures
        ({
            let g = changed(f, c, o);
            let j = if c is Delete && i > map_of(c) {
                i - 1
            } else {
                i
            };
            g.maps[j] == f.maps[i] && g.names[j] == f.names[i] && g.colors[j] == f.colors[i]
        }),
{
}

/// Turning a colour's hue keeps its value and its saturation: the largest and
/// the smallest of its channels. All but black has a saturation to keep.
pub proof fn turning_keeps_saturation_and_value(c: Point, degrees: int)
    requires
        flame::point_fits(c),
        largest(c) >= NEXT_TO_NOTHING || largest(c) == smallest(c),
    ensures
        largest(turned_hue(c, degrees)) == largest(c),
        smallest(turned_hue(c, degrees)) == smallest(c),
{
    let s = strength_of(c);
    let h = (hue(c) + degrees) % 360_000_000_000;
    let turn = h % 120_000_000_000;
    let part = random::smaller(turn, 120_000_000_000 - turn);
    assert(0 <= s * part / 60_000_000_000 <= s) by (nonlinear_arith)
        requires
            0 <= part <= 60_000_000_000,
            0 <= s,
    ;
}

/// A weight that is changed stays above zero and no more than a hundred, and a
/// blend that is adjusted stays within four and is nothing or worth having.
pub proof fn changed_numbers_stay_in_range(m: MapModel, c: Change, o: Outcome)
    requires
        match c {
            Change::Adjust { slot, .. } => slot < m.variations.len(),
            _ => true,
        },
    ensures
        c is Weight ==> 10_000_000 <= changed_map(m, c, o).weight <= 100_000_000_000,
        c is ColorValue ==> 0 <= changed_map(m, c, o).color_value < UNIT,
        c matches Change::Adjust { slot, .. } ==> {
            let w = changed_map(m, c, o).variations[slot as int];
            -4_000_000_000 <= w <= 4_000_000_000 && (w == 0 || w >= 30_000_000 || w <= -30_000_000)
        },
{
}

// ---- what each change is ---------------------------------------------------

/// Whether three numbers are three others times a factor.
pub open spec fn is_multiple(r: Point, p: Point, factor: int) -> bool {
    &&& num::is_product(r.x as int, p.x as int, factor)
    &&& num::is_product(r.y as int, p.y as int, factor)
    &&& num::is_product(r.z as int, p.z as int, factor)
}

/// Whether a map was moved by a step and is otherwise as it was.
pub open spec fn is_moved(n: MapModel, m: MapModel, step: Point) -> bool {
    &&& n.translation.x == m.translation.x + step.x
    &&& n.translation.y == m.translation.y + step.y
    &&& n.translation.z == m.translation.z + step.z
    &&& n.x_axis == m.x_axis && n.y_axis == m.y_axis && n.z_axis == m.z_axis
    &&& n.weight == m.weight && n.color_value == m.color_value && n.variations == m.variations
}

proof fn points_scale(p: Point, factor: int)
    requires
        flame::point_fits(p),
        0 <= factor <= num::LARGEST_FACTOR,
    ensures
        is_multiple(point_scaled(p, factor), p, factor),
{
    num::scaling_multiplies(p.x as int, factor);
    num::scaling_multiplies(p.y as int, factor);
    num::scaling_multiplies(p.z as int, factor);
    num::scaling_stays_in_range(p.x as int, factor);
    num::scaling_stays_in_range(p.y as int, factor);
    num::scaling_stays_in_range(p.z as int, factor);
}

/// A map is scaled along all three of its axes: each of their nine numbers is
/// multiplied by the factor, and nothing else of the flame changes.
pub proof fn a_scale_is_along_every_axis(f: FlameModel, map: usize, log: i64, o: Outcome, kinds: nat)
    requires
        applies(f, Change::Scale { map, log }, o, kinds),
    ensures
        ({
            let g = changed(f, Change::Scale { map, log }, o);
            let (m, n) = (f.maps[map as int], g.maps[map as int]);
            &&& is_multiple(n.x_axis, m.x_axis, o.factor as int)
            &&& is_multiple(n.y_axis, m.y_axis, o.factor as int)
            &&& is_multiple(n.z_axis, m.z_axis, o.factor as int)
            &&& n.translation == m.translation
            &&& n.weight == m.weight
            &&& n.color_value == m.color_value
            &&& n.variations == m.variations
            &&& g.names == f.names && g.colors == f.colors && g.maps.len() == f.maps.len()
        }),
{
    let m = f.maps[map as int];
    assert(m.fits(kinds));
    points_scale(m.x_axis, o.factor as int);
    points_scale(m.y_axis, o.factor as int);
    points_scale(m.z_axis, o.factor as int);
}

/// A map is moved by the step and is otherwise as it was.
pub proof fn a_move_is_by_its_step(f: FlameModel, map: usize, step: Point, o: Outcome, kinds: nat)
    requires
        applies(f, Change::Translate { map, step }, o, kinds),
    ensures
        ({
            let g = changed(f, Change::Translate { map, step }, o);
            &&& is_moved(g.maps[map as int], f.maps[map as int], step)
            &&& g.names == f.names && g.colors == f.colors && g.maps.len() == f.maps.len()
        }),
{
    assert(f.maps[map as int].fits(kinds));
}

/// A turn gives a map the axes that it is turned to and leaves it where it is.
pub proof fn a_turn_is_in_place(
    f: FlameModel,
    map: usize,
    axis: Point,
    degrees: i64,
    o: Outcome,
    kinds: nat,
)
    requires
        applies(f, Change::Rotate { map, axis, degrees }, o, kinds),
    ensures
        ({
            let g = changed(f, Change::Rotate { map, axis, degrees }, o);
            let (m, n) = (f.maps[map as int], g.maps[map as int]);
            &&& n.x_axis == o.x_axis && n.y_axis == o.y_axis && n.z_axis == o.z_axis
            &&& n.translation == m.translation
            &&& n.weight == m.weight && n.color_value == m.color_value && n.variations
                == m.variations
            &&& g.names == f.names && g.colors == f.colors && g.maps.len() == f.maps.len()
        }),
{
}

/// A weight is multiplied by the factor, between a hundredth and a hundred, and
/// nothing else changes.
pub proof fn a_weight_is_multiplied(f: FlameModel, map: usize, log: i64, o: Outcome, kinds: nat)
    requires
        applies(f, Change::Weight { map, log }, o, kinds),
    ensures
        ({
            let g = changed(f, Change::Weight { map, log }, o);
            let (m, n) = (f.maps[map as int], g.maps[map as int]);
            &&& UNIT <= 100 * n.weight && n.weight <= 100 * UNIT
            &&& num::is_product(n.weight, m.weight, o.factor as int) || (100 * n.weight == UNIT
                && m.weight * o.factor < n.weight * UNIT) || (n.weight == 100 * UNIT && m.weight
                * o.factor > n.weight * UNIT)
            &&& n.x_axis == m.x_axis && n.y_axis == m.y_axis && n.z_axis == m.z_axis
            &&& n.translation == m.translation
            &&& n.color_value == m.color_value && n.variations == m.variations
            &&& g.names == f.names && g.colors == f.colors && g.maps.len() == f.maps.len()
        }),
{
    let m = f.maps[map as int];
    num::scaling_multiplies(m.weight, o.factor as int);
}

/// A variation is blended in on top of what there is of it, and the others stay.
pub proof fn a_variation_is_added(
    f: FlameModel,
    map: usize,
    slot: usize,
    weight: i64,
    o: Outcome,
    kinds: nat,
)
    requires
        applies(f, Change::Introduce { map, slot, weight }, o, kinds),
    ensures
        ({
            let g = changed(f, Change::Introduce { map, slot, weight }, o);
            let (m, n) = (f.maps[map as int], g.maps[map as int]);
            &&& n.variations.len() == m.variations.len()
            &&& n.variations[slot as int] == m.variations[slot as int] + weight
            &&& forall|k: int|
                0 <= k < kinds && k != slot ==> #[trigger] n.variations[k] == m.variations[k]
            &&& n.x_axis == m.x_axis && n.y_axis == m.y_axis && n.z_axis == m.z_axis
            &&& n.translation == m.translation
            &&& n.weight == m.weight && n.color_value == m.color_value
            &&& g.names == f.names && g.colors == f.colors && g.maps.len() == f.maps.len()
        }),
{
    let m = f.maps[map as int];
    assert(m.fits(kinds));
    assert(flame::number_fits(m.variations[slot as int] as int));
}

/// How much of a variation there is changes by so much, within four either way,
/// and what is then under three hundredths is gone. The others stay.
pub proof fn a_variation_is_adjusted(
    f: FlameModel,
    map: usize,
    slot: usize,
    by: i64,
    o: Outcome,
    kinds: nat,
)
    requires
        applies(f, Change::Adjust { map, slot, by }, o, kinds),
    ensures
        ({
            let g = changed(f, Change::Adjust { map, slot, by }, o);
            let (m, n) = (f.maps[map as int], g.maps[map as int]);
            let sum = m.variations[slot as int] + by;
            let w = n.variations[slot as int];
            &&& n.variations.len() == m.variations.len()
            &&& sum > 4 * UNIT ==> w == 4 * UNIT
            &&& sum < -4 * UNIT ==> w == -4 * UNIT
            &&& -3 * UNIT < 100 * sum < 3 * UNIT ==> w == 0
            &&& 3 * UNIT <= 100 * sum && sum <= 4 * UNIT ==> w == sum
            &&& 100 * sum <= -3 * UNIT && -4 * UNIT <= sum ==> w == sum
            &&& forall|k: int|
                0 <= k < kinds && k != slot ==> #[trigger] n.variations[k] == m.variations[k]
            &&& n.x_axis == m.x_axis && n.y_axis == m.y_axis && n.z_axis == m.z_axis
            &&& n.translation == m.translation
            &&& n.weight == m.weight && n.color_value == m.color_value
            &&& g.names == f.names && g.colors == f.colors && g.maps.len() == f.maps.len()
        }),
{
    let m = f.maps[map as int];
    assert(m.fits(kinds));
    assert(flame::number_fits(m.variations[slot as int] as int));
}

/// A place on the gradient is shifted round the ring of it.
pub proof fn a_place_is_shifted_round(f: FlameModel, map: usize, by: i64, o: Outcome, kinds: nat)
    requires
        applies(f, Change::ColorValue { map, by }, o, kinds),
    ensures
        ({
            let g = changed(f, Change::ColorValue { map, by }, o);
            let (m, n) = (f.maps[map as int], g.maps[map as int]);
            &&& 0 <= n.color_value < UNIT
            &&& exists|turns: int| n.color_value == m.color_value + by + #[trigger] (turns * UNIT)
            &&& n.x_axis == m.x_axis && n.y_axis == m.y_axis && n.z_axis == m.z_axis
            &&& n.translation == m.translation
            &&& n.weight == m.weight && n.variations == m.variations
            &&& g.names == f.names && g.colors == f.colors && g.maps.len() == f.maps.len()
        }),
{
    let v = f.maps[map as int].color_value + by;
    let turns = -(v / UNIT as int);
    assert(v % (UNIT as int) == v + turns * UNIT);
}

/// A second map is the first one moved by the step, under the first one's name
/// and in its colour, and stands behind all that were there.
pub proof fn a_second_map_is_the_first_moved(
    f: FlameModel,
    map: usize,
    step: Point,
    o: Outcome,
    kinds: nat,
)
    requires
        applies(f, Change::Duplicate { map, step }, o, kinds),
    ensures
        ({
            let g = changed(f, Change::Duplicate { map, step }, o);
            let n = f.maps.len() as int;
            &&& g.maps.len() == n + 1 && g.names.len() == n + 1 && g.colors.len() == n + 1
            &&& is_moved(g.maps[n], f.maps[map as int], step)
            &&& g.colors[n] == f.colors[map as int]
            &&& f.names[map as int] is None ==> g.names[n] is None
            &&& f.names[map as int] matches Some(name) ==> g.names[n] == Some(name + " mut"@)
            &&& forall|i: int|
                0 <= i < n ==> #[trigger] g.maps[i] == f.maps[i] && g.names[i] == f.names[i]
                    && g.colors[i] == f.colors[i]
        }),
{
    assert(f.maps[map as int].fits(kinds));
}

/// A map that is taken away leaves the others in their order.
pub proof fn a_map_is_taken_away(f: FlameModel, map: usize, o: Outcome, kinds: nat)
    requires
        applies(f, Change::Delete { map }, o, kinds),
    ensures
        ({
            let g = changed(f, Change::Delete { map }, o);
            let n = f.maps.len() as int;
            &&& g.maps.len() == n - 1 && g.names.len() == n - 1 && g.colors.len() == n - 1
            &&& forall|i: int|
                0 <= i < n - 1 ==> {
                    let j = if i < map {
                        i
                    } else {
                        i + 1
                    };
                    &&& #[trigger] g.maps[i] == f.maps[j]
                    &&& g.names[i] == f.names[j]
                    &&& g.colors[i] == f.colors[j]
                }
        }),
{
}

/// A third of the way round the colour wheel takes every channel's light to the
/// next channel.
pub proof fn a_third_of_a_turn_passes_channels_on(c: Point, degrees: int)
    requires
        flame::point_fits(c),
    ensures
        ({
            let (a, b) = (turned_hue(c, degrees), turned_hue(c, degrees + 120_000_000_000));
            b.x == a.z && b.y == a.x && b.z == a.y
        }),
{
    let h = hue(c) + degrees;
    let d = h % 360_000_000_000;
    assert((h + 120_000_000_000) % 360_000_000_000 == if d < 240_000_000_000 {
        d + 120_000_000_000
    } else {
        d - 240_000_000_000
    });
}

/// A turn of no degrees leaves a colour as it is, to within a billionth of its
/// channels.
pub proof fn no_turn_keeps_a_colour(c: Point)
    requires
        flame::point_fits(c),
        1_000 <= largest(c) - smallest(c) <= UNIT,
        largest(c) >= 1_000,
    ensures
        ({
            let r = turned_hue(c, 0);
            &&& -2 <= r.x - c.x <= 2
            &&& -2 <= r.y - c.y <= 2
            &&& -2 <= r.z - c.z <= 2
        }),
{
    let (s, m) = (largest(c) - smallest(c), smallest(c));
    assert(strength_of(c) == s);
    if largest(c) == c.x {
        a_lead_comes_back(c.x as int, c.y as int, c.z as int, s, m);
    } else if largest(c) == c.y {
        a_lead_comes_back(c.y as int, c.z as int, c.x as int, s, m);
        let q = 60_000_000_000 * (c.z - c.x) / s;
        random::the_wheel_goes_from_channel_to_channel(q, s, m);
    } else {
        a_lead_comes_back(c.z as int, c.x as int, c.y as int, s, m);
        let q = 60_000_000_000 * (c.x - c.y) / s;
        random::the_wheel_goes_from_channel_to_channel(q, s, m);
        random::the_wheel_goes_from_channel_to_channel(q + 120_000_000_000, s, m);
    }
}

/// The wheel gives back the colour that leads in the first channel, to within a
/// billionth.
#[verifier::spinoff_prover]
proof fn a_lead_comes_back(first: int, second: int, third: int, s: int, m: int)
    requires
        1_000 <= s <= UNIT,
        -num::SCALABLE <= m <= num::SCALABLE,
        first == m + s,
        m <= second <= first,
        m <= third <= first,
        second == m || third == m,
    ensures
        ({
            let p = random::wheel(60_000_000_000 * (second - third) / s, s, m);
            &&& p.x == first
            &&& -1 <= p.y - second <= 1
            &&& -1 <= p.z - third <= 1
        }),
{
    let d = second - third;
    let q = 60_000_000_000 * d / s;
    a_lead_is_undone(d, s);
    random::the_wheel_goes_from_channel_to_channel(q, s, m);
    let p = random::wheel(q, s, m);
    if d >= 0 {
        assert(third == m);
        if q == 60_000_000_000 {
            let rest = 120_000_000_000 - q;
            assert(s * rest == 60_000_000_000 * s) by (nonlinear_arith)
                requires
                    rest == 60_000_000_000,
            ;
            assert(s * q == 60_000_000_000 * s) by (nonlinear_arith)
                requires
                    q == 60_000_000_000,
            ;
        } else {
            assert(s * q / 60_000_000_000 == p.y - m);
        }
    } else {
        assert(second == m);
        let h = q + 120_000_000_000;
        random::the_wheel_goes_from_channel_to_channel(h, s, m);
        let w = random::wheel(h, s, m);
        assert(120_000_000_000 - h == -q);
        assert(s * (-q) / 60_000_000_000 == w.x - m);
    }
}

/// How far round a lead takes a hue, taken back.
proof fn a_lead_is_undone(d: int, s: int)
    requires
        1_000 <= s <= UNIT,
        -s <= d <= s,
    ensures
        ({
            let q = 60_000_000_000 * d / s;
            &&& -60_000_000_000 <= q <= 60_000_000_000
            &&& d >= 0 ==> 0 <= q && d - 1 <= s * q / 60_000_000_000 <= d
            &&& d < 0 ==> q < 0 && -d <= s * (-q) / 60_000_000_000 <= -d + 1
            &&& d == -s ==> q == -60_000_000_000
            &&& d > -s ==> q > -60_000_000_000 || s * (-q) / 60_000_000_000 <= -d + 1
        }),
{
    let k = 60_000_000_000int;
    let q = k * d / s;
    assert(q * s <= k * d < q * s + s) by (nonlinear_arith)
        requires
            q == k * d / s,
            s > 0,
    ;
    assert(-k <= q <= k) by (nonlinear_arith)
        requires
            q * s <= k * d < q * s + s,
            -s <= d <= s,
            s > 0,
            k == 60_000_000_000,
    ;
    if d >= 0 {
        assert(0 <= q) by (nonlinear_arith)
            requires
                k * d < q * s + s,
                d >= 0,
                k > 0,
                s > 0,
        ;
        let p = s * q;
        assert(p == q * s) by (nonlinear_arith)
            requires
                p == s * q,
        ;
        assert(p <= k * d && k * d - s < p);
    } else {
        assert(q < 0) by (nonlinear_arith)
            requires
                q * s <= k * d,
                d < 0,
                k > 0,
                s > 0,
        ;
        let p = s * (-q);
        assert(p == -(q * s)) by (nonlinear_arith)
            requires
                p == s * (-q),
        ;
        assert(k * (-d) <= p < k * (-d) + s);
        if d == -s {
            assert(k * (-s) / s == -k) by (nonlinear_arith)
                requires
                    s > 0,
            ;
        }
    }
}

proof fn parts_of_a_strength(s: int, part: int)
    requires
        0 <= s <= 2 * num::SCALABLE,
        0 <= part <= 60_000_000_000,
    ensures
        0 <= s * part / 60_000_000_000 <= s,
{
    assert(0 <= s * part <= s * 60_000_000_000) by (nonlinear_arith)
        requires
            0 <= s,
            0 <= part <= 60_000_000_000,
    ;
}

/// A little of a turn is a little of a change: no channel changes by more than
/// the colour's spread for a sixth of the wheel.
pub proof fn a_turn_changes_a_colour_by_degrees(c: Point, from: int, to: int)
    requires
        flame::point_fits(c),
        from <= to <= from + 60_000_000_000,
        (hue(c) + from) % 60_000_000_000 <= (hue(c) + to) % 60_000_000_000,
        to < from + 60_000_000_000,
    ensures
        ({
            let (a, b) = (turned_hue(c, from), turned_hue(c, to));
            let most = strength_of(c) * (to - from) + 60_000_000_000;
            &&& -most <= 60_000_000_000 * (b.x - a.x) <= most
            &&& -most <= 60_000_000_000 * (b.y - a.y) <= most
            &&& -most <= 60_000_000_000 * (b.z - a.z) <= most
        }),
{
    let s = strength_of(c);
    wheels_change_by_degrees(hue(c) + from, hue(c) + to, s, largest(c) - s);
}

#[verifier::spinoff_prover]
proof fn wheels_change_by_degrees(from: int, to: int, s: int, m: int)
    requires
        0 <= s <= 2 * num::SCALABLE,
        -num::SCALABLE <= m <= num::SCALABLE,
        from <= to < from + 60_000_000_000,
        from % 60_000_000_000 <= to % 60_000_000_000,
    ensures
        ({
            let (a, b) = (random::wheel(from, s, m), random::wheel(to, s, m));
            let most = s * (to - from) + 60_000_000_000;
            &&& -most <= 60_000_000_000 * (b.x - a.x) <= most
            &&& -most <= 60_000_000_000 * (b.y - a.y) <= most
            &&& -most <= 60_000_000_000 * (b.z - a.z) <= most
        }),
{
    let d = to - from;
    let (h, g) = (from % 360_000_000_000, to % 360_000_000_000);
    assert(g == h + d);
    assert(g / 60_000_000_000 == h / 60_000_000_000);
    let (t, u) = (h % 120_000_000_000, g % 120_000_000_000);
    assert(u == t + d);
    let (p, q) = (
        random::smaller(t, 120_000_000_000 - t),
        random::smaller(u, 120_000_000_000 - u),
    );
    assert(q - p == d || p - q == d);
    parts_of_a_strength(s, p);
    parts_of_a_strength(s, q);
    let (x, y) = (s * p / 60_000_000_000, s * q / 60_000_000_000);
    let most = s * d + 60_000_000_000;
    assert(0 <= s * d) by (nonlinear_arith)
        requires
            0 <= s,
            0 <= d,
    ;
    assert(-most <= 60_000_000_000 * (y - x) <= most) by {
        let (v, w) = (s * p, s * q);
        assert(w - v == s * d || v - w == s * d) by (nonlinear_arith)
            requires
                v == s * p,
                w == s * q,
                q - p == d || p - q == d,
        ;
    }
    let (a, b) = (random::wheel(from, s, m), random::wheel(to, s, m));
    let sector = h / 60_000_000_000;
    assert(0 <= sector <= 5);
    if sector == 0 {
        assert(a.x == s + m && a.y == x + m && a.z == m);
        assert(b.x == s + m && b.y == y + m && b.z == m);
    } else if sector == 1 {
        assert(a.x == x + m && a.y == s + m && a.z == m);
        assert(b.x == y + m && b.y == s + m && b.z == m);
    } else if sector == 2 {
        assert(a.x == m && a.y == s + m && a.z == x + m);
        assert(b.x == m && b.y == s + m && b.z == y + m);
    } else if sector == 3 {
        assert(a.x == m && a.y == x + m && a.z == s + m);
        assert(b.x == m && b.y == y + m && b.z == s + m);
    } else if sector == 4 {
        assert(a.x == x + m && a.y == m && a.z == s + m);
        assert(b.x == y + m && b.y == m && b.z == s + m);
    } else {
        assert(a.x == s + m && a.y == m && a.z == x + m);
        assert(b.x == s + m && b.y == m && b.z == y + m);
    }
}

/// A direction is of length one and points where it is taken from: each of its
/// numbers is that one's share of the length.
pub proof fn a_unit_points_the_same_way(p: Point)
    requires
        in_cube(p),
        is_direction(p),
    ensures
        exists|len: int|
            #![trigger is_length(len, p)]
            len > 0 && is_length(len, p) && {
                let u = unit_of(p);
                &&& u.x * len <= p.x * UNIT < (u.x + 1) * len
                &&& u.y * len <= p.y * UNIT < (u.y + 1) * len
                &&& u.z * len <= p.z * UNIT < (u.z + 1) * len
            },
{
    let s = squared(p);
    num::root_is_whole_part(s as nat);
    let len = num::root(s as nat) as int;
    assert(is_length(len, p));
    assert(1_000_000 <= len <= 1_000_000_000) by (nonlinear_arith)
        requires
            len * len <= s < (len + 1) * (len + 1),
            1_000_000 * 1_000_000 < s <= 1_000_000_000 * 1_000_000_000,
            len >= 0,
    ;
    a_share_of_a_length(p.x as int, len);
    a_share_of_a_length(p.y as int, len);
    a_share_of_a_length(p.z as int, len);
}

/// Whether a whole number is the length of three, rounded down.
pub open spec fn is_length(len: int, p: Point) -> bool {
    len * len <= p.x * p.x + p.y * p.y + p.z * p.z < (len + 1) * (len + 1)
}

proof fn a_share_of_a_length(v: int, len: int)
    requires
        -UNIT <= v <= UNIT,
        1_000_000 <= len <= UNIT,
    ensures
        ({
            let q = v * UNIT / len;
            q * len <= v * UNIT < (q + 1) * len && -1_000_000_000_000 <= q <= 1_000_000_000_000
        }),
{
    let n = v * UNIT;
    let q = n / len;
    assert(q * len <= n < (q + 1) * len) by (nonlinear_arith)
        requires
            q == n / len,
            len > 0,
    ;
    assert(-1_000_000_000_000 <= q <= 1_000_000_000_000) by (nonlinear_arith)
        requires
            q * len <= n < (q + 1) * len,
            -1_000_000_000_000_000_000 <= n <= 1_000_000_000_000_000_000,
            len >= 1_000_000,
    ;
}

/// A step goes the way of its direction, so far as it is asked to and so many
/// times stronger, along all three axes.
pub proof fn a_step_goes_its_way(d: Point, by: int, strength: int)
    requires
        in_cube(d),
        is_direction(d),
        0 <= by <= UNIT,
        strength_fits(strength),
    ensures
        ({
            let (u, p) = (unit_of(d), stretched(d, by, strength));
            &&& goes(p.x as int, u.x as int, by, strength)
            &&& goes(p.y as int, u.y as int, by, strength)
            &&& goes(p.z as int, u.z as int, by, strength)
        }),
{
    a_unit_points_the_same_way(d);
    let s = squared(d);
    num::root_is_whole_part(s as nat);
    let len = num::root(s as nat) as int;
    assert(1_000_000 <= len <= 1_000_000_000) by (nonlinear_arith)
        requires
            len * len <= s < (len + 1) * (len + 1),
            1_000_000 * 1_000_000 < s <= 1_000_000_000 * 1_000_000_000,
            len >= 0,
    ;
    a_share_of_a_length(d.x as int, len);
    a_share_of_a_length(d.y as int, len);
    a_share_of_a_length(d.z as int, len);
    let u = unit_of(d);
    one_goes(u.x as int, by, strength);
    one_goes(u.y as int, by, strength);
    one_goes(u.z as int, by, strength);
}

/// Whether `v` is the product of three numbers, rounded down twice.
pub open spec fn goes(v: int, u: int, by: int, strength: int) -> bool {
    exists|w: int| #[trigger] num::is_product(w, u, by) && num::is_product(v, w, strength)
}

proof fn one_goes(u: int, by: int, strength: int)
    requires
        -1_000_000_000_000 <= u <= 1_000_000_000_000,
        0 <= by <= UNIT,
        strength_fits(strength),
    ensures
        goes(num::scaled(num::scaled(u, by), strength), u, by, strength),
        i64::MIN <= num::scaled(num::scaled(u, by), strength) <= i64::MAX,
{
    let w = num::scaled(u, by);
    num::scaling_multiplies(u, by);
    num::scaling_multiplies(w, strength);
    assert(num::is_product(w, u, by));
    assert(-1_000_000_000_000 <= w <= 1_000_000_000_000) by (nonlinear_arith)
        requires
            w * 1_000_000_000 <= u * by < w * 1_000_000_000 + 1_000_000_000,
            -1_000_000_000_000 <= u <= 1_000_000_000_000,
            0 <= by <= 1_000_000_000,
    ;
    num::scaling_stays_in_range(w, strength);
}

/// The present slots are those with something in them, each of them once and in
/// order.
pub proof fn present_slots_are_those_in_use(v: Seq<i64>, n: nat)
    requires
        n <= v.len() <= usize::MAX,
    ensures
        forall|k: int|
            0 <= k < present(v, n).len() ==> (#[trigger] present(v, n)[k]) < n && v[present(v, n)[k] as int]
                != 0,
        forall|k: int, l: int|
            0 <= k < l < present(v, n).len() ==> (#[trigger] present(v, n)[k]) < #[trigger] present(
                v,
                n,
            )[l],
        forall|i: int| 0 <= i < n && #[trigger] v[i] != 0 ==> present(v, n).contains(i as usize),
    decreases n,
{
    if n > 0 {
        let m = (n - 1) as nat;
        present_slots_are_those_in_use(v, m);
        let (a, b) = (present(v, m), present(v, n));
        assert forall|i: int| 0 <= i < n && #[trigger] v[i] != 0 implies b.contains(i as usize) by {
            if i < m {
                let k = choose|k: int| 0 <= k < a.len() && a[k] == i as usize;
                assert(b[k] == a[k]);
            } else {
                assert(b[a.len() as int] == i as usize);
            }
        }
    }
}

/// Of a hundred changes eighteen move a map, fifteen turn one, fifteen scale
/// one, twelve change a weight, eighteen a variation, nine a hue and five a
/// place on the gradient. Five make a second map where there are fewer than
/// eight, and the rest take one away where there are more than two.
pub proof fn kinds_come_in_their_shares(roll: int, n: int)
    requires
        0 <= roll < rng::ROLLS,
    ensures
        ({
            let (k, part) = (kind_of(roll, n), 100 * roll);
            let whole = rng::ROLLS as int;
            &&& part < 18 * whole ==> k == Kind::Translate
            &&& 18 * whole < part && part < 33 * whole ==> k == Kind::Rotate
            &&& 33 * whole < part && part < 48 * whole ==> k == Kind::Scale
            &&& 48 * whole < part && part < 60 * whole ==> k == Kind::Weight
            &&& 60 * whole < part && part < 78 * whole - 100 ==> k == Kind::Variation
            &&& 78 * whole < part && part < 87 * whole ==> k == Kind::Hue
            &&& 87 * whole < part && part < 92 * whole ==> k == Kind::ColorValue
            &&& 92 * whole < part && part < 97 * whole && n < 8 ==> k == Kind::Duplicate
            &&& 97 * whole < part && n > 2 ==> k == Kind::Delete
            &&& 92 * whole < part && n >= 8 ==> k == Kind::Delete
            &&& 97 * whole < part && n <= 2 ==> k == Kind::Translate
        }),
{
}

/// One change is made, a second for 55 rolls in a hundred and one more for a
/// quarter of them.
pub proof fn changes_come_in_their_shares(first: int, second: int)
    ensures
        change_count(first, second) == 1 + (if 100 * first < 55 * rng::ROLLS {
            1int
        } else {
            0
        }) + (if 4 * second < rng::ROLLS {
            1int
        } else {
            0
        }),
{
}

/// How far a change goes, at a strength of one, is spread evenly over the reach
/// of its kind: a turn is of five to thirty degrees, a scale and a weight go by
/// a quarter and by half of their logarithm, a variation comes in by eight to 35
/// hundredths and changes by up to fifteen, a hue turns by up to a right angle
/// and a place shifts by up to a fifth.
pub proof fn changes_are_spread_over_their_reach(r: ChangeRolls, f: FlameModel, kinds: nat)
    requires
        r.valid(f, kinds),
        kinds <= usize::MAX,
    ensures
        match change_of(r, f, UNIT as int) {
            Change::Rotate { map, degrees, .. } => map == r.map && is_spread(
                degrees as int,
                r.bits,
                5_000_000_000,
                30_000_000_000,
            ),
            Change::Scale { map, log } => map == r.map && is_spread(
                log as int,
                r.bits,
                -250_000_000,
                250_000_000,
            ),
            Change::Weight { map, log } => map == r.map && is_spread(
                log as int,
                r.bits,
                -500_000_000,
                500_000_000,
            ),
            Change::Introduce { map, slot, weight } => map == r.map && slot >= 1 && is_spread(
                weight as int,
                r.bits,
                80_000_000,
                350_000_000,
            ),
            Change::Adjust { map, by, .. } => map == r.map && is_spread(
                by as int,
                r.bits,
                -150_000_000,
                150_000_000,
            ),
            Change::Hue { map, degrees } => map == r.map && is_spread(
                degrees as int,
                r.bits,
                -90_000_000_000,
                90_000_000_000,
            ),
            Change::ColorValue { map, by } => map == r.map && is_spread(
                by as int,
                r.bits,
                -200_000_000,
                200_000_000,
            ),
            Change::Translate { map, step } => map == r.map && exists|by: int|
                #![trigger stretched(r.direction, by, UNIT as int)]
                step == stretched(r.direction, by, UNIT as int) && (is_spread(
                    by,
                    r.bits,
                    30_000_000,
                    180_000_000,
                ) || (by == 50_000_000 && f.maps.len() <= 2)),
            Change::Duplicate { map, step } => map == r.map && exists|by: int|
                #![trigger stretched(r.direction, by, UNIT as int)]
                step == stretched(r.direction, by, UNIT as int) && is_spread(
                    by,
                    r.bits,
                    50_000_000,
                    200_000_000,
                ),
            Change::Delete { map } => map == r.map,
        },
{
    let b = r.bits;
    spreads(b, 5_000_000_000, 30_000_000_000);
    spreads(b, -250_000_000, 250_000_000);
    spreads(b, -500_000_000, 500_000_000);
    spreads(b, 80_000_000, 350_000_000);
    spreads(b, -150_000_000, 150_000_000);
    spreads(b, -90_000_000_000, 90_000_000_000);
    spreads(b, -200_000_000, 200_000_000);
    spreads(b, 30_000_000, 180_000_000);
    spreads(b, 50_000_000, 200_000_000);
    match change_of(r, f, UNIT as int) {
        Change::Translate { map, step } => {
            if r.roll < 3_019_899 {
                let by = rng::chosen(b, 30_000_000, 180_000_000);
                assert(step == stretched(r.direction, by, UNIT as int));
            } else {
                assert(step == stretched(r.direction, 50_000_000, UNIT as int));
            }
        },
        Change::Duplicate { map, step } => {
            let by = rng::chosen(b, 50_000_000, 200_000_000);
            assert(step == stretched(r.direction, by, UNIT as int));
        },
        _ => {},
    }
}

/// Whether `v` is as far from `low` to `high` as bits are from none to all, by
/// the high 23 of them and rounded down.
pub open spec fn is_spread(v: int, bits: u32, low: int, high: int) -> bool {
    let k = bits as int / 512;
    (v - low) * 8_388_608 <= k * (high - low) < (v - low + 1) * 8_388_608
}

proof fn spreads(bits: u32, low: int, high: int)
    requires
        -90_000_000_000 <= low < high <= 90_000_000_000,
    ensures
        is_spread(rng::chosen(bits, low, high), bits, low, high),
        low <= rng::chosen(bits, low, high) < high,
        num::scaled(rng::chosen(bits, low, high), UNIT as int) == rng::chosen(bits, low, high),
{
    let k = bits as int / 512;
    let n = k * (high - low);
    let q = n / 8_388_608;
    assert(q * 8_388_608 <= n < (q + 1) * 8_388_608);
    assert(0 <= n <= 8_388_607 * (high - low)) by (nonlinear_arith)
        requires
            n == k * (high - low),
            0 <= k <= 8_388_607,
            low < high,
    ;
    let v = low + q;
    assert(v * 1_000_000_000 / 1_000_000_000 == v);
}

/// Whether every number of a step is another's, so many times.
pub open spec fn is_stronger(b: Point, a: Point, strength: int) -> bool {
    &&& num::is_product(b.x as int, a.x as int, strength)
    &&& num::is_product(b.y as int, a.y as int, strength)
    &&& num::is_product(b.z as int, a.z as int, strength)
}

proof fn choices_grow_with_strength(bits: u32, low: int, high: int, strength: int)
    requires
        -90_000_000_000 <= low < high <= 90_000_000_000,
        strength_fits(strength),
    ensures
        ({
            let (a, b) = (
                scaled_choice(bits, low, high, UNIT as int),
                scaled_choice(bits, low, high, strength),
            );
            &&& num::is_product(b, a, strength)
            &&& -90_000_000_000 <= a <= 90_000_000_000
            &&& -1_000_000_000_000_000_000 <= b <= 1_000_000_000_000_000_000
        }),
{
    spreads(bits, low, high);
    let v = rng::chosen(bits, low, high);
    num::scaling_multiplies(v, strength);
    num::scaling_stays_in_range(v, strength);
}

proof fn steps_grow_with_strength(d: Point, by: int, strength: int)
    requires
        in_cube(d),
        is_direction(d),
        0 <= by <= UNIT,
        strength_fits(strength),
    ensures
        is_stronger(stretched(d, by, strength), stretched(d, by, UNIT as int), strength),
{
    a_unit_is_short(d);
    let u = unit_of(d);
    step_grows(u.x as int, by, strength);
    step_grows(u.y as int, by, strength);
    step_grows(u.z as int, by, strength);
}

proof fn step_grows(u: int, by: int, strength: int)
    requires
        -1_000_000_000_000 <= u <= 1_000_000_000_000,
        0 <= by <= UNIT,
        strength_fits(strength),
    ensures
        ({
            let a = num::scaled(num::scaled(u, by), UNIT as int);
            let b = num::scaled(num::scaled(u, by), strength);
            &&& num::is_product(b, a, strength)
            &&& -1_000_000_000_000_000_000 <= a <= 1_000_000_000_000_000_000
            &&& -1_000_000_000_000_000_000 <= b <= 1_000_000_000_000_000_000
        }),
{
    let v = num::scaled(u, by);
    assert(-1_000_000_000_000 * UNIT <= u * by <= 1_000_000_000_000 * UNIT) by (nonlinear_arith)
        requires
            -1_000_000_000_000 <= u <= 1_000_000_000_000,
            0 <= by <= UNIT,
    ;
    assert(-1_000_000_000_000 <= v <= 1_000_000_000_000);
    assert(num::scaled(v, UNIT as int) == v);
    num::scaling_multiplies(v, strength);
    num::scaling_stays_in_range(v, strength);
}

proof fn a_unit_is_short(d: Point)
    requires
        in_cube(d),
        is_direction(d),
    ensures
        ({
            let u = unit_of(d);
            &&& -1_000_000_000_000 <= u.x <= 1_000_000_000_000
            &&& -1_000_000_000_000 <= u.y <= 1_000_000_000_000
            &&& -1_000_000_000_000 <= u.z <= 1_000_000_000_000
        }),
{
    let s = squared(d);
    num::root_is_whole_part(s as nat);
    let len = num::root(s as nat) as int;
    assert(1_000_000 <= len <= 1_000_000_000) by (nonlinear_arith)
        requires
            len * len <= s < (len + 1) * (len + 1),
            1_000_000 * 1_000_000 < s <= 1_000_000_000 * 1_000_000_000,
            len >= 0,
    ;
    a_share_of_a_length(d.x as int, len);
    a_share_of_a_length(d.y as int, len);
    a_share_of_a_length(d.z as int, len);
}

/// The same rolls make the same change at any strength, and what it is by is so
/// many times what it is at a strength of one.
pub proof fn a_change_is_as_strong_as_asked(
    r: ChangeRolls,
    f: FlameModel,
    kinds: nat,
    strength: int,
)
    requires
        r.valid(f, kinds),
        kinds <= usize::MAX,
        strength_fits(strength),
    ensures
        match (change_of(r, f, UNIT as int), change_of(r, f, strength)) {
            (Change::Translate { step: a, .. }, Change::Translate { step: b, .. }) => is_stronger(
                b,
                a,
                strength,
            ),
            (
                Change::Rotate { axis: x, degrees: a, .. },
                Change::Rotate { axis: y, degrees: b, .. },
            ) => x == y && num::is_product(b as int, a as int, strength),
            (Change::Scale { log: a, .. }, Change::Scale { log: b, .. }) => num::is_product(
                b as int,
                a as int,
                strength,
            ),
            (Change::Weight { log: a, .. }, Change::Weight { log: b, .. }) => num::is_product(
                b as int,
                a as int,
                strength,
            ),
            (
                Change::Introduce { slot: x, weight: a, .. },
                Change::Introduce { slot: y, weight: b, .. },
            ) => x == y && num::is_product(b as int, a as int, strength),
            (Change::Adjust { slot: x, by: a, .. }, Change::Adjust { slot: y, by: b, .. }) => x == y
                && num::is_product(b as int, a as int, strength),
            (Change::Hue { degrees: a, .. }, Change::Hue { degrees: b, .. }) => num::is_product(
                b as int,
                a as int,
                strength,
            ),
            (Change::ColorValue { by: a, .. }, Change::ColorValue { by: b, .. }) => num::is_product(
                b as int,
                a as int,
                strength,
            ),
            (Change::Duplicate { step: a, .. }, Change::Duplicate { step: b, .. }) => is_stronger(
                b,
                a,
                strength,
            ),
            (Change::Delete { .. }, Change::Delete { .. }) => true,
            _ => false,
        },
{
    let b = r.bits;
    match kind_of(r.roll as int, f.maps.len() as int) {
        Kind::Translate => {
            spreads(b, 30_000_000, 180_000_000);
            steps_grow_with_strength(
                r.direction,
                if r.roll < 3_019_899 {
                    rng::chosen(b, 30_000_000, 180_000_000)
                } else {
                    50_000_000
                },
                strength,
            );
        },
        Kind::Rotate => choices_grow_with_strength(b, 5_000_000_000, 30_000_000_000, strength),
        Kind::Scale => choices_grow_with_strength(b, -250_000_000, 250_000_000, strength),
        Kind::Weight => choices_grow_with_strength(b, -500_000_000, 500_000_000, strength),
        Kind::Variation => {
            choices_grow_with_strength(b, 80_000_000, 350_000_000, strength);
            choices_grow_with_strength(b, -150_000_000, 150_000_000, strength);
        },
        Kind::Hue => choices_grow_with_strength(b, -90_000_000_000, 90_000_000_000, strength),
        Kind::ColorValue => choices_grow_with_strength(b, -200_000_000, 200_000_000, strength),
        Kind::Duplicate => {
            spreads(b, 50_000_000, 200_000_000);
            steps_grow_with_strength(
                r.direction,
                rng::chosen(b, 50_000_000, 200_000_000),
                strength,
            );
        },
        Kind::Delete => {},
    }
}

/// A turned hue is one map's own, and nothing else of the flame changes.
pub proof fn a_hue_is_turned_in_place(
    f: FlameModel,
    map: usize,
    degrees: i64,
    o: Outcome,
    kinds: nat,
)
    requires
        applies(f, Change::Hue { map, degrees }, o, kinds),
    ensures
        ({
            let g = changed(f, Change::Hue { map, degrees }, o);
            &&& g.maps == f.maps && g.names == f.names && g.colors.len() == f.colors.len()
            &&& g.colors[map as int] == turned_hue(f.colors[map as int], degrees as int)
            &&& forall|i: int|
                0 <= i < f.colors.len() && i != map ==> (#[trigger] g.colors[i]) == f.colors[i]
        }),
{
}

/// Four in ten changes of a variation bring a new one in, and every one of a map
/// that has none; the others change one that is in use.
pub proof fn new_variations_come_in_their_share(
    r: ChangeRolls,
    f: FlameModel,
    kinds: nat,
    strength: int,
)
    requires
        r.valid(f, kinds),
        kinds <= usize::MAX,
        f.fits(kinds),
        kind_of(r.roll as int, f.maps.len() as int) is Variation,
    ensures
        ({
            let v = f.maps[r.map as int].variations;
            let used = exists|k: int| 0 <= k < v.len() && (#[trigger] v[k]) != 0;
            match change_of(r, f, strength) {
                Change::Introduce { slot, .. } => 1 <= slot < kinds && slot == r.which + 1 && (!used
                    || 10 * (r.fresh - 1) < 4 * rng::ROLLS),
                Change::Adjust { slot, .. } => slot < v.len() && v[slot as int] != 0 && used && 10
                    * (r.fresh + 1) > 4 * rng::ROLLS,
                _ => false,
            }
        }),
{
    let v = f.maps[r.map as int].variations;
    assert(f.maps[r.map as int].fits(kinds));
    slots_in_use(v, v.len());
    let e = present(v, v.len());
    if e.len() > 0 {
        assert(v[e[0] as int] != 0);
    }
}

proof fn slots_in_use(v: Seq<i64>, n: nat)
    requires
        n <= v.len() <= usize::MAX,
    ensures
        forall|k: int|
            0 <= k < present(v, n).len() ==> (#[trigger] present(v, n)[k]) < n && v[present(
                v,
                n,
            )[k] as int] != 0,
        present(v, n).len() == 0 ==> forall|k: int| 0 <= k < n ==> (#[trigger] v[k]) == 0,
    decreases n,
{
    if n > 0 {
        slots_in_use(v, (n - 1) as nat);
    }
}

/// A colour whose channels are within a millionth of each other has no hue to
/// turn, and one that is next to black has no colour.
pub proof fn greys_have_no_hue(c: Point)
    ensures
        largest(c) - smallest(c) < 1_000 ==> hue(c) == 0,
        largest(c) < 1_000 ==> strength_of(c) == 0,
        largest(c) >= 1_000 ==> strength_of(c) == largest(c) - smallest(c),
        largest(c) >= c.x && largest(c) >= c.y && largest(c) >= c.z,
        smallest(c) <= c.x && smallest(c) <= c.y && smallest(c) <= c.z,
        largest(c) == c.x || largest(c) == c.y || largest(c) == c.z,
        smallest(c) == c.x || smallest(c) == c.y || smallest(c) == c.z,
{
}

} // verus!
