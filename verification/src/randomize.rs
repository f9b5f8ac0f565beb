//! New flames by chance.
//!
//! Most random maps collapse to a point or fly apart to a haze, so a candidate
//! is measured, and kept only where it settles into a form: bounded, with
//! extent on more than one axis, and not a solid lump. After a number of tries
//! the last roll is kept as it is.

use crate::num;
use crate::offline::UNIT;
use crate::palette::random;
use crate::quantity::Point;
use crate::rng;
use crate::scene::{ColorMode, Measured};
use crate::text;
use rand::rngs::StdRng;
use vstd::prelude::*;

verus! {

// ---- how many, and whether to keep them ------------------------------------

/// How many candidates are measured before the next roll is kept as it is.
pub const MAX_ATTEMPTS: usize = 20;

/// The smallest radius: below it, the form has collapsed to a speck.
pub const MIN_RADIUS: i64 = 150_000_000;

/// The largest radius: above it, the form is a haze that no framing saves.
pub const MAX_RADIUS: i64 = 8_000_000_000;

/// The spread that two axes have to exceed.
pub const MIN_AXIS_SPREAD: i64 = 20_000_000;

/// The share of its box that a form may fill.
pub const MAX_OCCUPANCY: i64 = 220_000_000;

/// How many maps a roll asks for: two to five, mostly three or four.
pub open spec fn map_count(roll: int) -> int {
    if roll < 2_516_583 {
        2
    } else if roll < 9_227_469 {
        3
    } else if roll < 14_260_634 {
        4
    } else {
        5
    }
}

/// How many maps a roll asks for.
pub fn count_maps(roll: u32) -> (n: usize)
    ensures
        n == map_count(roll as int),
        2 <= n <= 5,
{
    if roll < 2_516_583 {
        2
    } else if roll < 9_227_469 {
        3
    } else if roll < 14_260_634 {
        4
    } else {
        5
    }
}

/// How many maps a flame has, by a roll.
pub fn roll_count(rng: &mut StdRng) -> (n: usize)
    ensures
        2 <= n <= 5,
        exists|r: int| 0 <= r < rng::ROLLS && n == #[trigger] map_count(r),
{
    let roll: u32 = rng::roll(rng);
    count_maps(roll)
}

/// The largest of three numbers.
pub open spec fn widest(p: Point) -> int {
    if p.x >= p.y && p.x >= p.z {
        p.x as int
    } else if p.y >= p.z {
        p.y as int
    } else {
        p.z as int
    }
}

/// The smallest of three numbers.
pub open spec fn narrowest(p: Point) -> int {
    if p.x <= p.y && p.x <= p.z {
        p.x as int
    } else if p.y <= p.z {
        p.y as int
    } else {
        p.z as int
    }
}

/// The middle one of three numbers.
pub open spec fn middle(p: Point) -> int {
    p.x + p.y + p.z - widest(p) - narrowest(p)
}

/// Whether what was measured is a form: of a middling radius, with extent on
/// two axes that is at least a quarter of that on the widest, and with room
/// between its points.
pub open spec fn is_form(m: Measured) -> bool {
    &&& MIN_RADIUS <= m.radius <= MAX_RADIUS
    &&& middle(m.spread) > MIN_AXIS_SPREAD
    &&& widest(m.spread) > 0
    &&& 4 * middle(m.spread) >= widest(m.spread)
    &&& m.occupancy <= MAX_OCCUPANCY
}

/// Whether what was measured is a form.
pub fn acceptable(m: &Measured) -> (b: bool)
    ensures
        b == is_form(*m),
{
    let x: i128 = m.spread.x as i128;
    let y: i128 = m.spread.y as i128;
    let z: i128 = m.spread.z as i128;
    let most: i128 = if x >= y && x >= z {
        x
    } else if y >= z {
        y
    } else {
        z
    };
    let least: i128 = if x <= y && x <= z {
        x
    } else if y <= z {
        y
    } else {
        z
    };
    let mid: i128 = x + y + z - most - least;
    MIN_RADIUS <= m.radius && m.radius <= MAX_RADIUS && mid > MIN_AXIS_SPREAD as i128 && most > 0
        && 4 * mid >= most && m.occupancy <= MAX_OCCUPANCY
}

/// What follows a candidate.
#[derive(Clone, Copy, Debug, PartialEq, Eq, Structural)]
pub enum Step {
    /// It is kept, framed by what was measured of it.
    Keep { center: Point, radius: i64 },
    /// Another one is rolled and measured.
    Again,
    /// Another one is rolled and kept, in a neutral frame.
    KeepNext,
}

/// What follows candidate number `attempt`, counted from zero, by what was
/// measured of it, if anything.
pub open spec fn step_after(attempt: int, measured: Option<Measured>) -> Step {
    match measured {
        Some(m) if is_form(m) => Step::Keep { center: m.center, radius: m.radius },
        _ => if attempt + 1 < MAX_ATTEMPTS {
            Step::Again
        } else {
            Step::KeepNext
        },
    }
}

/// What follows candidate number `attempt`.
pub fn judge(attempt: usize, measured: &Option<Measured>) -> (s: Step)
    requires
        attempt < MAX_ATTEMPTS,
    ensures
        s == step_after(attempt as int, *measured),
{
    if let Some(m) = measured {
        if acceptable(m) {
            return Step::Keep { center: m.center, radius: m.radius };
        }
    }
    if attempt + 1 < MAX_ATTEMPTS {
        Step::Again
    } else {
        Step::KeepNext
    }
}

/// What is kept for what was measured of it is a form, and no more than
/// twenty candidates are measured.
pub proof fn only_forms_are_kept(attempt: int, measured: Option<Measured>)
    requires
        0 <= attempt < MAX_ATTEMPTS,
    ensures
        step_after(attempt, measured) is Keep <==> measured is Some && is_form(measured->0),
        step_after(attempt, measured) is Again ==> attempt + 1 < MAX_ATTEMPTS,
{
}

/// The sum of numbers.
pub open spec fn total(s: Seq<i64>) -> int
    decreases s.len(),
{
    if s.len() == 0 {
        0
    } else {
        total(s.drop_last()) + s.last()
    }
}

/// By how much maps that shrink space too little are scaled, given how much
/// each shrinks it: to three quarters on average, where the average is above
/// 85 hundredths.
pub open spec fn contraction_factor(s: Seq<i64>) -> Option<int> {
    let mean = total(s) / s.len() as int;
    if mean > 850_000_000 {
        Some(750_000_000_000_000_000int / mean)
    } else {
        None
    }
}

/// By how much maps that shrink space too little are scaled.
pub fn contract(s: &Vec<i64>) -> (r: Option<i64>)
    requires
        0 < s@.len() <= 5,
        forall|i: int| 0 <= i < s@.len() ==> (#[trigger] s@[i]) >= 0,
    ensures
        match contraction_factor(s@) {
            Some(f) => r == Some(f as i64) && 0 <= f < UNIT,
            None => r is None,
        },
{
    let mut sum: i128 = 0;
    let mut i: usize = 0;
    assert(s@.take(0) =~= Seq::empty());
    while i < s.len()
        invariant
            i <= s@.len() <= 5,
            forall|k: int| 0 <= k < s@.len() ==> (#[trigger] s@[k]) >= 0,
            sum == total(s@.take(i as int)),
            0 <= sum <= i * 0x7FFF_FFFF_FFFF_FFFF,
        decreases s@.len() - i,
    {
        assert(s@.take(i + 1).drop_last() =~= s@.take(i as int));
        assert(s@.take(i + 1).last() == s@[i as int]);
        sum += s[i] as i128;
        i += 1;
    }
    assert(s@.take(i as int) =~= s@);
    let mean: i128 = sum / s.len() as i128;
    if mean > 850_000_000 {
        let f: i128 = 750_000_000_000_000_000 / mean;
        assert(0 <= f < 1_000_000_000) by (nonlinear_arith)
            requires
                f == 750_000_000_000_000_000int / mean as int,
                mean > 850_000_000,
        ;
        Some(f as i64)
    } else {
        None
    }
}

// ---- maps ------------------------------------------------------------------

/// What a map is made from.
#[derive(Clone, Copy, Debug, PartialEq, Eq)]
pub struct MapRolls {
    /// Which way it moves.
    pub direction: Point,
    /// The cube of how far, before it is scaled.
    pub reach: i64,
    /// Three rolls for its rotation: a share, and two angles in radians.
    pub turn: u32,
    pub first_angle: i64,
    pub second_angle: i64,
    /// The logarithm of its scale.
    pub log_scale: i64,
    /// The axis that is squashed, and by how much.
    pub squash: Option<(usize, i64)>,
    pub weight: i64,
}

/// A full turn in radians.
pub const TAU: i64 = 6_283_185_307;

impl MapRolls {
    /// The rolls there are.
    pub open spec fn valid(self) -> bool {
        &&& -UNIT <= self.direction.x < UNIT && -UNIT <= self.direction.y < UNIT && -UNIT
            <= self.direction.z < UNIT
        &&& 0 <= self.reach < 900_000_000
        &&& self.turn < rng::ROLLS
        &&& 0 <= self.first_angle < TAU && 0 <= self.second_angle < TAU
        &&& -1_049_822_124 <= self.log_scale < -287_682_072
        &&& self.squash matches Some(q) ==> q.0 < 3 && 150_000_000 <= q.1 < 600_000_000
        &&& 500_000_000 <= self.weight < 2_000_000_000
    }
}

/// What is drawn for a map: 32 bits for each number that lies in a range, and
/// shares. What was not drawn, because nothing depends on it, is zero.
#[derive(Clone, Copy, Debug, PartialEq, Eq, Structural)]
pub struct MapDraws {
    pub x: u32,
    pub y: u32,
    pub z: u32,
    pub reach: u32,
    pub turn: u32,
    pub first_angle: u32,
    pub second_angle: u32,
    pub log_scale: u32,
    /// Whether an axis is squashed: for three shares in ten.
    pub squashed: u32,
    pub axis: usize,
    pub squash: u32,
    pub weight: u32,
}

impl MapDraws {
    /// What can be drawn.
    pub open spec fn valid(self) -> bool {
        self.turn < rng::ROLLS && self.axis < 3
    }
}

/// What a map is made from, by what was drawn.
pub open spec fn map_rolls(d: MapDraws) -> MapRolls {
    MapRolls {
        direction: Point {
            x: rng::chosen(d.x, -1_000_000_000, 1_000_000_000) as i64,
            y: rng::chosen(d.y, -1_000_000_000, 1_000_000_000) as i64,
            z: rng::chosen(d.z, -1_000_000_000, 1_000_000_000) as i64,
        },
        reach: rng::chosen(d.reach, 0, 900_000_000) as i64,
        turn: d.turn,
        first_angle: rng::chosen(d.first_angle, 0, TAU as int) as i64,
        second_angle: rng::chosen(d.second_angle, 0, TAU as int) as i64,
        log_scale: rng::chosen(d.log_scale, -1_049_822_124, -287_682_072) as i64,
        squash: if d.squashed < 5_033_165 {
            Some((d.axis, rng::chosen(d.squash, 150_000_000, 600_000_000) as i64))
        } else {
            None
        },
        weight: rng::chosen(d.weight, 500_000_000, 2_000_000_000) as i64,
    }
}

/// What a map is made from, by what was drawn.
pub fn map_from(d: MapDraws) -> (r: MapRolls)
    requires
        d.valid(),
    ensures
        r == map_rolls(d),
        r.valid(),
{
    let squash: Option<(usize, i64)> = if d.squashed < 5_033_165 {
        let by: i64 = rng::choose_between(d.squash, 150_000_000, 600_000_000);
        Some((d.axis, by))
    } else {
        None
    };
    MapRolls {
        direction: Point {
            x: rng::choose_between(d.x, -1_000_000_000, 1_000_000_000),
            y: rng::choose_between(d.y, -1_000_000_000, 1_000_000_000),
            z: rng::choose_between(d.z, -1_000_000_000, 1_000_000_000),
        },
        reach: rng::choose_between(d.reach, 0, 900_000_000),
        turn: d.turn,
        first_angle: rng::choose_between(d.first_angle, 0, TAU),
        second_angle: rng::choose_between(d.second_angle, 0, TAU),
        log_scale: rng::choose_between(d.log_scale, -1_049_822_124, -287_682_072),
        squash,
        weight: rng::choose_between(d.weight, 500_000_000, 2_000_000_000),
    }
}

/// What a map is made from, by rolls.
pub fn roll_map(rng: &mut StdRng) -> (r: MapRolls)
    ensures
        r.valid(),
        exists|d: MapDraws| d.valid() && r == #[trigger] map_rolls(d),
{
    let x: u32 = rng::next(rng);
    let y: u32 = rng::next(rng);
    let z: u32 = rng::next(rng);
    let reach: u32 = rng::next(rng);
    let turn: u32 = rng::roll(rng);
    let first_angle: u32 = rng::next(rng);
    let second_angle: u32 = rng::next(rng);
    let log_scale: u32 = rng::next(rng);
    let squashed: u32 = rng::roll(rng);
    let mut axis: usize = 0;
    let mut squash: u32 = 0;
    if squashed < 5_033_165 {
        axis = rng::below(rng, 3);
        squash = rng::next(rng);
    }
    let weight: u32 = rng::next(rng);
    map_from(
        MapDraws {
            x,
            y,
            z,
            reach,
            turn,
            first_angle,
            second_angle,
            log_scale,
            squashed,
            axis,
            squash,
            weight,
        },
    )
}

/// Where map `i` of `n` lies on the gradient: spread evenly from end to end.
pub open spec fn gradient_place(i: int, n: int) -> int {
    if n > 1 {
        i * UNIT / (n - 1)
    } else {
        500_000_000
    }
}

/// Where map `i` of `n` lies on the gradient.
pub fn place_on_gradient(i: usize, n: usize) -> (v: i64)
    requires
        i < n <= 5,
    ensures
        v == gradient_place(i as int, n as int),
        0 <= v <= UNIT,
{
    if n > 1 {
        let v: u64 = i as u64 * UNIT / (n as u64 - 1);
        assert(v <= UNIT) by (nonlinear_arith)
            requires
                v == i * UNIT / (n - 1) as int,
                i <= n - 1,
                n > 1,
        ;
        v as i64
    } else {
        500_000_000
    }
}

/// The name of map `i`.
pub fn map_name(i: usize) -> (s: String)
    ensures
        s@ == "t"@ + text::decimal(i as nat),
{
    let mut s = text::owned("t");
    text::push_decimal(&mut s, i as u128);
    s
}

// ---- variations ------------------------------------------------------------

/// How many variations can be rolled.
pub const FRIENDLY: usize = 9;

/// The variations that stay bounded however often they are applied, and so can
/// be rolled.
pub open spec fn friendly(k: int) -> Seq<char> {
    if k == 0 {
        "sinusoidal"@
    } else if k == 1 {
        "swirl"@
    } else if k == 2 {
        "bubble"@
    } else if k == 3 {
        "fisheye"@
    } else if k == 4 {
        "julia"@
    } else if k == 5 {
        "horseshoe"@
    } else if k == 6 {
        "disc"@
    } else if k == 7 {
        "spiral"@
    } else {
        "bulb"@
    }
}

/// The name of a variation that can be rolled.
pub fn friendly_name(k: usize) -> (s: &'static str)
    requires
        k < FRIENDLY,
    ensures
        s@ == friendly(k as int),
{
    if k == 0 {
        "sinusoidal"
    } else if k == 1 {
        "swirl"
    } else if k == 2 {
        "bubble"
    } else if k == 3 {
        "fisheye"
    } else if k == 4 {
        "julia"
    } else if k == 5 {
        "horseshoe"
    } else if k == 6 {
        "disc"
    } else if k == 7 {
        "spiral"
    } else {
        "bulb"
    }
}

/// The variation that blows scenes out cannot be rolled.
pub proof fn spherical_is_never_friendly(k: int)
    requires
        0 <= k < FRIENDLY,
    ensures
        friendly(k) != "spherical"@,
{
    reveal_strlit("spherical");
    reveal_strlit("sinusoidal");
    reveal_strlit("swirl");
    reveal_strlit("bubble");
    reveal_strlit("fisheye");
    reveal_strlit("julia");
    reveal_strlit("horseshoe");
    reveal_strlit("disc");
    reveal_strlit("spiral");
    reveal_strlit("bulb");
    if k == 5 {
        assert(friendly(k)[0] != "spherical"@[0]);
    } else {
        assert(friendly(k).len() != "spherical"@.len());
    }
}

/// The first place of a name in a list, from `from` on.
pub open spec fn slot_from(kinds: Seq<Seq<char>>, name: Seq<char>, from: int) -> Option<int>
    decreases kinds.len() - from,
{
    if from >= kinds.len() {
        None
    } else if kinds[from] == name {
        Some(from)
    } else {
        slot_from(kinds, name, from + 1)
    }
}

/// The place of a variation that can be rolled, among the names of them all.
pub fn slot_of(kinds: &Vec<String>, k: usize) -> (r: Option<usize>)
    requires
        k < FRIENDLY,
    ensures
        match slot_from(text::views(kinds@), friendly(k as int), 0) {
            Some(i) => r is Some && r->0 == i && i < kinds@.len(),
            None => r is None,
        },
{
    let ghost all = text::views(kinds@);
    let name = friendly_name(k);
    let mut i: usize = 0;
    while i < kinds.len()
        invariant
            i <= kinds@.len(),
            all == text::views(kinds@),
            name@ == friendly(k as int),
            slot_from(all, name@, 0) == slot_from(all, name@, i as int),
        decreases kinds@.len() - i,
    {
        assert(all[i as int] == kinds@[i as int]@);
        if text::same(kinds[i].as_str(), name) {
            return Some(i);
        }
        i += 1;
    }
    None
}

/// A second variation on one map.
#[derive(Clone, Copy, Debug, PartialEq, Eq, Structural)]
pub struct Accent {
    pub kind: usize,
    pub map: usize,
    pub weight: i64,
}

/// Which variation a flame has, and where: one kind, on some of its maps, each
/// at a strength of its own, and perhaps another kind on one map.
pub struct Bend {
    pub kind: usize,
    /// The maps in a shuffled order, of which the first ones are bent.
    pub order: Vec<usize>,
    pub weights: Vec<i64>,
    pub accent: Option<Accent>,
}

/// Whether a strength is one that can be rolled: up to one, either way, but
/// not next to nothing.
pub open spec fn is_strength(w: int) -> bool {
    120_000_000 <= w < UNIT || -UNIT < w <= -120_000_000
}

/// Whether a list holds every number below its length once.
pub open spec fn is_shuffle(s: Seq<usize>) -> bool {
    &&& forall|i: int| 0 <= i < s.len() ==> (#[trigger] s[i]) < s.len()
    &&& forall|i: int, j: int| 0 <= i < j < s.len() ==> s[i] != s[j]
}

impl Bend {
    /// The bends there are of `n` maps.
    pub open spec fn valid(self, n: nat) -> bool {
        &&& self.kind < FRIENDLY
        &&& self.order@.len() == n && is_shuffle(self.order@)
        &&& 1 <= self.weights@.len() <= n
        &&& forall|i: int|
            0 <= i < self.weights@.len() ==> is_strength(#[trigger] self.weights@[i] as int)
        &&& self.accent matches Some(a) ==> {
            &&& n >= 3
            &&& a.kind < FRIENDLY && a.kind != self.kind
            &&& a.map < n
            &&& 150_000_000 <= a.weight < 500_000_000
        }
    }
}

/// Numbers in order from zero.
pub open spec fn in_order(n: nat) -> Seq<usize> {
    Seq::new(n, |i: int| i as usize)
}

fn in_turn(n: usize) -> (v: Vec<usize>)
    ensures
        v@ == in_order(n as nat),
{
    let mut v: Vec<usize> = Vec::new();
    let mut i: usize = 0;
    while i < n
        invariant
            i <= n,
            v@.len() == i,
            forall|k: int| 0 <= k < i ==> #[trigger] v@[k] == k,
        decreases n - i,
    {
        v.push(i);
        i += 1;
    }
    assert(v@ =~= in_order(n as nat));
    v
}

/// Two places exchanged.
pub open spec fn swapped(s: Seq<usize>, i: int, j: int) -> Seq<usize> {
    s.update(i, s[j]).update(j, s[i])
}

fn exchange(v: &mut Vec<usize>, i: usize, j: usize)
    requires
        i < old(v)@.len(),
        j < old(v)@.len(),
    ensures
        final(v)@ == swapped(old(v)@, i as int, j as int),
{
    let a: usize = v[i];
    let b: usize = v[j];
    v.set(i, b);
    v.set(j, a);
    assert(v@ =~= swapped(old(v)@, i as int, j as int));
}

/// An exchange keeps every number once.
pub proof fn exchanging_keeps_a_shuffle(s: Seq<usize>, i: int, j: int)
    requires
        is_shuffle(s),
        0 <= i < s.len(),
        0 <= j < s.len(),
    ensures
        is_shuffle(swapped(s, i, j)),
{
    let t = swapped(s, i, j);
    assert forall|k: int| 0 <= k < t.len() implies (#[trigger] t[k]) < t.len() by {
        assert(s[k] < s.len() && s[i] < s.len() && s[j] < s.len());
    }
    assert forall|a: int, b: int| 0 <= a < b < t.len() implies t[a] != t[b] by {
        let from = |k: int|
            if k == j {
                i
            } else if k == i {
                j
            } else {
                k
            };
        assert(t[a] == s[from(a)] && t[b] == s[from(b)]);
        if from(a) < from(b) {
            assert(s[from(a)] != s[from(b)]);
        } else {
            assert(s[from(b)] != s[from(a)]);
        }
    }
}

/// Whether each exchange of a shuffle of `n` numbers is with a place that is
/// not behind it: from the last place down, the last but `k` with one of the
/// first `n - k`.
pub open spec fn are_exchanges(with: Seq<usize>, n: nat) -> bool {
    &&& with.len() == if n == 0 {
        0
    } else {
        n - 1
    }
    &&& forall|k: int| 0 <= k < with.len() ==> (#[trigger] with[k]) < n - k
}

/// The numbers below `n` after the first `k` exchanges of a shuffle.
pub open spec fn shuffled(n: nat, with: Seq<usize>, k: int) -> Seq<usize>
    decreases k,
{
    if k <= 0 {
        in_order(n)
    } else {
        swapped(shuffled(n, with, k - 1), n - k, with[k - 1] as int)
    }
}

/// Whatever the exchanges, a shuffle holds every number once.
pub proof fn shuffling_keeps_every_number(n: nat, with: Seq<usize>, k: int)
    requires
        n <= usize::MAX,
        are_exchanges(with, n),
        0 <= k <= with.len(),
    ensures
        shuffled(n, with, k).len() == n,
        is_shuffle(shuffled(n, with, k)),
    decreases k,
{
    if k > 0 {
        shuffling_keeps_every_number(n, with, k - 1);
        assert(with[k - 1] < n - (k - 1));
        exchanging_keeps_a_shuffle(shuffled(n, with, k - 1), n - k, with[k - 1] as int);
    }
}

/// The numbers below `n` after the exchanges of a shuffle.
pub fn arrange(n: usize, with: &Vec<usize>) -> (v: Vec<usize>)
    requires
        are_exchanges(with@, n as nat),
    ensures
        v@ == shuffled(n as nat, with@, with@.len() as int),
        v@.len() == n,
        is_shuffle(v@),
{
    let mut v = in_turn(n);
    let mut k: usize = 0;
    while k < with.len()
        invariant
            k <= with@.len(),
            are_exchanges(with@, n as nat),
            v@ == shuffled(n as nat, with@, k as int),
            v@.len() == n,
        decreases with@.len() - k,
    {
        assert(with@[k as int] < n - k);
        let j: usize = with[k];
        exchange(&mut v, n - 1 - k, j);
        k += 1;
    }
    proof {
        shuffling_keeps_every_number(n as nat, with@, k as int);
    }
    v
}

/// The exchanges of a shuffle of `n` numbers, by rolls.
fn roll_exchanges(rng: &mut StdRng, n: usize) -> (with: Vec<usize>)
    ensures
        are_exchanges(with@, n as nat),
{
    let mut with: Vec<usize> = Vec::new();
    let mut i: usize = n;
    while i > 1
        invariant
            i <= n,
            n == 0 ==> with@.len() == 0,
            n > 0 ==> 1 <= i && with@.len() == n - i,
            forall|k: int| 0 <= k < with@.len() ==> (#[trigger] with@[k]) < n - k,
        decreases i,
    {
        let j: usize = rng::below(rng, i);
        with.push(j);
        i -= 1;
    }
    with
}

/// The numbers below `n` in an order by rolls.
pub fn shuffle(rng: &mut StdRng, n: usize) -> (v: Vec<usize>)
    ensures
        v@.len() == n,
        is_shuffle(v@),
        exists|with: Seq<usize>|
            are_exchanges(with, n as nat) && v@ == #[trigger] shuffled(
                n as nat,
                with,
                with.len() as int,
            ),
{
    let with = roll_exchanges(rng, n);
    arrange(n, &with)
}

/// What a strength is rolled from.
#[derive(Clone, Copy, Debug, PartialEq, Eq, Structural)]
pub struct StrengthRolls {
    /// Whether it is a strong one: a quarter are.
    pub strong: u32,
    /// Where it is in its range.
    pub bits: u32,
    /// Whether it is turned round: fifteen in a hundred are.
    pub turned: u32,
}

/// The strength that rolls make.
pub open spec fn strength_of(r: StrengthRolls) -> int {
    let w = if r.strong < 4_194_304 {
        rng::chosen(r.bits, 550_000_000, 1_000_000_000)
    } else {
        rng::chosen(r.bits, 120_000_000, 550_000_000)
    };
    if r.turned < 2_516_583 {
        -w
    } else {
        w
    }
}

/// The strength that rolls make.
pub fn strength(r: StrengthRolls) -> (w: i64)
    ensures
        w == strength_of(r),
        is_strength(w as int),
{
    let w: i64 = if r.strong < 4_194_304 {
        rng::choose_between(r.bits, 550_000_000, 1_000_000_000)
    } else {
        rng::choose_between(r.bits, 120_000_000, 550_000_000)
    };
    if r.turned < 2_516_583 {
        -w
    } else {
        w
    }
}

fn roll_strength(rng: &mut StdRng) -> (r: StrengthRolls) {
    let strong: u32 = rng::roll(rng);
    let bits: u32 = rng::next(rng);
    let turned: u32 = rng::roll(rng);
    StrengthRolls { strong, bits, turned }
}

/// What a bend is rolled from. What was not rolled, because nothing depends on
/// it, is zero.
pub struct BendRolls {
    pub kind: usize,
    /// How many maps are bent besides one.
    pub more: usize,
    /// The exchanges that shuffle the maps.
    pub exchanges: Vec<usize>,
    /// A strength for each map that is bent.
    pub strengths: Vec<StrengthRolls>,
    /// Whether there is an accent: three in ten have one.
    pub accent: u32,
    pub other: usize,
    pub accent_map: usize,
    /// Where the accent's weight is in its range.
    pub accent_bits: u32,
}

impl BendRolls {
    /// The rolls there are for `n` maps.
    pub open spec fn valid(self, n: nat) -> bool {
        &&& self.kind < FRIENDLY
        &&& self.more < n
        &&& are_exchanges(self.exchanges@, n)
        &&& self.strengths@.len() == self.more + 1
        &&& self.other < FRIENDLY
        &&& self.accent_map < n
    }

    /// Nothing rolled.
    pub fn blank() -> (r: BendRolls)
        ensures
            r.kind == 0 && r.more == 0 && r.accent == 0 && r.other == 0 && r.accent_map == 0
                && r.accent_bits == 0,
            r.exchanges@.len() == 0,
            r.strengths@.len() == 0,
    {
        BendRolls {
            kind: 0,
            more: 0,
            exchanges: Vec::new(),
            strengths: Vec::new(),
            accent: 0,
            other: 0,
            accent_map: 0,
            accent_bits: 0,
        }
    }
}

/// Whether a roll gives a flame a variation at all: it does for all but eight
/// in a hundred.
pub open spec fn is_bent(share: u32) -> bool {
    share >= 1_342_178
}

/// Whether a flame of `n` maps has a second variation rolled for it.
pub open spec fn is_accented(share: u32, n: nat) -> bool {
    n >= 3 && share < 5_033_165
}

/// The second variation that rolls make: none where it is the first again.
pub open spec fn accent_of(r: BendRolls, n: nat) -> Option<Accent> {
    if is_accented(r.accent, n) && r.other != r.kind {
        Some(
            Accent {
                kind: r.other,
                map: r.accent_map,
                weight: rng::chosen(r.accent_bits, 150_000_000, 500_000_000) as i64,
            },
        )
    } else {
        None
    }
}

/// The strengths that rolls make, in turn.
pub open spec fn strengths_of(s: Seq<StrengthRolls>) -> Seq<i64> {
    Seq::new(s.len(), |i: int| strength_of(s[i]) as i64)
}

/// Whether a bend is the one that rolls make: its kind, its maps in their
/// shuffled order, a strength for each that is bent, and its accent.
pub open spec fn is_bend_of(b: Bend, r: BendRolls, n: nat) -> bool {
    &&& b.kind == r.kind
    &&& b.order@ == shuffled(n, r.exchanges@, r.exchanges@.len() as int)
    &&& b.weights@ == strengths_of(r.strengths@)
    &&& b.accent == accent_of(r, n)
}

/// Whether a variation, or none, is what rolls make of a flame of `n` maps.
pub open spec fn is_rolled(b: Option<Bend>, share: u32, r: BendRolls, n: nat) -> bool {
    &&& b is Some <==> is_bent(share)
    &&& b matches Some(b) ==> is_bend_of(b, r, n)
}

/// Which variation a flame of `n` maps has, from what was rolled: none for
/// eight shares in a hundred.
pub fn bend_from(share: u32, r: &BendRolls, n: usize) -> (b: Option<Bend>)
    requires
        is_bent(share) ==> r.valid(n as nat),
    ensures
        is_rolled(b, share, *r, n as nat),
        b matches Some(b) ==> b.valid(n as nat),
{
    if share < 1_342_178 {
        return None;
    }
    let order = arrange(n, &r.exchanges);
    let mut weights: Vec<i64> = Vec::new();
    while weights.len() < r.strengths.len()
        invariant
            weights@ == strengths_of(r.strengths@).take(weights@.len() as int),
            weights@.len() <= r.strengths@.len(),
            forall|i: int|
                0 <= i < weights@.len() ==> is_strength(#[trigger] weights@[i] as int),
        decreases r.strengths@.len() - weights@.len(),
    {
        let w: i64 = strength(r.strengths[weights.len()]);
        weights.push(w);
        assert(weights@ =~= strengths_of(r.strengths@).take(weights@.len() as int));
    }
    assert(weights@ =~= strengths_of(r.strengths@));
    let accent = if n >= 3 && r.accent < 5_033_165 && r.other != r.kind {
        let weight: i64 = rng::choose_between(r.accent_bits, 150_000_000, 500_000_000);
        Some(Accent { kind: r.other, map: r.accent_map, weight })
    } else {
        None
    };
    Some(Bend { kind: r.kind, order, weights, accent })
}

/// The rolls for a flame of `n` maps that has a variation.
fn roll_bent(rng: &mut StdRng, n: usize) -> (r: BendRolls)
    requires
        2 <= n <= 5,
    ensures
        r.valid(n as nat),
{
    let mut r = BendRolls::blank();
    r.kind = rng::below(rng, FRIENDLY);
    r.more = rng::below(rng, n);
    r.exchanges = roll_exchanges(rng, n);
    let mut strengths: Vec<StrengthRolls> = Vec::new();
    while strengths.len() <= r.more
        invariant
            strengths@.len() <= r.more + 1,
            r.more < n <= 5,
        decreases r.more + 1 - strengths@.len(),
    {
        let s = roll_strength(rng);
        strengths.push(s);
    }
    r.strengths = strengths;
    if n >= 3 {
        r.accent = rng::roll(rng);
        if r.accent < 5_033_165 {
            r.other = rng::below(rng, FRIENDLY);
            if r.other != r.kind {
                r.accent_map = rng::below(rng, n);
                r.accent_bits = rng::next(rng);
            }
        }
    }
    r
}

/// Which variation a flame of `n` maps has, by rolls; none for eight in a
/// hundred.
pub fn roll_bend(rng: &mut StdRng, n: usize) -> (r: Option<Bend>)
    requires
        2 <= n <= 5,
    ensures
        r matches Some(b) ==> b.valid(n as nat),
        exists|share: u32, rolls: BendRolls|
            share < rng::ROLLS && (is_bent(share) ==> rolls.valid(n as nat))
                && #[trigger] is_rolled(r, share, rolls, n as nat),
{
    let share: u32 = rng::roll(rng);
    let rolls = if share < 1_342_178 {
        BendRolls::blank()
    } else {
        roll_bent(rng, n)
    };
    bend_from(share, &rolls, n)
}

/// The blends of a map with none but the straight variation.
pub open spec fn straight(kinds: nat) -> Seq<i64> {
    Seq::new(
        kinds,
        |k: int|
            if k == 0 {
                UNIT as i64
            } else {
                0
            },
    )
}

/// The size of a number.
pub open spec fn size(w: int) -> int {
    if w < 0 {
        -w
    } else {
        w
    }
}

/// Blends with a variation at a strength, and the straight one making up the
/// rest.
pub open spec fn bent(v: Seq<i64>, slot: int, w: int) -> Seq<i64> {
    v.update(slot, w as i64).update(0, (UNIT - size(w)) as i64)
}

/// Blends with an accent, taken from what the straight variation has.
pub open spec fn accented(v: Seq<i64>, slot: int, w: int) -> Seq<i64> {
    let u = v.update(slot, w as i64);
    u.update(
        0,
        if u[0] - w > 0 {
            (u[0] - w) as i64
        } else {
            0
        },
    )
}

/// The place of a map in an order, among its first `n`, or `n`.
pub open spec fn turn_of(order: Seq<usize>, map: int, n: int) -> int
    decreases n,
{
    if n <= 0 {
        0
    } else if turn_of(order, map, n - 1) < n - 1 {
        turn_of(order, map, n - 1)
    } else if order[n - 1] == map {
        n - 1
    } else {
        n
    }
}

/// The blends of map `map` after the first `n` strengths of a bend.
pub open spec fn bent_map(b: Bend, slot: int, kinds: nat, map: int, n: int) -> Seq<i64> {
    let t = turn_of(b.order@, map, n);
    if 0 <= t < n {
        bent(straight(kinds), slot, b.weights@[t] as int)
    } else {
        straight(kinds)
    }
}

/// The blends of map `map` of a flame that is bent, with the places of the two
/// kinds among the variations.
pub open spec fn blends(b: Option<Bend>, slot: int, other: int, kinds: nat, map: int) -> Seq<i64> {
    match b {
        None => straight(kinds),
        Some(b) => {
            let v = bent_map(b, slot, kinds, map, b.weights@.len() as int);
            match b.accent {
                Some(a) if a.map == map => accented(v, other, a.weight as int),
                _ => v,
            }
        },
    }
}

/// The blends of a map with none but the straight variation.
pub fn make_straight(kinds: usize) -> (v: Vec<i64>)
    ensures
        v@ == straight(kinds as nat),
{
    let mut v: Vec<i64> = Vec::new();
    let mut i: usize = 0;
    while i < kinds
        invariant
            i <= kinds,
            v@ == straight(kinds as nat).take(i as int),
        decreases kinds - i,
    {
        v.push(
            if i == 0 {
                UNIT as i64
            } else {
                0
            },
        );
        i += 1;
        assert(v@ =~= straight(kinds as nat).take(i as int));
    }
    assert(v@ =~= straight(kinds as nat));
    v
}

fn find_turn(order: &Vec<usize>, map: usize, n: usize) -> (t: usize)
    requires
        n <= order@.len(),
    ensures
        t == turn_of(order@, map as int, n as int),
        t <= n,
{
    let mut t: usize = 0;
    let mut i: usize = 0;
    while i < n
        invariant
            i <= n <= order@.len(),
            t <= i,
            t == turn_of(order@, map as int, i as int),
        decreases n - i,
    {
        if t == i && order[i] != map {
            t = i + 1;
        }
        i += 1;
    }
    t
}

/// The blends of map `map` of a flame that is bent: `slot` and `other` are the
/// places of the bend's kind and of its accent's.
pub fn blend(b: &Option<Bend>, slot: usize, other: usize, kinds: usize, map: usize) -> (v: Vec<i64>)
    requires
        b matches Some(b) ==> b.valid(b.order@.len()),
        1 <= slot < kinds,
        1 <= other < kinds,
    ensures
        v@ == blends(*b, slot as int, other as int, kinds as nat, map as int),
{
    let mut v = make_straight(kinds);
    if let Some(b) = b {
        let n: usize = b.weights.len();
        let t: usize = find_turn(&b.order, map, n);
        if t < n {
            let w: i64 = b.weights[t];
            assert(is_strength(b.weights@[t as int] as int));
            v.set(slot, w);
            let size: i64 = if w < 0 {
                -w
            } else {
                w
            };
            v.set(0, UNIT as i64 - size);
            assert(v@ =~= bent(straight(kinds as nat), slot as int, w as int));
        }
        let ghost main = v@;
        assert(main == bent_map(*b, slot as int, kinds as nat, map as int, n as int));
        if let Some(a) = b.accent {
            if a.map == map {
                assert(0 <= main[0] <= UNIT);
                v.set(other, a.weight);
                let left: i64 = v[0] - a.weight;
                v.set(
                    0,
                    if left > 0 {
                        left
                    } else {
                        0
                    },
                );
                assert(v@ =~= accented(main, other as int, a.weight as int));
            }
        }
    }
    v
}

/// Only the straight variation and the two kinds of a bend are ever blended
/// in, so what is not among them, such as the one that blows scenes out, never
/// is.
pub proof fn nothing_else_is_blended(
    b: Option<Bend>,
    slot: int,
    other: int,
    kinds: nat,
    map: int,
    k: int,
)
    requires
        1 <= slot < kinds,
        1 <= other < kinds,
        0 < k < kinds,
        k != slot,
        k != other,
    ensures
        blends(b, slot, other, kinds, map)[k] == 0,
{
}

/// A bent map's straight variation makes up what its strength leaves, and is
/// never below nothing.
pub proof fn the_straight_part_makes_up_the_rest(v: Seq<i64>, slot: int, w: int)
    requires
        1 <= slot < v.len(),
        is_strength(w),
    ensures
        bent(v, slot, w)[0] + size(w) == UNIT,
        0 < bent(v, slot, w)[0] < UNIT,
        bent(v, slot, w)[slot] == w,
{
}

// ---- colours ---------------------------------------------------------------

/// What the colour of a map is made from.
#[derive(Clone, Copy, Debug, PartialEq, Eq, Structural)]
pub struct ColorRolls {
    /// A turn of the hue, in degrees, for hues that stay together.
    pub turn: i64,
    pub saturation: i64,
    pub value: i64,
}

impl ColorRolls {
    /// The rolls there are.
    pub open spec fn valid(self) -> bool {
        &&& -25_000_000_000 <= self.turn < 25_000_000_000
        &&& 600_000_000 <= self.saturation < UNIT
        &&& 700_000_000 <= self.value < UNIT
    }
}

/// The hue of map `i`, in degrees: near the base, on either side of the wheel
/// by turns, or on a third of it by turns.
pub open spec fn hue_of(base: int, scheme: int, i: int, turn: int) -> int {
    base + (if scheme == 0 {
        turn
    } else if scheme == 1 {
        if i % 2 == 0 {
            0
        } else {
            180_000_000_000
        }
    } else {
        120_000_000_000 * (i % 3)
    })
}

/// The colour of map `i`.
pub fn color(base: i64, scheme: u32, i: usize, r: ColorRolls) -> (p: Point)
    requires
        0 <= base < 360_000_000_000,
        r.valid(),
    ensures
        p == random::channels(
            hue_of(base as int, scheme as int, i as int, r.turn as int),
            r.saturation as int,
            r.value as int,
        ),
        random::point_within(p, 0, UNIT as int),
{
    let offset: i64 = if scheme == 0 {
        r.turn
    } else if scheme == 1 {
        if i % 2 == 0 {
            0
        } else {
            180_000_000_000
        }
    } else {
        120_000_000_000 * (i % 3) as i64
    };
    random::channels_of(base + offset, r.saturation, r.value)
}

/// The colours of maps: one base hue and a scheme, so that they relate, and
/// rolls for each.
pub open spec fn colors_of(base: int, scheme: int, rolls: Seq<ColorRolls>) -> Seq<Point> {
    Seq::new(
        rolls.len(),
        |i: int|
            random::channels(
                hue_of(base, scheme, i, rolls[i].turn as int),
                rolls[i].saturation as int,
                rolls[i].value as int,
            ),
    )
}

/// The colours that rolls make of maps.
pub fn colors_from(base: i64, scheme: u32, rolls: &Vec<ColorRolls>) -> (v: Vec<Point>)
    requires
        0 <= base < 360_000_000_000,
        scheme < 3,
        forall|i: int| 0 <= i < rolls@.len() ==> (#[trigger] rolls@[i]).valid(),
    ensures
        v@ == colors_of(base as int, scheme as int, rolls@),
{
    let mut v: Vec<Point> = Vec::new();
    while v.len() < rolls.len()
        invariant
            v@.len() <= rolls@.len(),
            0 <= base < 360_000_000_000,
            scheme < 3,
            forall|i: int| 0 <= i < rolls@.len() ==> (#[trigger] rolls@[i]).valid(),
            v@ == colors_of(base as int, scheme as int, rolls@).take(v@.len() as int),
        decreases rolls@.len() - v@.len(),
    {
        let i: usize = v.len();
        let c = color(base, scheme, i, rolls[i]);
        v.push(c);
        assert(v@ =~= colors_of(base as int, scheme as int, rolls@).take(v@.len() as int));
    }
    assert(v@ =~= colors_of(base as int, scheme as int, rolls@));
    v
}

/// The colours of `n` maps, by rolls.
pub fn roll_colors(rng: &mut StdRng, n: usize) -> (v: Vec<Point>)
    ensures
        v@.len() == n,
        exists|base: int, scheme: int, rolls: Seq<ColorRolls>|
            0 <= base < 360_000_000_000 && 0 <= scheme < 3 && rolls.len() == n && (forall|i: int|
                0 <= i < n ==> (#[trigger] rolls[i]).valid()) && v@ == #[trigger] colors_of(
                base,
                scheme,
                rolls,
            ),
{
    let base: i64 = rng::between(rng, 0, 360_000_000_000);
    let scheme: u32 = rng::one_below(rng, 3);
    let mut rolls: Vec<ColorRolls> = Vec::new();
    while rolls.len() < n
        invariant
            rolls@.len() <= n,
            forall|i: int| 0 <= i < rolls@.len() ==> (#[trigger] rolls@[i]).valid(),
        decreases n - rolls@.len(),
    {
        let turn: i64 = if scheme == 0 {
            rng::between(rng, -25_000_000_000, 25_000_000_000)
        } else {
            0
        };
        let saturation: i64 = rng::between(rng, 600_000_000, 1_000_000_000);
        let value: i64 = rng::between(rng, 700_000_000, 1_000_000_000);
        rolls.push(ColorRolls { turn, saturation, value });
    }
    colors_from(base, scheme, &rolls)
}

/// Where a rolled flame's colour comes from: a palette for a quarter of the
/// rolls, a mix for the next, and the ring of its maps' colours for the rest.
pub open spec fn color_mode_of(roll: int) -> ColorMode {
    if roll < 4_194_304 {
        ColorMode::Palette
    } else if roll < 8_388_608 {
        ColorMode::Mix
    } else {
        ColorMode::Transforms
    }
}

/// Where a rolled flame's colour comes from.
pub fn choose_color_mode(roll: u32) -> (m: ColorMode)
    ensures
        m == color_mode_of(roll as int),
{
    if roll < 4_194_304 {
        ColorMode::Palette
    } else if roll < 8_388_608 {
        ColorMode::Mix
    } else {
        ColorMode::Transforms
    }
}

/// Where a flame's colour comes from, by a roll.
pub fn random_color_mode(rng: &mut StdRng) -> (m: ColorMode)
    ensures
        exists|r: int| 0 <= r < rng::ROLLS && m == #[trigger] color_mode_of(r),
{
    let roll: u32 = rng::roll(rng);
    choose_color_mode(roll)
}

/// The colour that a background is hung off: one that the flame renders in.
#[derive(Clone, Copy, Debug, PartialEq, Eq, Structural)]
pub enum Tint {
    /// The palette's at this place.
    Sample { roll: u32 },
    /// A map's own.
    Own { index: usize },
    /// White: there is no colour to take.
    White,
}

/// The colour that a background is hung off, by a roll.
pub fn roll_tint(rng: &mut StdRng, mode: ColorMode, has_palette: bool, colors: usize) -> (t: Tint)
    ensures
        match mode {
            ColorMode::Palette => if has_palette {
                t matches Tint::Sample { roll } && roll < rng::ROLLS
            } else {
                t == Tint::White
            },
            _ => if colors == 0 {
                t == Tint::White
            } else {
                t matches Tint::Own { index } && index < colors
            },
        },
{
    match mode {
        ColorMode::Palette => if has_palette {
            Tint::Sample { roll: rng::roll(rng) }
        } else {
            Tint::White
        },
        _ => if colors == 0 {
            Tint::White
        } else {
            Tint::Own { index: rng::below(rng, colors) }
        },
    }
}

/// The brightest channel of a dark background.
pub const DARK_BACKGROUND_LEVEL: i64 = 60_000_000;

/// What a background is made from.
#[derive(Clone, Copy, Debug, PartialEq, Eq, Structural)]
pub struct BackgroundRolls {
    /// How far its hue is turned from the tint's, in degrees.
    pub shift: i64,
    pub dark: bool,
    /// The brightest channel.
    pub level: i64,
    /// How much of the hue there is.
    pub chroma: i64,
}

impl BackgroundRolls {
    /// The rolls there are: near the tint's hue or opposite it; dark and
    /// tinted, or of middling brightness and nearly neutral.
    pub open spec fn valid(self) -> bool {
        &&& -40_000_000_000 <= self.shift < 40_000_000_000 || 150_000_000_000 <= self.shift
            < 210_000_000_000
        &&& if self.dark {
            4_000_000 <= self.level < DARK_BACKGROUND_LEVEL && 350_000_000 <= self.chroma < UNIT
        } else {
            DARK_BACKGROUND_LEVEL <= self.level < 350_000_000 && 80_000_000 <= self.chroma
                < 400_000_000
        }
    }
}

/// What is drawn for a background: two shares, and 32 bits for each number
/// that lies in a range.
#[derive(Clone, Copy, Debug, PartialEq, Eq, Structural)]
pub struct BackgroundDraws {
    /// Whether its hue is opposite the tint's: for three shares in ten.
    pub opposite: u32,
    pub shift: u32,
    /// Whether it is dark: for two shares in three.
    pub dark: u32,
    pub level: u32,
    pub chroma: u32,
}

/// What a background is made from, by what was drawn.
pub open spec fn background_rolls(d: BackgroundDraws) -> BackgroundRolls {
    let dark = d.dark < 11_184_811;
    let brightest = DARK_BACKGROUND_LEVEL as int;
    BackgroundRolls {
        shift: (if d.opposite < 5_033_165 {
            rng::chosen(d.shift, 150_000_000_000, 210_000_000_000)
        } else {
            rng::chosen(d.shift, -40_000_000_000, 40_000_000_000)
        }) as i64,
        dark,
        level: (if dark {
            rng::chosen(d.level, 4_000_000, brightest)
        } else {
            rng::chosen(d.level, brightest, 350_000_000)
        }) as i64,
        chroma: (if dark {
            rng::chosen(d.chroma, 350_000_000, 1_000_000_000)
        } else {
            rng::chosen(d.chroma, 80_000_000, 400_000_000)
        }) as i64,
    }
}

/// What a background is made from, by what was drawn.
pub fn background_from(d: BackgroundDraws) -> (r: BackgroundRolls)
    ensures
        r == background_rolls(d),
        r.valid(),
{
    let shift: i64 = if d.opposite < 5_033_165 {
        rng::choose_between(d.shift, 150_000_000_000, 210_000_000_000)
    } else {
        rng::choose_between(d.shift, -40_000_000_000, 40_000_000_000)
    };
    let dark = d.dark < 11_184_811;
    if dark {
        let level: i64 = rng::choose_between(d.level, 4_000_000, DARK_BACKGROUND_LEVEL);
        let chroma: i64 = rng::choose_between(d.chroma, 350_000_000, 1_000_000_000);
        BackgroundRolls { shift, dark, level, chroma }
    } else {
        let level: i64 = rng::choose_between(d.level, DARK_BACKGROUND_LEVEL, 350_000_000);
        let chroma: i64 = rng::choose_between(d.chroma, 80_000_000, 400_000_000);
        BackgroundRolls { shift, dark, level, chroma }
    }
}

/// What a background is made from, by rolls: dark for two in three.
pub fn roll_background(rng: &mut StdRng) -> (r: BackgroundRolls)
    ensures
        r.valid(),
        exists|d: BackgroundDraws| r == #[trigger] background_rolls(d),
{
    let opposite: u32 = rng::roll(rng);
    let shift: u32 = rng::next(rng);
    let dark: u32 = rng::roll(rng);
    let level: u32 = rng::next(rng);
    let chroma: u32 = rng::next(rng);
    background_from(BackgroundDraws { opposite, shift, dark, level, chroma })
}

/// A channel of a hue, relative to its brightest one; all of it where there is
/// next to no light.
pub open spec fn relative(v: int, peak: int) -> int {
    if peak > 100_000 {
        v * UNIT / peak
    } else {
        UNIT as int
    }
}

/// A channel of a background: between white and the hue by the chroma, at the
/// level, and within range.
pub open spec fn ground(v: int, peak: int, r: BackgroundRolls) -> int {
    num::clamped(
        num::scaled(UNIT + num::scaled(relative(v, peak) - UNIT, r.chroma as int), r.level as int),
        0,
        UNIT as int,
    )
}

/// The background that rolls make of a turned hue.
pub open spec fn background_of(hue: Point, r: BackgroundRolls) -> Point {
    let peak = widest(hue);
    Point {
        x: ground(hue.x as int, peak, r) as i64,
        y: ground(hue.y as int, peak, r) as i64,
        z: ground(hue.z as int, peak, r) as i64,
    }
}

fn relative_of(v: i64, peak: i64) -> (r: i64)
    requires
        0 <= v <= peak <= num::SCALABLE,
    ensures
        r == relative(v as int, peak as int),
        0 <= r <= UNIT,
{
    if peak > 100_000 {
        let t: i128 = v as i128 * UNIT as i128;
        let r: i128 = t / peak as i128;
        assert(0 <= r <= 1_000_000_000) by (nonlinear_arith)
            requires
                r == t as int / peak as int,
                t == v * 1_000_000_000,
                0 <= v <= peak,
                peak > 0,
        ;
        r as i64
    } else {
        UNIT as i64
    }
}

fn ground_of(v: i64, peak: i64, r: BackgroundRolls) -> (g: i64)
    requires
        0 <= v <= peak <= num::SCALABLE,
        r.valid(),
    ensures
        g == ground(v as int, peak as int, r),
{
    let hue: i64 = relative_of(v, peak);
    proof {
        mixed_in_range(hue as int, r.chroma as int);
    }
    let mixed: i64 = UNIT as i64 + num::scale(hue - UNIT as i64, r.chroma);
    let g: i64 = num::scale(mixed, r.level);
    if g < 0 {
        0
    } else if g > UNIT as i64 {
        UNIT as i64
    } else {
        g
    }
}

/// Between white and a hue there is nothing below the hue or above white.
proof fn mixed_in_range(hue: int, chroma: int)
    requires
        0 <= hue <= UNIT,
        0 <= chroma <= UNIT,
    ensures
        0 <= UNIT + num::scaled(hue - UNIT, chroma) <= UNIT,
{
    let d = hue - UNIT;
    assert(-1_000_000_000 * 1_000_000_000 <= d * chroma <= 0) by (nonlinear_arith)
        requires
            -1_000_000_000 <= d <= 0,
            0 <= chroma <= 1_000_000_000,
    ;
}

/// The background that rolls make of a turned hue.
pub fn random_background(hue: Point, r: BackgroundRolls) -> (p: Point)
    requires
        random::point_within(hue, 0, num::SCALABLE as int),
        r.valid(),
    ensures
        p == background_of(hue, r),
{
    let peak: i64 = if hue.x >= hue.y && hue.x >= hue.z {
        hue.x
    } else if hue.y >= hue.z {
        hue.y
    } else {
        hue.z
    };
    Point { x: ground_of(hue.x, peak, r), y: ground_of(hue.y, peak, r), z: ground_of(hue.z, peak, r) }
}

/// A background is within range, and one that is rolled dark is dark.
pub proof fn backgrounds_are_in_range(hue: Point, r: BackgroundRolls)
    requires
        random::point_within(hue, 0, num::SCALABLE as int),
        r.valid(),
    ensures
        random::point_within(background_of(hue, r), 0, UNIT as int),
        r.dark ==> random::point_within(background_of(hue, r), 0, DARK_BACKGROUND_LEVEL as int),
{
    ground_is_below(hue.x as int, widest(hue), r);
    ground_is_below(hue.y as int, widest(hue), r);
    ground_is_below(hue.z as int, widest(hue), r);
}

proof fn ground_is_below(v: int, peak: int, r: BackgroundRolls)
    requires
        0 <= v <= peak,
        r.valid(),
    ensures
        0 <= ground(v, peak, r) <= r.level,
{
    let hue = relative(v, peak);
    if peak > 100_000 {
        assert(0 <= v * UNIT / peak <= UNIT) by (nonlinear_arith)
            requires
                0 <= v <= peak,
                peak > 0,
        ;
    }
    mixed_in_range(hue, r.chroma as int);
    let mixed = UNIT + num::scaled(hue - UNIT, r.chroma as int);
    let level = r.level as int;
    assert(0 <= mixed * level <= 1_000_000_000 * level) by (nonlinear_arith)
        requires
            0 <= mixed <= 1_000_000_000,
            0 <= level,
    ;
}

// ---- the scene around them -------------------------------------------------

/// How fast colour falls off, by a share and 32 bits: not at all for six
/// shares in ten.
pub open spec fn falloff_of(share: u32, bits: u32) -> int {
    if share < 6_710_887 {
        rng::chosen(bits, 600_000_000, 1_200_000_000)
    } else {
        0
    }
}

/// How fast colour falls off, by a share and 32 bits.
pub fn falloff_from(share: u32, bits: u32) -> (v: i64)
    ensures
        v == falloff_of(share, bits),
        v == 0 || 600_000_000 <= v < 1_200_000_000,
{
    if share < 6_710_887 {
        rng::choose_between(bits, 600_000_000, 1_200_000_000)
    } else {
        0
    }
}

/// How fast colour falls off, by rolls: not at all for six in ten.
pub fn roll_falloff(rng: &mut StdRng) -> (v: i64)
    ensures
        v == 0 || 600_000_000 <= v < 1_200_000_000,
        exists|share: u32, bits: u32| share < rng::ROLLS && v == #[trigger] falloff_of(share, bits),
{
    let share: u32 = rng::roll(rng);
    let bits: u32 = if share < 6_710_887 {
        rng::next(rng)
    } else {
        0
    };
    falloff_from(share, bits)
}

/// How a rolled flame is framed.
#[derive(Clone, Copy, Debug, PartialEq, Eq, Structural)]
pub struct Framing {
    pub point_size: i64,
    pub distance: i64,
    pub focus: Point,
}

/// A flame's frame by its size: dots that grow with it, and a distance that
/// fills the frame without clipping.
pub open spec fn framing(center: Point, radius: int) -> Framing {
    Framing {
        point_size: num::clamped(num::scaled(radius, 1_800_000), 800_000, 12_000_000) as i64,
        distance: num::clamped(
            num::scaled(radius, 2_400_000_000),
            800_000_000,
            12_000_000_000,
        ) as i64,
        focus: center,
    }
}

/// A flame's frame by its size.
pub fn frame(center: Point, radius: i64) -> (f: Framing)
    requires
        -num::SCALABLE <= radius <= num::SCALABLE,
    ensures
        f == framing(center, radius as int),
{
    Framing {
        point_size: num::clamp(num::scale(radius, 1_800_000), 800_000, 12_000_000),
        distance: num::clamp(num::scale(radius, 2_400_000_000), 800_000_000, 12_000_000_000),
        focus: center,
    }
}

/// The name of a flame that was rolled at a time, in seconds.
pub fn flame_name(seconds: u64) -> (s: String)
    ensures
        s@ == "random-"@ + text::decimal(seconds as nat),
{
    let mut s = text::owned("random-");
    text::push_decimal(&mut s, seconds as u128);
    s
}

// ---- what rolls are for ----------------------------------------------------

/// What is kept is worth looking at, and all of that is kept: no speck and no
/// haze, of a radius from 0.15 to eight; no point, line or filament, with two
/// axes whose spread exceeds two hundredths and is a quarter of every axis at
/// least; and no lump, filling at most 22 hundredths of its box. It is framed
/// by what was measured of it. Whatever else comes is rolled again, up to twenty
/// times.
pub proof fn what_is_kept_is_a_form(attempt: int, m: Measured)
    requires
        0 <= attempt < MAX_ATTEMPTS,
    ensures
        ({
            let wide = |v: int|
                50 * v > UNIT && 4 * v >= m.spread.x && 4 * v >= m.spread.y && 4 * v >= m.spread.z;
            let (x, y, z) = (
                wide(m.spread.x as int),
                wide(m.spread.y as int),
                wide(m.spread.z as int),
            );
            step_after(attempt, Some(m)) is Keep <==> {
                &&& 100 * m.radius >= 15 * UNIT
                &&& m.radius <= 8 * UNIT
                &&& (x && y) || (x && z) || (y && z)
                &&& 100 * m.occupancy <= 22 * UNIT
            }
        }),
        step_after(attempt, Some(m)) matches Step::Keep { center, radius } ==> center == m.center
            && radius == m.radius,
        step_after(attempt, None) !is Keep,
        step_after(attempt, Some(m)) !is Keep ==> step_after(attempt, Some(m)) == step_after(
            attempt,
            None,
        ),
        step_after(attempt, None) is Again <==> attempt < 19,
        step_after(attempt, None) is KeepNext <==> attempt == 19,
        is_form(m) <==> step_after(attempt, Some(m)) is Keep,
{
}

/// Of a hundred flames fifteen have two maps, forty have three, thirty have
/// four and fifteen have five.
pub proof fn counts_come_in_their_shares(roll: int)
    ensures
        map_count(roll) == 2 <==> 100 * roll < 15 * rng::ROLLS,
        map_count(roll) <= 3 <==> 100 * roll < 55 * rng::ROLLS,
        map_count(roll) <= 4 <==> 100 * roll < 85 * rng::ROLLS,
        2 <= map_count(roll) <= 5,
{
}

/// Of four flames one takes its colours from a palette, one mixes its maps'
/// and two spread them.
pub proof fn modes_come_in_their_shares(roll: int)
    ensures
        color_mode_of(roll) == ColorMode::Palette <==> 4 * roll < rng::ROLLS,
        color_mode_of(roll) == ColorMode::Mix <==> rng::ROLLS <= 4 * roll < 2 * rng::ROLLS,
        color_mode_of(roll) == ColorMode::Transforms <==> 4 * roll >= 2 * rng::ROLLS,
{
}

/// A sum is what there is added up, whatever is added last.
pub proof fn a_total_adds_up(s: Seq<i64>, v: i64)
    ensures
        total(Seq::<i64>::empty()) == 0,
        total(s.push(v)) == total(s) + v,
{
    assert(s.push(v).drop_last() =~= s);
}

/// Maps are scaled just where they shrink space to more than 85 hundredths on
/// average, and then to three quarters on average.
pub proof fn contraction_is_to_three_quarters(s: Seq<i64>)
    requires
        s.len() > 0,
    ensures
        ({
            let mean = total(s) / s.len() as int;
            match contraction_factor(s) {
                Some(f) => 100 * mean > 85 * UNIT && 4 * f * mean <= 3 * UNIT * UNIT < 4 * (f + 1)
                    * mean,
                None => 100 * mean <= 85 * UNIT,
            }
        }),
{
    let mean = total(s) / s.len() as int;
    if mean > 850_000_000 {
        let f = 750_000_000_000_000_000int / mean;
        assert(4 * f * mean <= 3_000_000_000_000_000_000 < 4 * (f + 1) * mean) by (nonlinear_arith)
            requires
                f == 750_000_000_000_000_000int / mean,
                mean > 0,
        ;
    }
}

/// Maps stand along the gradient in equal steps, the first at its start and the
/// last at its end, and one alone in its middle.
pub proof fn maps_stand_in_equal_steps(i: int, n: int)
    requires
        0 <= i < n,
    ensures
        n == 1 ==> 2 * gradient_place(i, n) == UNIT,
        n > 1 ==> gradient_place(0, n) == 0 && gradient_place(n - 1, n) == UNIT,
        n > 1 ==> gradient_place(i, n) * (n - 1) <= i * UNIT < (gradient_place(i, n) + 1) * (n - 1),
{
    if n > 1 {
        let m = n - 1;
        let u = UNIT as int;
        assert(m * u / m == u) by (nonlinear_arith)
            requires
                m > 0,
        ;
        assert(0 * u / m == 0) by (nonlinear_arith)
            requires
                m > 0,
        ;
        let q = i * u / m;
        assert(q * m <= i * u < (q + 1) * m) by (nonlinear_arith)
            requires
                q == i * u / m,
                m > 0,
        ;
    }
}

/// A name's slot is the first that has the name, and there is none just where
/// nothing has it.
pub proof fn a_slot_has_its_name(kinds: Seq<Seq<char>>, name: Seq<char>, from: int)
    requires
        0 <= from <= kinds.len(),
    ensures
        match slot_from(kinds, name, from) {
            Some(i) => from <= i < kinds.len() && kinds[i] == name && forall|k: int|
                from <= k < i ==> #[trigger] kinds[k] != name,
            None => forall|k: int| from <= k < kinds.len() ==> #[trigger] kinds[k] != name,
        },
    decreases kinds.len() - from,
{
    if from < kinds.len() && kinds[from] != name {
        a_slot_has_its_name(kinds, name, from + 1);
    }
}

/// The turn at which an order comes to a map is the first one that it has, and
/// past the end just where it does not come to it.
pub proof fn a_turn_comes_to_its_map(order: Seq<usize>, map: int, n: int)
    requires
        0 <= n <= order.len(),
    ensures
        0 <= turn_of(order, map, n) <= n,
        turn_of(order, map, n) < n ==> order[turn_of(order, map, n)] == map,
        forall|k: int| 0 <= k < turn_of(order, map, n) ==> #[trigger] order[k] != map,
    decreases n,
{
    if n > 0 {
        a_turn_comes_to_its_map(order, map, n - 1);
    }
}

/// The maps that come first in the order are bent, each by its own strength,
/// and the rest of each stays straight, so that its parts make up one. The maps
/// that come later stay straight altogether, but for the accent.
pub proof fn the_first_maps_are_bent(
    b: Bend,
    slot: int,
    other: int,
    kinds: nat,
    map: int,
    t: int,
)
    requires
        b.valid(b.order@.len()),
        1 <= slot < kinds,
        1 <= other < kinds,
        0 <= t < b.order@.len(),
        b.order@[t] == map,
        b.accent matches Some(a) ==> a.map != map,
    ensures
        ({
            let v = blends(Some(b), slot, other, kinds, map);
            &&& v.len() == kinds
            &&& t < b.weights@.len() ==> v[slot] == b.weights@[t]
            &&& t < b.weights@.len() && b.weights@[t] >= 0 ==> v[0] + b.weights@[t] == UNIT
            &&& t < b.weights@.len() && b.weights@[t] < 0 ==> v[0] - b.weights@[t] == UNIT
            &&& t >= b.weights@.len() ==> v[slot] == 0 && v[0] == UNIT
            &&& forall|k: int| 0 < k < kinds && k != slot ==> #[trigger] v[k] == 0
        }),
{
    let n = b.weights@.len() as int;
    a_turn_comes_to_its_map(b.order@, map, n);
    let u = turn_of(b.order@, map, n);
    if t < n {
        if u > t {
            assert(b.order@[t] != map);
        }
        if u < t {
            assert(b.order@[u] == b.order@[t]);
        }
        assert(is_strength(b.weights@[t] as int));
    } else if u < n {
        assert(b.order@[u] == b.order@[t]);
    }
}

/// An accent is blended into its map by its weight, and takes as much of what
/// was straight in it, as far as there is any. What else was in the map stays.
pub proof fn an_accent_takes_from_the_straight(b: Bend, slot: int, other: int, kinds: nat)
    requires
        b.valid(b.order@.len()),
        b.accent is Some,
        1 <= slot < kinds,
        1 <= other < kinds,
        slot != other,
    ensures
        ({
            let a = b.accent->0;
            let map = a.map as int;
            let bare = Bend { accent: None, ..b };
            let v = blends(Some(b), slot, other, kinds, map);
            let u = blends(Some(bare), slot, other, kinds, map);
            &&& v[other] == a.weight
            &&& v[slot] == u[slot]
            &&& u[0] >= a.weight ==> v[0] == u[0] - a.weight
            &&& u[0] < a.weight ==> v[0] == 0
        }),
{
    let a = b.accent->0;
    let n = b.weights@.len() as int;
    let t = turn_of(b.order@, a.map as int, n);
    a_turn_comes_to_its_map(b.order@, a.map as int, n);
    if t < n {
        assert(is_strength(b.weights@[t] as int));
    }
}

/// The hues of a flame stay together, stand opposite in turn, or stand a third
/// of the wheel apart in turn, by the scheme.
pub proof fn hues_follow_their_scheme(base: int, i: int, turn: int)
    requires
        i >= 0,
    ensures
        hue_of(base, 0, i, turn) - base == turn,
        hue_of(base, 1, i + 2, turn) == hue_of(base, 1, i, turn),
        hue_of(base, 1, 0, turn) == base,
        2 * (hue_of(base, 1, 1, turn) - base) == 360_000_000_000,
        hue_of(base, 2, i + 3, turn) == hue_of(base, 2, i, turn),
        hue_of(base, 2, 0, turn) == base,
        3 * (hue_of(base, 2, 1, turn) - base) == 360_000_000_000,
        3 * (hue_of(base, 2, 2, turn) - base) == 720_000_000_000,
{
}

/// A background's brightest channel is its level, whatever colour it is tinted
/// by, and what the tint has none of is darker by the chroma. More of a channel
/// in the tint is more of it in the background, and a tint that is black leaves
/// a grey.
pub proof fn a_background_takes_its_level(hue: Point, r: BackgroundRolls)
    requires
        random::point_within(hue, 0, num::SCALABLE as int),
        r.valid(),
    ensures
        widest(background_of(hue, r)) == r.level,
        widest(hue) > 100_000 && hue.x == 0 ==> dims(background_of(hue, r).x as int, r),
        widest(hue) > 100_000 && hue.y == 0 ==> dims(background_of(hue, r).y as int, r),
        widest(hue) > 100_000 && hue.z == 0 ==> dims(background_of(hue, r).z as int, r),
        hue.x <= hue.y ==> background_of(hue, r).x <= background_of(hue, r).y,
        hue.y <= hue.x ==> background_of(hue, r).y <= background_of(hue, r).x,
        hue.x <= hue.z ==> background_of(hue, r).x <= background_of(hue, r).z,
        hue.z <= hue.x ==> background_of(hue, r).z <= background_of(hue, r).x,
        hue.y <= hue.z ==> background_of(hue, r).y <= background_of(hue, r).z,
        hue.z <= hue.y ==> background_of(hue, r).z <= background_of(hue, r).y,
{
    let peak = widest(hue);
    let (x, y, z) = (hue.x as int, hue.y as int, hue.z as int);
    a_channel_is_lit(x, peak, r);
    a_channel_is_lit(y, peak, r);
    a_channel_is_lit(z, peak, r);
    channels_keep_their_order(x, y, peak, r);
    channels_keep_their_order(y, x, peak, r);
    channels_keep_their_order(x, z, peak, r);
    channels_keep_their_order(z, x, peak, r);
    channels_keep_their_order(y, z, peak, r);
    channels_keep_their_order(z, y, peak, r);
}

/// Whether a channel is the level less the chroma's share of it.
pub open spec fn dims(v: int, r: BackgroundRolls) -> bool {
    num::is_product(v, UNIT - r.chroma, r.level as int)
}

proof fn a_channel_is_lit(v: int, peak: int, r: BackgroundRolls)
    requires
        0 <= v <= peak <= num::SCALABLE,
        r.valid(),
    ensures
        v == peak || peak <= 100_000 ==> ground(v, peak, r) == r.level,
        v == 0 && peak > 100_000 ==> dims(ground(v, peak, r), r),
        0 <= ground(v, peak, r) <= r.level,
{
    let u = UNIT as int;
    let (c, l) = (r.chroma as int, r.level as int);
    if peak > 100_000 {
        assert(peak * u / peak == u) by (nonlinear_arith)
            requires
                peak > 0,
        ;
        let rel = v * u / peak;
        assert(0 <= rel <= u) by (nonlinear_arith)
            requires
                rel == v * u / peak,
                0 <= v <= peak,
                peak > 0,
                u == 1_000_000_000,
        ;
        if v == 0 {
            assert(0 * u / peak == 0) by (nonlinear_arith)
                requires
                    peak > 0,
            ;
        }
    }
    let rel = relative(v, peak);
    assert(0 <= rel <= u);
    let less = num::scaled(rel - u, c);
    num::scaling_multiplies(rel - u, c);
    assert(-u <= less <= 0) by (nonlinear_arith)
        requires
            less * 1_000_000_000 <= (rel - u) * c < less * 1_000_000_000 + 1_000_000_000,
            0 <= rel <= u,
            0 <= c <= u,
            u == 1_000_000_000,
    ;
    if rel == u {
        assert((rel - u) * c == 0) by (nonlinear_arith)
            requires
                rel == u,
        ;
    }
    let w = u + less;
    num::scaling_multiplies(w, l);
    let g = num::scaled(w, l);
    assert(0 <= g <= l) by (nonlinear_arith)
        requires
            g * 1_000_000_000 <= w * l < g * 1_000_000_000 + 1_000_000_000,
            0 <= w <= 1_000_000_000,
            l >= 0,
    ;
    if rel == u {
        assert(w * l == 1_000_000_000 * l) by (nonlinear_arith)
            requires
                w == 1_000_000_000,
        ;
    }
    if rel == 0 {
        assert((0 - u) * c == -1_000_000_000 * c) by (nonlinear_arith)
            requires
                u == 1_000_000_000,
        ;
        assert(less == -c);
    }
}

proof fn channels_keep_their_order(v: int, w: int, peak: int, r: BackgroundRolls)
    requires
        0 <= v <= peak <= num::SCALABLE,
        0 <= w <= peak,
        r.valid(),
    ensures
        v <= w ==> ground(v, peak, r) <= ground(w, peak, r),
{
    if v <= w {
        let u = UNIT as int;
        let (c, l) = (r.chroma as int, r.level as int);
        if peak > 100_000 {
            assert(v * u / peak <= w * u / peak) by (nonlinear_arith)
                requires
                    v <= w,
                    peak > 0,
                    u > 0,
            ;
        }
        let (a, b) = (relative(v, peak), relative(w, peak));
        assert((a - u) * c <= (b - u) * c) by (nonlinear_arith)
            requires
                a <= b,
                c >= 0,
        ;
        let (e, f) = (u + num::scaled(a - u, c), u + num::scaled(b - u, c));
        assert(e <= f);
        assert(e * l <= f * l) by (nonlinear_arith)
            requires
                e <= f,
                l >= 0,
        ;
    }
}

/// A flame is seen from 2.4 of its radii off, and its points are drawn at 1.8
/// thousandths of it, both within bounds and about its centre.
pub proof fn a_framing_is_in_proportion(center: Point, radius: int)
    requires
        -num::SCALABLE <= radius <= num::SCALABLE,
    ensures
        ({
            let f = framing(center, radius);
            &&& f.focus == center
            &&& 800_000_000 <= f.distance <= 12_000_000_000
            &&& 800_000_000 < f.distance < 12_000_000_000 ==> 5 * f.distance <= 12 * radius
                < 5 * f.distance + 5
            &&& 5 * f.distance > 12 * radius ==> f.distance == 800_000_000
            &&& 5 * f.distance + 5 <= 12 * radius ==> f.distance == 12_000_000_000
            &&& 800_000 <= f.point_size <= 12_000_000
            &&& 800_000 < f.point_size < 12_000_000 ==> 5000 * f.point_size <= 9 * radius
                < 5000 * f.point_size + 5000
            &&& 5000 * f.point_size > 9 * radius ==> f.point_size == 800_000
            &&& 5000 * f.point_size + 5000 <= 9 * radius ==> f.point_size == 12_000_000
        }),
{
}

// ---- what is drawn -----------------------------------------------------------

/// Whether a number lies as far from `low` to `high` as bits do from none to all.
pub open spec fn is_drawn(v: int, bits: u32, low: int, high: int) -> bool {
    &&& low <= v < high
    &&& 8_388_608 * (v - low) <= (bits / 512) * (high - low) < 8_388_608 * (v - low + 1)
}

proof fn draws(bits: u32, low: int, high: int)
    requires
        low < high,
    ensures
        is_drawn(rng::chosen(bits, low, high), bits, low, high),
{
    rng::a_choice_is_as_far_between_as_its_bits(bits, low, high);
}

/// A map's numbers are spread evenly over their reaches: any way, up to nine
/// tenths of the way out by volume, any angle, a scale from 0.35 to 0.75 by its
/// logarithm and a weight from a half to two. Three in ten have one axis squashed,
/// to between 0.15 and 0.6.
pub proof fn maps_are_drawn_over_their_reaches(d: MapDraws)
    requires
        d.valid(),
    ensures
        ({
            let r = map_rolls(d);
            &&& is_drawn(r.direction.x as int, d.x, -1_000_000_000, 1_000_000_000)
            &&& is_drawn(r.direction.y as int, d.y, -1_000_000_000, 1_000_000_000)
            &&& is_drawn(r.direction.z as int, d.z, -1_000_000_000, 1_000_000_000)
            &&& is_drawn(r.reach as int, d.reach, 0, 900_000_000)
            &&& r.turn == d.turn
            &&& is_drawn(r.first_angle as int, d.first_angle, 0, 6_283_185_307)
            &&& is_drawn(r.second_angle as int, d.second_angle, 0, 6_283_185_307)
            &&& is_drawn(r.log_scale as int, d.log_scale, -1_049_822_124, -287_682_072)
            &&& is_drawn(r.weight as int, d.weight, 500_000_000, 2_000_000_000)
            &&& 10 * (d.squashed + 1) <= 3 * rng::ROLLS ==> r.squash is Some
            &&& 10 * (d.squashed - 1) >= 3 * rng::ROLLS ==> r.squash is None
            &&& r.squash matches Some(q) ==> q.0 == d.axis && is_drawn(
                q.1 as int,
                d.squash,
                150_000_000,
                600_000_000,
            )
        }),
{
    draws(d.x, -1_000_000_000, 1_000_000_000);
    draws(d.y, -1_000_000_000, 1_000_000_000);
    draws(d.z, -1_000_000_000, 1_000_000_000);
    draws(d.reach, 0, 900_000_000);
    draws(d.first_angle, 0, TAU as int);
    draws(d.second_angle, 0, TAU as int);
    draws(d.log_scale, -1_049_822_124, -287_682_072);
    draws(d.weight, 500_000_000, 2_000_000_000);
    draws(d.squash, 150_000_000, 600_000_000);
}

/// A quarter of all blends are strong ones, from 0.55 up; the others are from 0.12
/// up to that. Fifteen in a hundred are turned round.
pub proof fn strengths_come_in_their_shares(r: StrengthRolls)
    ensures
        ({
            let w = strength_of(r);
            let s = size(w);
            &&& 4 * r.strong < rng::ROLLS ==> is_drawn(s, r.bits, 550_000_000, 1_000_000_000)
            &&& 4 * r.strong >= rng::ROLLS ==> is_drawn(s, r.bits, 120_000_000, 550_000_000)
            &&& 100 * (r.turned + 1) <= 15 * rng::ROLLS ==> w < 0
            &&& 100 * (r.turned - 1) >= 15 * rng::ROLLS ==> w > 0
        }),
{
    draws(r.bits, 550_000_000, 1_000_000_000);
    draws(r.bits, 120_000_000, 550_000_000);
}

/// Eight in a hundred flames are not bent. A bend has the kind, the order and a
/// strength for each map that were drawn; three in ten of those with three maps
/// or more have an accent besides, of another kind, from 0.15 to a half.
pub proof fn bends_are_what_is_drawn(b: Option<Bend>, share: u32, r: BendRolls, n: nat, i: int)
    requires
        is_rolled(b, share, r, n),
        0 <= i < r.strengths@.len(),
    ensures
        100 * (share + 1) <= 8 * rng::ROLLS ==> b is None,
        100 * (share - 1) >= 8 * rng::ROLLS ==> b is Some,
        b matches Some(c) ==> {
            &&& c.kind == r.kind
            &&& c.weights@.len() == r.strengths@.len()
            &&& c.weights@[i] == strength_of(r.strengths@[i])
            &&& c.accent is Some ==> n >= 3 && r.other != r.kind && 10 * (r.accent - 1) < 3
                * rng::ROLLS
            &&& n >= 3 && r.other != r.kind && 10 * (r.accent + 1) <= 3 * rng::ROLLS
                ==> c.accent is Some
            &&& c.accent matches Some(a) ==> a.kind == r.other && a.map == r.accent_map && is_drawn(
                a.weight as int,
                r.accent_bits,
                150_000_000,
                500_000_000,
            )
        },
{
    draws(r.accent_bits, 150_000_000, 500_000_000);
    strengths_come_in_their_shares(r.strengths@[i]);
}

/// Two thirds of all backgrounds are dark ones, strong in hue; the others are
/// brighter and paler. Three in ten are opposite the tint in hue and the others
/// near it.
pub proof fn backgrounds_come_in_their_shares(d: BackgroundDraws)
    ensures
        ({
            let r = background_rolls(d);
            &&& 3 * (d.dark + 1) <= 2 * rng::ROLLS ==> r.dark
            &&& 3 * (d.dark - 1) >= 2 * rng::ROLLS ==> !r.dark
            &&& 10 * (d.opposite + 1) <= 3 * rng::ROLLS ==> is_drawn(
                r.shift as int,
                d.shift,
                150_000_000_000,
                210_000_000_000,
            )
            &&& 10 * (d.opposite - 1) >= 3 * rng::ROLLS ==> is_drawn(
                r.shift as int,
                d.shift,
                -40_000_000_000,
                40_000_000_000,
            )
            &&& r.dark ==> is_drawn(r.level as int, d.level, 4_000_000, 60_000_000) && is_drawn(
                r.chroma as int,
                d.chroma,
                350_000_000,
                1_000_000_000,
            )
            &&& !r.dark ==> is_drawn(r.level as int, d.level, 60_000_000, 350_000_000) && is_drawn(
                r.chroma as int,
                d.chroma,
                80_000_000,
                400_000_000,
            )
        }),
{
    draws(d.shift, 150_000_000_000, 210_000_000_000);
    draws(d.shift, -40_000_000_000, 40_000_000_000);
    draws(d.level, 4_000_000, 60_000_000);
    draws(d.level, 60_000_000, 350_000_000);
    draws(d.chroma, 350_000_000, 1_000_000_000);
    draws(d.chroma, 80_000_000, 400_000_000);
}

/// Four in ten flames have their colours fall off, by 0.6 to 1.2.
pub proof fn falloffs_come_in_their_shares(share: u32, bits: u32)
    ensures
        10 * (share + 1) <= 4 * rng::ROLLS ==> is_drawn(
            falloff_of(share, bits),
            bits,
            600_000_000,
            1_200_000_000,
        ),
        10 * (share - 1) >= 4 * rng::ROLLS ==> falloff_of(share, bits) == 0,
{
    draws(bits, 600_000_000, 1_200_000_000);
}

/// Every map's own colour has the value that was drawn for it in its brightest
/// channel.
pub proof fn own_colours_are_as_bright_as_drawn(
    base: int,
    scheme: int,
    rolls: Seq<ColorRolls>,
    i: int,
)
    requires
        0 <= i < rolls.len(),
        rolls[i].valid(),
    ensures
        ({
            let p = colors_of(base, scheme, rolls)[i];
            &&& colors_of(base, scheme, rolls).len() == rolls.len()
            &&& widest(p) == rolls[i].value
            &&& p == random::channels(
                hue_of(base, scheme, i, rolls[i].turn as int),
                rolls[i].saturation as int,
                rolls[i].value as int,
            )
        }),
{
    random::channels_keep_the_value_and_the_saturation(
        hue_of(base, scheme, i, rolls[i].turn as int),
        rolls[i].saturation as int,
        rolls[i].value as int,
    );
}

/// The friendly variations are nine different ones.
pub proof fn friendly_variations_are_different(j: int, k: int)
    requires
        0 <= j < k < 9,
    ensures
        friendly(j) != friendly(k),
        friendly(j).len() >= 4,
{
    reveal_strlit("sinusoidal");
    reveal_strlit("swirl");
    reveal_strlit("bubble");
    reveal_strlit("fisheye");
    reveal_strlit("julia");
    reveal_strlit("horseshoe");
    reveal_strlit("disc");
    reveal_strlit("spiral");
    reveal_strlit("bulb");
    let (a, b) = (friendly(j), friendly(k));
    assert(a.len() != b.len() || a[0] != b[0] || a[1] != b[1] || a[2] != b[2]);
}

} // verus!
