//! Gradients: the map from one number to a colour, broken out so that it can
//! be swapped.
//!
//! Positions, shifts and coefficients are integers in units of `1 / UNIT`. A
//! colour is what a display shows it by, and its linear values besides where
//! those are not exactly what the bytes stand for.

use crate::offline::UNIT;
use crate::quantity;
use crate::quantity::Point;
use crate::text;
use vstd::prelude::*;

pub mod axes;
pub mod def;
pub mod written;
pub mod import;
pub mod library;
pub mod random;

verus! {

/// A colour of a gradient.
#[derive(Clone, Copy, Debug, PartialEq, Eq, Structural)]
pub struct Ink {
    pub red: u8,
    pub green: u8,
    pub blue: u8,
    /// The linear values, where they are not those of the bytes.
    pub linear: Option<Point>,
}

impl Ink {
    /// The colour that a display shows by these bytes.
    pub open spec fn of(red: u8, green: u8, blue: u8) -> Ink {
        Ink { red, green, blue, linear: None }
    }

    /// The colour that a display shows by these bytes.
    pub fn shown(red: u8, green: u8, blue: u8) -> (i: Ink)
        ensures
            i == Ink::of(red, green, blue),
    {
        Ink { red, green, blue, linear: None }
    }
}

/// A single control point: a position along the gradient and its colour.
#[derive(Clone, Copy, Debug, PartialEq, Eq, Structural)]
pub struct Stop {
    pub at: i64,
    pub color: Ink,
}

/// A cosine palette: `a + b * cos(tau * (c * t + d))` in each channel.
#[derive(Clone, Copy, Debug, PartialEq, Eq, Structural)]
pub struct Cosine {
    /// Bias, the mean colour.
    pub a: Point,
    /// Amplitude.
    pub b: Point,
    /// Frequency, in cycles across the gradient.
    pub c: Point,
    /// Phase.
    pub d: Point,
}

/// How a palette's colours are defined.
pub enum Body {
    /// Control points, interpolated.
    Stops(Vec<Stop>),
    /// Explicit entries, for palettes imported verbatim.
    Entries(Vec<Ink>),
    /// A formula.
    Cosine(Cosine),
}

/// What a body holds.
pub enum BodyModel {
    Stops(Seq<Stop>),
    Entries(Seq<Ink>),
    Cosine(Cosine),
}

impl View for Body {
    type V = BodyModel;

    open spec fn view(&self) -> BodyModel {
        match self {
            Body::Stops(s) => BodyModel::Stops(s@),
            Body::Entries(e) => BodyModel::Entries(e@),
            Body::Cosine(c) => BodyModel::Cosine(*c),
        }
    }
}

/// The space that colours are mixed in between control points.
#[derive(Clone, Copy, Debug, PartialEq, Eq, Structural)]
pub enum Interpolate {
    /// Componentwise, in linear light.
    Rgb,
    /// In a space that is perceptually even.
    Oklab,
}

impl Interpolate {
    /// The word for a space.
    pub open spec fn name_text(self) -> Seq<char> {
        match self {
            Interpolate::Rgb => "rgb"@,
            Interpolate::Oklab => "oklab"@,
        }
    }

    /// The word for a space, as files write it.
    pub fn name(&self) -> (s: &'static str)
        ensures
            s@ == self.name_text(),
    {
        match self {
            Interpolate::Rgb => "rgb",
            Interpolate::Oklab => "oklab",
        }
    }

    /// The space that a word names, in any case.
    pub open spec fn named(s: Seq<char>) -> Option<Interpolate> {
        if text::lowered(s) == text::lowered("rgb"@) {
            Some(Interpolate::Rgb)
        } else if text::lowered(s) == text::lowered("oklab"@) {
            Some(Interpolate::Oklab)
        } else {
            None
        }
    }

    /// Read the word for a space, in any case.
    pub fn parse(s: &str) -> (r: Option<Interpolate>)
        ensures
            r == Interpolate::named(s@),
    {
        if text::same_ignoring_case(s, "rgb") {
            Some(Interpolate::Rgb)
        } else if text::same_ignoring_case(s, "oklab") {
            Some(Interpolate::Oklab)
        } else {
            None
        }
    }
}

impl Default for Interpolate {
    fn default() -> (i: Interpolate)
        ensures
            i == Interpolate::Rgb,
    {
        Interpolate::Rgb
    }
}

/// A gradient: colours, how to read between them, and two tweaks that let a
/// library palette be adjusted without forking it.
pub struct Palette {
    /// The library name it came from, if any.
    pub name: Option<String>,
    pub body: Body,
    /// Whether the end wraps back to the beginning.
    pub cyclic: bool,
    pub interpolate: Interpolate,
    /// How far the whole gradient is shifted.
    pub rotate: i64,
    /// Whether the gradient runs backward. Applied before the shift.
    pub reverse: bool,
}

/// What a palette holds.
pub struct PaletteModel {
    pub name: Option<Seq<char>>,
    pub body: BodyModel,
    pub cyclic: bool,
    pub interpolate: Interpolate,
    pub rotate: int,
    pub reverse: bool,
}

/// What an optional text reads.
pub open spec fn text_of(s: Option<String>) -> Option<Seq<char>> {
    match s {
        Some(t) => Some(t@),
        None => None,
    }
}

impl View for Palette {
    type V = PaletteModel;

    open spec fn view(&self) -> PaletteModel {
        PaletteModel {
            name: text_of(self.name),
            body: self.body@,
            cyclic: self.cyclic,
            interpolate: self.interpolate,
            rotate: self.rotate as int,
            reverse: self.reverse,
        }
    }
}

/// A palette with this body and everything else as it is by default.
pub open spec fn plain(body: BodyModel) -> PaletteModel {
    PaletteModel {
        name: None,
        body,
        cyclic: true,
        interpolate: Interpolate::Rgb,
        rotate: 0,
        reverse: false,
    }
}

// ---- keeping stops in order ------------------------------------------------

/// `s` with `x` put in its place: after every stop at or before it.
pub open spec fn inserted(s: Seq<Stop>, x: Stop) -> Seq<Stop>
    decreases s.len(),
{
    if s.len() == 0 || s.last().at <= x.at {
        s.push(x)
    } else {
        inserted(s.drop_last(), x).push(s.last())
    }
}

/// The stops in order of position, those at one position as they stood.
pub open spec fn sorted(s: Seq<Stop>) -> Seq<Stop>
    decreases s.len(),
{
    if s.len() == 0 {
        s
    } else {
        inserted(sorted(s.drop_last()), s.last())
    }
}

/// No stop is before one at a smaller position.
pub open spec fn in_order(s: Seq<Stop>) -> bool {
    forall|i: int, j: int| 0 <= i <= j < s.len() ==> s[i].at <= s[j].at
}

/// How many of the first `n` stops come before stop `i` once they are in
/// order: those at a smaller position, and those at the same one that stood
/// before it.
pub open spec fn rank(s: Seq<Stop>, i: int, n: nat) -> nat
    decreases n,
{
    if n == 0 {
        0
    } else {
        let k = n - 1;
        rank(s, i, k as nat) + (if k != i && (s[k].at < s[i].at || (s[k].at == s[i].at && k < i)) {
            1nat
        } else {
            0
        })
    }
}

/// How many stops are at `at` or before.
pub open spec fn up_to(s: Seq<Stop>, at: int) -> nat
    decreases s.len(),
{
    if s.len() == 0 {
        0
    } else {
        up_to(s.drop_last(), at) + (if s.last().at <= at {
            1nat
        } else {
            0
        })
    }
}

proof fn up_to_bounded(s: Seq<Stop>, at: int)
    ensures
        up_to(s, at) <= s.len(),
    decreases s.len(),
{
    if s.len() > 0 {
        up_to_bounded(s.drop_last(), at);
    }
}

/// In order, the stops at or before a position are the first ones.
proof fn up_to_splits(s: Seq<Stop>, at: int)
    requires
        in_order(s),
    ensures
        up_to(s, at) <= s.len(),
        forall|k: int| 0 <= k < up_to(s, at) ==> (#[trigger] s[k]).at <= at,
        forall|k: int| up_to(s, at) <= k < s.len() ==> (#[trigger] s[k]).at > at,
    decreases s.len(),
{
    up_to_bounded(s, at);
    if s.len() > 0 {
        let t = s.drop_last();
        assert(in_order(t)) by {
            assert forall|i: int, j: int| 0 <= i <= j < t.len() implies t[i].at <= t[j].at by {
                assert(s[i].at <= s[j].at);
            }
        }
        up_to_splits(t, at);
        assert forall|k: int| 0 <= k < up_to(s, at) implies (#[trigger] s[k]).at <= at by {
            if s.last().at <= at {
                assert(s[k].at <= s[s.len() - 1].at);
            } else {
                assert(s[k] == t[k]);
            }
        }
        assert forall|k: int| up_to(s, at) <= k < s.len() implies (#[trigger] s[k]).at > at by {
            if s.last().at <= at {
                if up_to(t, at) < t.len() {
                    assert(t[up_to(t, at) as int].at > at);
                    assert(s[up_to(t, at) as int].at <= s[s.len() - 1].at);
                }
            } else if k < t.len() {
                assert(s[k] == t[k]);
            }
        }
    }
}

/// Inserting counts as one more.
proof fn up_to_inserted(s: Seq<Stop>, x: Stop, at: int)
    ensures
        inserted(s, x).len() == s.len() + 1,
        up_to(inserted(s, x), at) == up_to(s, at) + (if x.at <= at {
            1nat
        } else {
            0
        }),
    decreases s.len(),
{
    if s.len() == 0 || s.last().at <= x.at {
        assert(s.push(x).drop_last() =~= s);
    } else {
        up_to_inserted(s.drop_last(), x, at);
        let r = inserted(s.drop_last(), x).push(s.last());
        assert(r.drop_last() =~= inserted(s.drop_last(), x));
    }
}

/// Where an insertion lands, and what moves over for it.
proof fn inserted_is(s: Seq<Stop>, x: Stop)
    requires
        in_order(s),
    ensures
        in_order(inserted(s, x)),
        inserted(s, x).len() == s.len() + 1,
        inserted(s, x)[up_to(s, x.at as int) as int] == x,
        forall|k: int| 0 <= k < up_to(s, x.at as int) ==> inserted(s, x)[k] == #[trigger] s[k],
        forall|k: int|
            up_to(s, x.at as int) <= k < s.len() ==> inserted(s, x)[k + 1] == #[trigger] s[k],
    decreases s.len(),
{
    let p = up_to(s, x.at as int);
    up_to_splits(s, x.at as int);
    if s.len() == 0 || s.last().at <= x.at {
        assert(p == s.len()) by {
            if p < s.len() {
                assert(s[s.len() - 1].at > x.at);
            }
        }
        let r = s.push(x);
        assert forall|i: int, j: int| 0 <= i <= j < r.len() implies r[i].at <= r[j].at by {
            if j < s.len() {
                assert(s[i].at <= s[j].at);
            } else if i < s.len() {
                assert(s[i].at <= s[s.len() - 1].at);
            }
        }
    } else {
        let t = s.drop_last();
        assert(in_order(t)) by {
            assert forall|i: int, j: int| 0 <= i <= j < t.len() implies t[i].at <= t[j].at by {
                assert(s[i].at <= s[j].at);
            }
        }
        inserted_is(t, x);
        assert(up_to(t, x.at as int) == p);
        let q = inserted(t, x);
        let r = q.push(s.last());
        assert(inserted(s, x) == r);
        assert forall|k: int| 0 <= k < p implies r[k] == #[trigger] s[k] by {
            assert(t[k] == s[k]);
        }
        assert forall|k: int| p <= k < s.len() implies r[k + 1] == #[trigger] s[k] by {
            if k < t.len() {
                assert(t[k] == s[k]);
            }
        }
        assert forall|i: int, j: int| 0 <= i <= j < r.len() implies r[i].at <= r[j].at by {
            if j < q.len() {
                assert(q[i].at <= q[j].at);
            } else if i < q.len() {
                if i == p {
                    assert(q[i] == x);
                } else if i < p {
                    assert(q[i] == t[i]);
                    assert(s[i].at <= s[s.len() - 1].at);
                } else {
                    assert(q[i] == t[i - 1]);
                    assert(s[i - 1].at <= s[s.len() - 1].at);
                }
            }
        }
    }
}

/// Sorting does not change how many stops are at or before a position.
proof fn up_to_sorted(s: Seq<Stop>, at: int)
    ensures
        sorted(s).len() == s.len(),
        up_to(sorted(s), at) == up_to(s, at),
    decreases s.len(),
{
    if s.len() > 0 {
        up_to_sorted(s.drop_last(), at);
        up_to_inserted(sorted(s.drop_last()), s.last(), at);
    }
}

/// A rank counts the stops at or before, up to the stop itself.
proof fn rank_of_last(s: Seq<Stop>, i: int, n: nat)
    requires
        n <= i < s.len(),
    ensures
        rank(s, i, n) == up_to(s.take(n as int), s[i].at as int),
    decreases n,
{
    if n > 0 {
        rank_of_last(s, i, (n - 1) as nat);
        assert(s.take(n as int).drop_last() =~= s.take(n - 1));
    }
}

proof fn rank_of_prefix(s: Seq<Stop>, t: Seq<Stop>, i: int, n: nat)
    requires
        n <= t.len() <= s.len(),
        0 <= i < t.len(),
        forall|k: int| 0 <= k < t.len() ==> t[k] == s[k],
    ensures
        rank(t, i, n) == rank(s, i, n),
    decreases n,
{
    if n > 0 {
        rank_of_prefix(s, t, i, (n - 1) as nat);
    }
}

/// Sorting puts stops in order of position, and every stop lands where its
/// rank says: behind those before it, and behind those at its own position
/// that stood before it.
pub proof fn stops_land_by_rank(s: Seq<Stop>, i: int)
    requires
        0 <= i < s.len(),
    ensures
        in_order(sorted(s)),
        sorted(s).len() == s.len(),
        rank(s, i, s.len()) < s.len(),
        sorted(s)[rank(s, i, s.len()) as int] == s[i],
    decreases s.len(),
{
    let t = s.drop_last();
    let x = s.last();
    let n = t.len();
    sorting_orders(t);
    let q = sorted(t);
    inserted_is(q, x);
    up_to_sorted(t, x.at as int);
    assert forall|k: int| 0 <= k < n implies t[k] == s[k] by {}
    if i == n {
        rank_of_last(s, i, n);
        assert(s.take(n as int) =~= t);
        up_to_bounded(t, x.at as int);
        assert(rank(s, i, s.len()) == rank(s, i, n));
    } else {
        stops_land_by_rank(t, i);
        assert(rank(s, i, s.len()) == rank(s, i, n) + (if x.at < s[i].at {
            1nat
        } else {
            0
        }));
        rank_of_prefix(s, t, i, n);
        let r = rank(t, i, n);
        let p = up_to(q, x.at as int);
        up_to_splits(q, x.at as int);
        assert(q[r as int] == s[i]);
        if x.at < s[i].at {
            assert(r >= p);
            assert(sorted(s)[r as int + 1] == q[r as int]);
        } else {
            assert(r < p) by {
                if r >= p {
                    assert(q[r as int].at > x.at);
                }
            }
            assert(sorted(s)[r as int] == q[r as int]);
        }
    }
}

/// Sorting puts stops in order of position, and is over when they are.
pub proof fn sorting_orders(s: Seq<Stop>)
    ensures
        in_order(sorted(s)),
        sorted(s).len() == s.len(),
        in_order(s) ==> sorted(s) == s,
    decreases s.len(),
{
    if s.len() > 0 {
        let t = s.drop_last();
        sorting_orders(t);
        inserted_is(sorted(t), s.last());
        if in_order(s) {
            assert(in_order(t)) by {
                assert forall|i: int, j: int| 0 <= i <= j < t.len() implies t[i].at <= t[j].at by {
                    assert(s[i].at <= s[j].at);
                }
            }
            if t.len() > 0 {
                assert(s[t.len() - 1].at <= s[s.len() - 1].at);
            }
            assert(sorted(s) =~= s);
        }
    }
}

fn insert_stop(s: &mut Vec<Stop>, x: Stop)
    ensures
        final(s)@ == inserted(old(s)@, x),
    decreases old(s)@.len(),
{
    let n: usize = s.len();
    if n == 0 || s[n - 1].at <= x.at {
        s.push(x);
    } else {
        let ghost before = s@;
        match s.pop() {
            Some(last) => {
                assert(s@ =~= before.drop_last());
                insert_stop(s, x);
                s.push(last);
            },
            None => {},
        }
    }
}

/// The stops in order of position.
pub fn sort(v: &Vec<Stop>) -> (s: Vec<Stop>)
    ensures
        s@ == sorted(v@),
{
    let mut s: Vec<Stop> = Vec::new();
    let mut i: usize = 0;
    assert(v@.take(0) =~= Seq::empty());
    assert(s@ =~= Seq::empty());
    while i < v.len()
        invariant
            i <= v@.len(),
            s@ == sorted(v@.take(i as int)),
        decreases v@.len() - i,
    {
        assert(v@.take(i + 1).drop_last() =~= v@.take(i as int));
        insert_stop(&mut s, v[i]);
        i += 1;
    }
    assert(v@.take(i as int) =~= v@);
    s
}

fn rank_of(v: &Vec<Stop>, i: usize) -> (r: usize)
    requires
        i < v@.len(),
    ensures
        r == rank(v@, i as int, v@.len()),
{
    let mut r: usize = 0;
    let mut k: usize = 0;
    while k < v.len()
        invariant
            k <= v@.len(),
            i < v@.len(),
            r == rank(v@, i as int, k as nat),
            r <= k,
        decreases v@.len() - k,
    {
        if k != i && (v[k].at < v[i].at || (v[k].at == v[i].at && k < i)) {
            r += 1;
        }
        k += 1;
    }
    r
}

/// The farthest a control point may be dragged.
pub const LAST_STOP: i64 = 999_000_000;

/// A position a control point may have.
pub open spec fn held(at: int) -> int {
    if at < 0 {
        0
    } else if at > LAST_STOP {
        LAST_STOP as int
    } else {
        at
    }
}

// ---- a palette -----------------------------------------------------------

/// Where on its underlying gradient a palette is read for position `t`: shifted
/// and, backward, mirrored; then wrapped where it wraps and held at the ends
/// where it does not.
pub open spec fn read_at(p: PaletteModel, t: int) -> int {
    let u = if p.reverse {
        p.rotate - t
    } else {
        t - p.rotate
    };
    if p.cyclic {
        u % (UNIT as int)
    } else if u < 0 {
        0
    } else if u > UNIT {
        UNIT as int
    } else {
        u
    }
}

/// What a palette reads at a position.
#[derive(Clone, Copy, Debug, PartialEq, Eq, Structural)]
pub enum Reading {
    /// White, where there is no colour at all.
    White,
    /// A colour as it is.
    Flat(Ink),
    /// So many `of` parts of the way from one colour to another.
    Mixed { from: Ink, to: Ink, part: i64, of: i64 },
    /// The formula at a position.
    Formula { cosine: Cosine, at: i64 },
}

/// The way from one stop to another, so far from where it starts: all of it
/// begins at the first where the two are at one position.
pub open spec fn between(a: Stop, b: Stop, from: int, len: int) -> Reading {
    Reading::Mixed {
        from: a.color,
        to: b.color,
        part: if len <= 1000 || from <= 0 {
            0
        } else if from > len {
            len as i64
        } else {
            from as i64
        },
        of: if len <= 1000 {
            1
        } else {
            len as i64
        },
    }
}

/// What stops read at `t`.
pub open spec fn stops_reading(s: Seq<Stop>, cyclic: bool, t: int) -> Reading {
    let n = s.len() as int;
    let i = up_to(s, t) as int;
    if n == 0 {
        Reading::White
    } else if n == 1 {
        Reading::Flat(s[0].color)
    } else if i == 0 {
        if cyclic {
            between(s[n - 1], s[0], t - (s[n - 1].at - UNIT), s[0].at + UNIT - s[n - 1].at)
        } else {
            Reading::Flat(s[0].color)
        }
    } else if i == n {
        if cyclic {
            between(s[n - 1], s[0], t - s[n - 1].at, s[0].at + UNIT - s[n - 1].at)
        } else {
            Reading::Flat(s[n - 1].color)
        }
    } else {
        between(s[i - 1], s[i], t - s[i - 1].at, s[i].at - s[i - 1].at)
    }
}

/// What a body reads at `t`, from the beginning up to the end.
pub open spec fn body_reading(b: BodyModel, cyclic: bool, t: int) -> Reading {
    match b {
        BodyModel::Cosine(c) => Reading::Formula { cosine: c, at: t as i64 },
        BodyModel::Entries(e) => {
            let i = t * 256 / (UNIT as int);
            Reading::Flat(
                e[if i < 256 {
                    i
                } else if cyclic {
                    i % 256
                } else {
                    255
                }],
            )
        },
        BodyModel::Stops(s) => stops_reading(s, cyclic, t),
    }
}

/// A position that can be moved along and measured from.
pub open spec fn is_position(at: int) -> bool {
    -1_000_000_000_000_000_000 <= at <= 1_000_000_000_000_000_000
}

/// A palette that can be read: its entries are 256, and its stops are in
/// order.
pub open spec fn readable(p: PaletteModel) -> bool {
    &&& is_position(p.rotate)
    &&& match p.body {
        BodyModel::Stops(s) => in_order(s) && forall|i: int|
            0 <= i < s.len() ==> is_position((#[trigger] s[i]).at as int),
        BodyModel::Entries(e) => e.len() == 256,
        BodyModel::Cosine(_) => true,
    }
}

/// What a description says of a body.
pub open spec fn body_text(b: BodyModel) -> Seq<char> {
    match b {
        BodyModel::Stops(s) => text::decimal(s.len()) + " stops"@,
        BodyModel::Entries(_) => "256 entries"@,
        BodyModel::Cosine(_) => "cosine"@,
    }
}

/// A text where a condition holds, and nothing where it does not.
pub open spec fn when(holds: bool, t: Seq<char>) -> Seq<char> {
    if holds {
        t
    } else {
        Seq::empty()
    }
}

/// The name of a palette and what it is made of.
pub open spec fn title(p: PaletteModel) -> Seq<char> {
    match p.name {
        Some(n) => n + " ("@ + body_text(p.body) + ")"@,
        None => body_text(p.body),
    }
}

/// What a description says of a shift.
pub open spec fn shift_text(rotate: int) -> Seq<char> {
    when(rotate != 0, ", rotate "@ + quantity::plain_text(rotate, 3))
}

/// A short description of a palette.
pub open spec fn description(p: PaletteModel) -> Seq<char> {
    title(p) + when(!p.cyclic, ", clamped"@) + when(
        p.interpolate == Interpolate::Oklab,
        ", oklab"@,
    ) + shift_text(p.rotate) + when(p.reverse, ", reversed"@)
}

fn push_when(out: &mut String, holds: bool, t: &str)
    ensures
        final(out)@ == old(out)@ + when(holds, t@),
{
    if holds {
        out.append(t);
    }
    assert(out@ =~= old(out)@ + when(holds, t@));
}

fn push_body(out: &mut String, body: &Body)
    ensures
        final(out)@ == old(out)@ + body_text(body@),
{
    match body {
        Body::Stops(v) => {
            text::push_decimal(out, v.len() as u128);
            out.append(" stops");
        },
        Body::Entries(_) => out.append("256 entries"),
        Body::Cosine(_) => out.append("cosine"),
    }
    assert(out@ =~= old(out)@ + body_text(body@));
}

fn push_shift(out: &mut String, rotate: i64)
    ensures
        final(out)@ == old(out)@ + shift_text(rotate as int),
{
    if rotate != 0 {
        out.append(", rotate ");
        quantity::push_plain(out, rotate, 3);
    }
    assert(out@ =~= old(out)@ + shift_text(rotate as int));
}

impl Palette {
    fn plain_of(body: Body) -> (p: Palette)
        ensures
            p@ == plain(body@),
    {
        Palette {
            name: None,
            body,
            cyclic: true,
            interpolate: Interpolate::Rgb,
            rotate: 0,
            reverse: false,
        }
    }

    /// The gradient of a scene without a palette: its transforms' colours
    /// spread evenly around a ring.
    pub fn from_transform_colors(colors: &Vec<Ink>) -> (p: Palette)
        requires
            colors@.len() <= 0x1_0000_0000,
        ensures
            p@.body is Stops,
            p@ == plain(p@.body),
            p@.body->Stops_0.len() == colors@.len(),
            forall|i: int|
                0 <= i < colors@.len() ==> #[trigger] p@.body->Stops_0[i] == (Stop {
                    at: (i * UNIT / (colors@.len() as int)) as i64,
                    color: colors@[i],
                }),
    {
        let n: usize = colors.len();
        let mut stops: Vec<Stop> = Vec::new();
        let mut i: usize = 0;
        while i < n
            invariant
                i <= n,
                n == colors@.len(),
                n <= 0x1_0000_0000,
                stops@.len() == i,
                forall|k: int|
                    0 <= k < i ==> #[trigger] stops@[k] == (Stop {
                        at: (k * UNIT / (n as int)) as i64,
                        color: colors@[k],
                    }),
            decreases n - i,
        {
            let whole: u64 = i as u64;
            assert(0 <= whole * UNIT <= 0x1_0000_0000 * 1_000_000_000) by (nonlinear_arith)
                requires
                    0 <= whole <= 0x1_0000_0000,
                    UNIT == 1_000_000_000,
            ;
            let at: u64 = whole * UNIT / n as u64;
            assert(at < UNIT) by (nonlinear_arith)
                requires
                    at == whole * UNIT / (n as int),
                    whole < n,
                    UNIT == 1_000_000_000,
                    n > 0,
            ;
            stops.push(Stop { at: at as i64, color: colors[i] });
            i += 1;
        }
        Palette::plain_of(Body::Stops(stops))
    }

    /// A palette from stops, in order.
    pub fn from_stops(stops: &Vec<Stop>) -> (p: Palette)
        ensures
            p@ == plain(BodyModel::Stops(sorted(stops@))),
    {
        Palette::plain_of(Body::Stops(sort(stops)))
    }

    /// A palette from explicit entries.
    pub fn from_entries(entries: Vec<Ink>) -> (p: Palette)
        ensures
            p@ == plain(BodyModel::Entries(entries@)),
    {
        Palette::plain_of(Body::Entries(entries))
    }

    /// A palette from a formula.
    pub fn from_cosine(cosine: Cosine) -> (p: Palette)
        ensures
            p@ == plain(BodyModel::Cosine(cosine)),
    {
        Palette::plain_of(Body::Cosine(cosine))
    }

    /// The stops, if this palette has any.
    pub fn stops(&self) -> (s: Option<&Vec<Stop>>)
        ensures
            match self@.body {
                BodyModel::Stops(v) => s is Some && (s->0)@ == v,
                _ => s is None,
            },
    {
        match &self.body {
            Body::Stops(s) => Some(s),
            _ => None,
        }
    }

    /// The stops to be edited, if this palette has any: what they are set to
    /// is what the palette then has, and nothing else of it changes.
    pub fn stops_mut(&mut self) -> (s: Option<&mut Vec<Stop>>)
        ensures
            s is Some <==> old(self)@.body is Stops,
            match s {
                Some(v) => {
                    &&& BodyModel::Stops(v@) == old(self)@.body
                    &&& final(self)@ == (PaletteModel {
                        body: BodyModel::Stops(final(v)@),
                        ..old(self)@
                    })
                },
                None => final(self)@ == old(self)@,
            },
    {
        match &mut self.body {
            Body::Stops(s) => Some(s),
            _ => None,
        }
    }

    /// Put the stops in order again after an edit.
    pub fn sort_stops(&mut self)
        ensures
            final(self)@ == (PaletteModel {
                body: match old(self)@.body {
                    BodyModel::Stops(s) => BodyModel::Stops(sorted(s)),
                    b => b,
                },
                ..old(self)@
            }),
    {
        if let Body::Stops(s) = &self.body {
            let t = sort(s);
            self.body = Body::Stops(t);
        }
    }

    /// Move control point `idx` to position `at`, and say where it ended up:
    /// moving one past its neighbour renumbers both, and a caller in the
    /// middle of a drag needs to keep hold of the one it grabbed.
    pub fn move_stop(&mut self, idx: usize, at: i64) -> (landed: usize)
        ensures
            match old(self)@.body {
                BodyModel::Stops(s) if idx < s.len() => {
                    let moved = s.update(idx as int, Stop { at: held(at as int) as i64, ..s[idx as int] });
                    &&& final(self)@ == (PaletteModel {
                        body: BodyModel::Stops(sorted(moved)),
                        ..old(self)@
                    })
                    &&& landed == rank(moved, idx as int, moved.len())
                    &&& landed < s.len()
                    &&& sorted(moved)[landed as int] == moved[idx as int]
                    &&& in_order(sorted(moved))
                },
                _ => *final(self) == *old(self) && landed == idx,
            },
    {
        let mut moved: Vec<Stop> = Vec::new();
        match &self.body {
            Body::Stops(s) => {
                if idx >= s.len() {
                    return idx;
                }
                let to: i64 = if at < 0 {
                    0
                } else if at > LAST_STOP {
                    LAST_STOP
                } else {
                    at
                };
                let mut i: usize = 0;
                while i < s.len()
                    invariant
                        i <= s@.len(),
                        idx < s@.len(),
                        moved@ == s@.update(
                            idx as int,
                            Stop { at: to, ..s@[idx as int] },
                        ).take(i as int),
                    decreases s@.len() - i,
                {
                    let ghost all = s@.update(idx as int, Stop { at: to, ..s@[idx as int] });
                    let stop = if i == idx {
                        Stop { at: to, color: s[i].color }
                    } else {
                        s[i]
                    };
                    moved.push(stop);
                    i += 1;
                    assert(moved@ =~= all.take(i as int));
                }
                assert(moved@ =~= s@.update(idx as int, Stop { at: to, ..s@[idx as int] }));
            },
            _ => {
                return idx;
            },
        }
        let landed: usize = rank_of(&moved, idx);
        let stops = sort(&moved);
        proof {
            stops_land_by_rank(moved@, idx as int);
        }
        self.body = Body::Stops(stops);
        landed
    }

    /// A short description, for reports.
    pub fn describe(&self) -> (s: String)
        ensures
            s@ == description(self@),
    {
        let mut s = String::new();
        match &self.name {
            Some(n) => {
                s.append(n.as_str());
                s.append(" (");
                push_body(&mut s, &self.body);
                s.append(")");
            },
            None => {
                push_body(&mut s, &self.body);
            },
        }
        assert(s@ =~= title(self@));
        push_when(&mut s, !self.cyclic, ", clamped");
        push_when(&mut s, self.interpolate == Interpolate::Oklab, ", oklab");
        push_shift(&mut s, self.rotate);
        push_when(&mut s, self.reverse, ", reversed");
        s
    }

    /// What the palette reads at position `t`, backward and shifted as it is.
    pub fn sample(&self, t: i64) -> (r: Reading)
        requires
            readable(self@),
            is_position(t as int),
        ensures
            r == body_reading(self@.body, self.cyclic, read_at(self@, t as int)),
    {
        let u: i64 = if self.reverse {
            self.rotate - t
        } else {
            t - self.rotate
        };
        let unit: i64 = UNIT as i64;
        let at: i64 = if self.cyclic {
            let f = crate::num::floor_divide(u, unit);
            f.1
        } else if u < 0 {
            0
        } else if u > unit {
            unit
        } else {
            u
        };
        assert(at == read_at(self@, t as int));
        match &self.body {
            Body::Cosine(c) => Reading::Formula { cosine: *c, at },
            Body::Entries(e) => {
                let i: i64 = at * 256 / unit;
                let k: usize = if i < 256 {
                    i as usize
                } else if self.cyclic {
                    (i % 256) as usize
                } else {
                    255
                };
                Reading::Flat(e[k])
            },
            Body::Stops(s) => sample_stops(s, self.cyclic, at),
        }
    }

    /// The 256 readings that fill a colour map.
    pub fn to_colormap(&self) -> (map: Vec<Reading>)
        requires
            readable(self@),
        ensures
            map@.len() == 256,
            forall|i: int|
                0 <= i < 256 ==> #[trigger] map@[i] == body_reading(
                    self@.body,
                    self.cyclic,
                    read_at(self@, i * 3_906_250),
                ),
    {
        let mut map: Vec<Reading> = Vec::new();
        let mut i: i64 = 0;
        while i < 256
            invariant
                0 <= i <= 256,
                readable(self@),
                map@.len() == i,
                forall|k: int|
                    0 <= k < i ==> #[trigger] map@[k] == body_reading(
                        self@.body,
                        self.cyclic,
                        read_at(self@, k * 3_906_250),
                    ),
            decreases 256 - i,
        {
            map.push(self.sample(i * 3_906_250));
            i += 1;
        }
        map
    }

    /// Freeze a palette into editable stops at even positions, from the
    /// colours it has there; two at least.
    pub fn to_stops(&self, colors: &Vec<Ink>) -> (p: Palette)
        requires
            2 <= colors@.len() <= 0x1_0000_0000,
        ensures
            p@.body is Stops,
            p@ == (PaletteModel { body: p@.body, rotate: 0, reverse: false, ..self@ }),
            p@.body->Stops_0.len() == colors@.len(),
            forall|i: int|
                0 <= i < colors@.len() ==> #[trigger] p@.body->Stops_0[i] == (Stop {
                    at: (i * UNIT / (colors@.len() as int)) as i64,
                    color: colors@[i],
                }),
    {
        let ring = Palette::from_transform_colors(colors);
        let name = match &self.name {
            Some(n) => {
                let mut s = String::new();
                s.append(n.as_str());
                assert(s@ =~= n@);
                Some(s)
            },
            None => None,
        };
        Palette {
            name,
            body: ring.body,
            cyclic: self.cyclic,
            interpolate: self.interpolate,
            rotate: 0,
            reverse: false,
        }
    }
}

/// The sum of the first `n` numbers.
pub open spec fn sum(s: Seq<i64>, n: nat) -> int
    decreases n,
{
    if n == 0 {
        0
    } else {
        sum(s, (n - 1) as nat) + s[n - 1]
    }
}

/// The mean of a gradient's brightness and how far it swings, given its
/// brightness at even places.
pub fn luminance_profile(l: &Vec<i64>) -> (r: (i64, i64))
    requires
        0 < l@.len() <= 0x1_0000_0000,
        forall|i: int| 0 <= i < l@.len() ==> 0 <= (#[trigger] l@[i]),
    ensures
        r.0 == sum(l@, l@.len()) / l@.len() as int,
        exists|i: int, j: int|
            0 <= i < l@.len() && 0 <= j < l@.len() && r.1 == #[trigger] l@[i] - #[trigger] l@[j]
                && forall|k: int| 0 <= k < l@.len() ==> l@[j] <= (#[trigger] l@[k]) <= l@[i],
{
    let n: usize = l.len();
    let mut total: i128 = 0;
    let mut most: usize = 0;
    let mut least: usize = 0;
    let mut i: usize = 0;
    while i < n
        invariant
            i <= n == l@.len() <= 0x1_0000_0000,
            0 < n,
            most < n,
            least < n,
            forall|k: int| 0 <= k < l@.len() ==> 0 <= (#[trigger] l@[k]),
            total == sum(l@, i as nat),
            0 <= total <= 0x7FFF_FFFF_FFFF_FFFF * i,
            forall|k: int| 0 <= k < i ==> l@[least as int] <= (#[trigger] l@[k]) <= l@[most as int],
        decreases n - i,
    {
        assert(0 <= l@[i as int]);
        total += l[i] as i128;
        if l[i] > l[most] {
            most = i;
        }
        if l[i] < l[least] {
            least = i;
        }
        i += 1;
    }
    assert(0 <= l@[most as int] && 0 <= l@[least as int]);
    assert(l@[least as int] <= l@[0] <= l@[most as int]);
    let mean: i128 = total / n as i128;
    assert(0 <= mean <= 0x7FFF_FFFF_FFFF_FFFF) by (nonlinear_arith)
        requires
            mean == total as int / n as int,
            0 <= total <= 0x7FFF_FFFF_FFFF_FFFF * n,
            n > 0,
    ;
    (mean as i64, l[most] - l[least])
}

/// How many stops to freeze a palette into: what was asked, and two at least.
pub fn stops_to_take(n: usize) -> (m: usize)
    ensures
        m == (if n < 2 {
            2
        } else {
            n as int
        }),
{
    if n < 2 {
        2
    } else {
        n
    }
}

impl Default for Palette {
    fn default() -> (p: Palette)
        ensures
            p@ == plain(BodyModel::Stops(Seq::empty())),
    {
        let stops: Vec<Stop> = Vec::new();
        assert(stops@ =~= Seq::empty());
        Palette::plain_of(Body::Stops(stops))
    }
}

fn span(a: Stop, b: Stop, from: i64, len: i64) -> (r: Reading)
    ensures
        r == between(a, b, from as int, len as int),
{
    let part: i64 = if len <= 1000 || from <= 0 {
        0
    } else if from > len {
        len
    } else {
        from
    };
    let of: i64 = if len <= 1000 {
        1
    } else {
        len
    };
    Reading::Mixed { from: a.color, to: b.color, part, of }
}

fn sample_stops(s: &Vec<Stop>, cyclic: bool, t: i64) -> (r: Reading)
    requires
        in_order(s@),
        forall|i: int| 0 <= i < s@.len() ==> is_position((#[trigger] s@[i]).at as int),
        0 <= t <= UNIT,
    ensures
        r == stops_reading(s@, cyclic, t as int),
{
    let n: usize = s.len();
    if n == 0 {
        return Reading::White;
    }
    if n == 1 {
        return Reading::Flat(s[0].color);
    }
    let unit: i64 = UNIT as i64;
    let mut i: usize = 0;
    proof {
        up_to_splits(s@, t as int);
    }
    while i < n && s[i].at <= t
        invariant
            i <= n,
            n == s@.len(),
            i <= up_to(s@, t as int) <= n,
            forall|k: int| 0 <= k < up_to(s@, t as int) ==> (#[trigger] s@[k]).at <= t,
            forall|k: int| up_to(s@, t as int) <= k < n ==> (#[trigger] s@[k]).at > t,
        decreases n - i,
    {
        i += 1;
    }
    assert(i == up_to(s@, t as int));
    let first = s[0];
    let last = s[n - 1];
    if i == 0 {
        if cyclic {
            span(last, first, t - (last.at - unit), first.at + unit - last.at)
        } else {
            Reading::Flat(first.color)
        }
    } else if i == n {
        if cyclic {
            span(last, first, t - last.at, first.at + unit - last.at)
        } else {
            Reading::Flat(last.color)
        }
    } else {
        span(s[i - 1], s[i], t - s[i - 1].at, s[i].at - s[i - 1].at)
    }
}

/// A whole turn of the shift changes nothing.
pub proof fn a_full_turn_is_the_identity(p: PaletteModel, t: int)
    requires
        p.cyclic,
    ensures
        read_at(PaletteModel { rotate: p.rotate + UNIT, ..p }, t) == read_at(p, t),
{
    let m = UNIT as int;
    if p.reverse {
        vstd::arithmetic::div_mod::lemma_mod_add_multiples_vanish(p.rotate - t, m);
        assert(p.rotate + m - t == m + (p.rotate - t));
    } else {
        vstd::arithmetic::div_mod::lemma_mod_sub_multiples_vanish(t - p.rotate, m);
        assert(t - (p.rotate + m) == -m + (t - p.rotate));
    }
}

/// Shifting a gradient reads what was that far back.
pub proof fn rotating_shifts_forward(p: PaletteModel, d: int, t: int)
    requires
        !p.reverse,
    ensures
        read_at(PaletteModel { rotate: p.rotate + d, ..p }, t) == read_at(p, t - d),
{
}

/// Backward reads the mirror image.
pub proof fn reversing_mirrors(p: PaletteModel, t: int)
    requires
        !p.reverse,
        p.rotate == 0,
    ensures
        read_at(PaletteModel { reverse: true, ..p }, t) == read_at(p, -t),
{
}

/// A palette that does not wrap holds its end colours past its end stops.
pub proof fn a_clamped_palette_holds_its_ends(s: Seq<Stop>, t: int)
    requires
        s.len() >= 2,
        in_order(s),
    ensures
        t < s[0].at ==> stops_reading(s, false, t) == Reading::Flat(s[0].color),
        t >= s.last().at ==> stops_reading(s, false, t) == Reading::Flat(s.last().color),
{
    up_to_splits(s, t);
    if t < s[0].at {
        assert(up_to(s, t) == 0) by {
            if up_to(s, t) > 0 {
                assert(s[0].at <= t);
            }
        }
    }
    if t >= s.last().at {
        assert(up_to(s, t) == s.len()) by {
            if up_to(s, t) < s.len() {
                assert(s[s.len() - 1].at > t);
            }
        }
    }
}

/// A stop reads as its own colour: the way from it has only begun.
pub proof fn a_stop_lands_on_its_own_colour(s: Seq<Stop>, cyclic: bool, i: int)
    requires
        s.len() >= 2,
        in_order(s),
        0 <= i < s.len(),
        i + 1 < s.len() ==> s[i].at < s[i + 1].at,
        cyclic || i + 1 < s.len(),
    ensures
        stops_reading(s, cyclic, s[i].at as int) matches Reading::Mixed { from, part, .. } && from
            == s[i].color && part == 0,
{
    let t = s[i].at as int;
    up_to_splits(s, t);
    let p = up_to(s, t);
    assert(p == i + 1) by {
        if p <= i {
            assert(s[i].at > t);
        }
        if p > i + 1 {
            assert(s[i + 1].at <= t);
        }
    }
}

/// Between two stops a gradient goes from the one's colour to the other's, as far
/// as the position lies between theirs.
pub proof fn a_position_is_read_between_its_stops(s: Seq<Stop>, cyclic: bool, t: int, i: int)
    requires
        in_order(s),
        0 <= i,
        i + 1 < s.len(),
        s[i].at <= t < s[i + 1].at,
        1000 < s[i + 1].at - s[i].at <= i64::MAX,
    ensures
        stops_reading(s, cyclic, t) matches Reading::Mixed { from, to, part, of } && from
            == s[i].color && to == s[i + 1].color && part == t - s[i].at && of == s[i + 1].at
            - s[i].at,
{
    up_to_splits(s, t);
    let p = up_to(s, t);
    assert(p == i + 1) by {
        if p <= i {
            assert(s[i].at > t);
        }
        if p > i + 1 {
            assert(s[i + 1].at <= t);
        }
    }
}

/// Past its last stop and before its first one a cyclic gradient goes from the
/// last colour to the first, through the seam.
pub proof fn a_cyclic_gradient_goes_through_its_seam(s: Seq<Stop>, t: int)
    requires
        in_order(s),
        s.len() >= 2,
        0 <= s[0].at,
        s.last().at < UNIT,
        0 <= t <= UNIT,
        t < s[0].at || t >= s.last().at,
        s[0].at + UNIT - s.last().at > 1000,
    ensures
        stops_reading(s, true, t) matches Reading::Mixed { from, to, part, of } && from
            == s.last().color && to == s[0].color && of == s[0].at + UNIT - s.last().at && (t
            >= s.last().at ==> part == num_least(t - s.last().at, of as int)) && (t < s[0].at
            ==> part == t + UNIT - s.last().at),
{
    up_to_splits(s, t);
    let (p, n) = (up_to(s, t), s.len());
    assert(s[0].at <= s[n - 1].at);
    assert(s.last() == s[n - 1]);
    if t < s[0].at {
        assert(p == 0) by {
            if p > 0 {
                assert(s[0].at <= t);
            }
        }
    } else {
        assert(p == n) by {
            if p < n {
                assert(s[p as int].at > t);
                assert(s[p as int].at <= s[n - 1].at);
            }
        }
    }
}

/// The smaller of two numbers.
pub open spec fn num_least(a: int, b: int) -> int {
    if a < b {
        a
    } else {
        b
    }
}

/// Two stops that are as good as in one place are a hard edge.
pub proof fn close_stops_are_a_hard_edge(a: Stop, b: Stop, from: int, len: int)
    requires
        len <= 1000,
    ensures
        between(a, b, from, len) matches Reading::Mixed { from, part, of, .. } && from == a.color
            && part == 0 && of > 0,
{
}

/// A palette as it comes is read where it is asked to be, a cyclic one round and
/// round and another one held at its ends. Backward it is read from where its
/// shift has put its beginning.
pub proof fn a_palette_is_read_where_asked(p: PaletteModel, t: int)
    ensures
        !p.reverse && p.rotate == 0 && 0 <= t < UNIT ==> read_at(p, t) == t,
        !p.reverse && p.rotate == 0 && !p.cyclic ==> (t <= 0 ==> read_at(p, t) == 0) && (t >= UNIT
            ==> read_at(p, t) == UNIT),
        p.cyclic ==> read_at(p, t + UNIT) == read_at(p, t) && 0 <= read_at(p, t) < UNIT,
        p.reverse ==> read_at(p, t) == read_at(
            PaletteModel { reverse: false, rotate: 0, ..p },
            p.rotate - t,
        ),
{
    if p.cyclic {
        let u = if p.reverse {
            p.rotate - t
        } else {
            t - p.rotate
        };
        let v = if p.reverse {
            u - UNIT
        } else {
            u + UNIT
        };
        assert(v % (UNIT as int) == u % (UNIT as int));
    }
}

/// An entry covers its 256th of the way, and the end is the beginning again
/// where the palette is cyclic.
pub proof fn an_entry_covers_its_part(e: Seq<Ink>, cyclic: bool, t: int, i: int)
    requires
        e.len() == 256,
        0 <= i < 256,
    ensures
        i * UNIT <= 256 * t < (i + 1) * UNIT ==> body_reading(BodyModel::Entries(e), cyclic, t)
            == Reading::Flat(e[i]),
        body_reading(BodyModel::Entries(e), true, UNIT as int) == Reading::Flat(e[0]),
        body_reading(BodyModel::Entries(e), false, UNIT as int) == Reading::Flat(e[255]),
{
}

/// A stop that is moved stays from the beginning to just short of the end, and
/// goes where it is moved to in between.
pub proof fn a_moved_stop_is_held_short_of_the_end(at: int)
    ensures
        0 <= at <= 999_000_000 ==> held(at) == at,
        at < 0 ==> held(at) == 0,
        at > 999_000_000 ==> held(at) == 999_000_000,
{
}

} // verus!
