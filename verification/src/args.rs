//! What the command line asks for: reading its values, and deciding what a run
//! does with them.

use crate::filename;
use crate::grade_file::GradeBuffer;
use crate::grading::GradeAxis;
use crate::num;
use crate::number;
use crate::offline::UNIT;
use crate::palette::library;
use crate::palette::random::Generator;
use crate::palette::{Interpolate, Palette, PaletteModel};
use crate::quantity;
use crate::quantity::Color;
use crate::scene::ZoomSpec;
use crate::text;
use crate::tiles::GridMode;
use vstd::prelude::*;

verus! {

// ---- effort ----------------------------------------------------------------

/// Size tiers for offline rendering.
#[derive(Clone, Copy, Debug, PartialEq, Eq, Structural)]
pub enum Effort {
    Tiny,
    Small,
    Medium,
    Large,
    Huge,
}

/// The fewest points a tier is backed with.
pub const LEAST_POINTS: u64 = 1_000_000;

/// The most points where samples accumulate: a working set.
pub const WORKING_SET: u64 = 20_000_000;

/// The most points where the buffer is the sample count.
pub const LARGEST_BUFFER: u64 = 100_000_000;

impl Effort {
    /// Samples to an output pixel: decades from one to ten thousand.
    pub open spec fn density(self) -> nat {
        match self {
            Effort::Tiny => 1,
            Effort::Small => 10,
            Effort::Medium => 100,
            Effort::Large => 1_000,
            Effort::Huge => 10_000,
        }
    }

    /// The word for a tier.
    pub open spec fn name_text(self) -> Seq<char> {
        match self {
            Effort::Tiny => "Tiny"@,
            Effort::Small => "Small"@,
            Effort::Medium => "Medium"@,
            Effort::Large => "Large"@,
            Effort::Huge => "Huge"@,
        }
    }

    /// Samples to an output pixel.
    pub fn spp(self) -> (n: u32)
        ensures
            n == self.density(),
            1 <= n <= 10_000,
    {
        match self {
            Effort::Tiny => 1,
            Effort::Small => 10,
            Effort::Medium => 100,
            Effort::Large => 1_000,
            Effort::Huge => 10_000,
        }
    }

    fn name(self) -> (s: &'static str)
        ensures
            s@ == self.name_text(),
    {
        match self {
            Effort::Tiny => "Tiny",
            Effort::Small => "Small",
            Effort::Medium => "Medium",
            Effort::Large => "Large",
            Effort::Huge => "Huge",
        }
    }

    /// The points that a tier is backed with.
    pub open spec fn buffer(self, pixels: nat, accumulating: bool) -> nat {
        let want = self.density() * pixels;
        let cap = if accumulating {
            WORKING_SET as nat
        } else {
            LARGEST_BUFFER as nat
        };
        if want < LEAST_POINTS {
            LEAST_POINTS as nat
        } else if want > cap {
            cap
        } else {
            want
        }
    }

    /// The points to back a tier with.
    pub fn points(self, pixels: u64, accumulating: bool) -> (n: usize)
        requires
            self.density() * pixels <= u64::MAX,
        ensures
            n == self.buffer(pixels as nat, accumulating),
    {
        let want: u64 = self.spp() as u64 * pixels;
        let cap: u64 = if accumulating {
            WORKING_SET
        } else {
            LARGEST_BUFFER
        };
        if want < LEAST_POINTS {
            LEAST_POINTS as usize
        } else if want > cap {
            cap as usize
        } else {
            want as usize
        }
    }

    /// Whether a buffer can hold every sample of a tier.
    pub fn reachable_without_accumulating(self, pixels: u64) -> (b: bool)
        requires
            self.density() * pixels <= u64::MAX,
        ensures
            b == (self.density() * pixels <= LARGEST_BUFFER),
    {
        self.spp() as u64 * pixels <= LARGEST_BUFFER
    }
}

/// The points that back a tier are within the cap, and where the buffer can
/// hold every sample it does, but for the smallest.
pub proof fn a_reachable_tier_is_delivered(e: Effort, pixels: nat)
    requires
        e.density() * pixels <= LARGEST_BUFFER,
    ensures
        e.buffer(pixels, false) >= e.density() * pixels,
        e.buffer(pixels, false) <= LARGEST_BUFFER,
        e.buffer(pixels, true) <= WORKING_SET,
{
}

/// What a render asks for that bears on its sample count.
#[derive(Clone, Copy, Debug, PartialEq, Eq)]
pub struct Sampled {
    pub width: u32,
    pub height: u32,
    /// Whether the splat renderer draws it.
    pub splat: bool,
    pub effort: Option<Effort>,
    /// Samples to a pixel.
    pub spp: Option<u32>,
    /// Points in the buffer.
    pub points: Option<usize>,
}

/// How many pixels a render has.
pub open spec fn pixels_of(s: Sampled) -> nat {
    (s.width * s.height) as nat
}

/// Whether a render accumulates samples: where it is told how many, or where a
/// tier is asked for that the renderer can accumulate.
pub open spec fn accumulates(s: Sampled) -> bool {
    s.spp is Some || (s.effort is Some && s.splat)
}

/// The points of a render, if it says: a count that is given, or the tier's.
pub open spec fn points_asked(s: Sampled) -> Option<usize> {
    match (s.points, s.effort) {
        (Some(n), _) => Some(n),
        (None, Some(e)) => Some(e.buffer(pixels_of(s), accumulates(s)) as usize),
        (None, None) => None,
    }
}

/// The samples to a pixel of a render, if it says: a number that is given, or
/// the tier's where samples can accumulate.
pub open spec fn spp_asked(s: Sampled) -> Option<u32> {
    match (s.spp, s.effort) {
        (Some(n), _) => Some(n),
        (None, Some(e)) => if s.splat {
            Some(e.density() as u32)
        } else {
            None
        },
        (None, None) => None,
    }
}

/// What is said of a tier that the renderer cannot deliver.
pub open spec fn effort_note(e: Effort, s: Sampled) -> Seq<char> {
    "note: --effort "@ + e.name_text() + " is "@ + text::decimal(e.density())
        + " samples/px, which at "@ + text::decimal(s.width as nat) + "x"@ + text::decimal(
        s.height as nat,
    ) + " needs a "@ + text::decimal(e.density() * pixels_of(s) / 1_000_000)
        + "M point buffer \u{2014} past the 100M cap. The points renderer has no histogram to accumulate into, so this renders at the cap. Use --splat for the real tier."@
}

/// Whether a render asks for a tier that it cannot have.
pub open spec fn falls_short(s: Sampled) -> bool {
    s.effort matches Some(e) && !s.splat && e.density() * pixels_of(s) > LARGEST_BUFFER
}

/// What a render samples.
pub struct Sampling {
    pub points: Option<usize>,
    pub spp: Option<u32>,
    /// What to say before it starts.
    pub note: Option<String>,
}

fn note_for(e: Effort, s: Sampled, pixels: u64) -> (n: String)
    requires
        pixels == pixels_of(s),
        e.density() * pixels <= u64::MAX,
    ensures
        n@ == effort_note(e, s),
{
    let want: u64 = e.spp() as u64 * pixels;
    let mut n = text::owned("note: --effort ");
    n.append(e.name());
    n.append(" is ");
    text::push_decimal(&mut n, e.spp() as u128);
    n.append(" samples/px, which at ");
    text::push_decimal(&mut n, s.width as u128);
    n.append("x");
    text::push_decimal(&mut n, s.height as u128);
    n.append(" needs a ");
    text::push_decimal(&mut n, (want / 1_000_000) as u128);
    n.append(
        "M point buffer \u{2014} past the 100M cap. The points renderer has no histogram to accumulate into, so this renders at the cap. Use --splat for the real tier.",
    );
    n
}

/// What a render samples. Flags win over the tier.
pub fn sampling(s: Sampled) -> (r: Sampling)
    requires
        10_000 * pixels_of(s) <= u64::MAX,
    ensures
        r.points == points_asked(s),
        r.spp == spp_asked(s),
        match r.note {
            Some(n) => falls_short(s) && n@ == effort_note(s.effort->0, s),
            None => !falls_short(s),
        },
{
    let pixels: u64 = num::product(s.width, s.height);
    let ghost area = pixels_of(s);
    assert(pixels == area);
    let accumulating = s.spp.is_some() || (s.effort.is_some() && s.splat);
    let mut points = s.points;
    let mut spp = s.spp;
    let mut note: Option<String> = None;
    if let Some(e) = s.effort {
        assert(e.density() * area <= 10_000 * area) by (nonlinear_arith)
            requires
                e.density() <= 10_000,
        ;
        if points.is_none() {
            points = Some(e.points(pixels, accumulating));
        }
        if spp.is_none() && s.splat {
            spp = Some(e.spp());
        }
        if !s.splat && !e.reachable_without_accumulating(pixels) {
            note = Some(note_for(e, s, pixels));
        }
    }
    Sampling { points, spp, note }
}

// ---- values ----------------------------------------------------------------

/// The parts of a text between commas, without white space around them.
pub open spec fn comma_parts(s: Seq<char>) -> Seq<Seq<char>>
    decreases s.len(),
    via comma_parts_shrink
{
    let i = text::index_of(s, ',');
    if i >= s.len() {
        seq![text::trimmed(s)]
    } else {
        seq![text::trimmed(s.take(i))] + comma_parts(s.skip(i + 1))
    }
}

#[via_fn]
proof fn comma_parts_shrink(s: Seq<char>) {
    text::index_of_finds(s, ',');
}

fn split_commas(s: &str) -> (r: Vec<String>)
    ensures
        text::views(r@) == comma_parts(s@),
{
    let v = text::chars_of(s);
    let len: usize = v.len();
    let mut r: Vec<String> = Vec::new();
    let mut from: usize = 0;
    assert(v@.subrange(0, len as int) =~= s@);
    assert(text::views(r@) + comma_parts(s@) =~= comma_parts(s@));
    loop
        invariant_except_break
            text::views(r@) + comma_parts(v@.subrange(from as int, len as int)) == comma_parts(s@),
        invariant
            from <= len == v@.len(),
        ensures
            text::views(r@) == comma_parts(s@),
        decreases len - from,
    {
        let ghost rest = v@.subrange(from as int, len as int);
        let ghost had = text::views(r@);
        let e: usize = text::find(&v, from, len, ',');
        let ghost part = v@.subrange(from as int, e as int);
        let (b, t) = text::trim_at(&v, from, e);
        let piece = text::string_of_range(&v, b, t);
        let ghost shown = piece@;
        r.push(piece);
        assert(text::views(r@) =~= had.push(shown));
        if e == len {
            assert(part =~= rest);
            assert(had.push(shown) =~= had + seq![shown]);
            break;
        }
        assert(part =~= rest.take(e - from));
        assert(rest.skip(e - from + 1) =~= v@.subrange(e + 1, len as int));
        let ghost next = comma_parts(v@.subrange(e + 1, len as int));
        assert(had.push(shown) + next =~= had + (seq![shown] + next));
        from = e + 1;
    }
    r
}

/// The first part from `from` on that writes no number.
pub open spec fn first_bad(parts: Seq<Seq<char>>, from: int) -> Option<int>
    decreases parts.len() - from,
{
    if from >= parts.len() {
        None
    } else if number::is_number(parts[from]) {
        first_bad(parts, from + 1)
    } else {
        Some(from)
    }
}

/// What three comma-separated numbers read, each as it is written.
pub open spec fn three_numbers(s: Seq<char>) -> Result<Seq<Seq<char>>, Seq<char>> {
    let parts = comma_parts(s);
    if parts.len() != 3 {
        Err("expected three comma-separated numbers, got '"@ + s + "'"@)
    } else {
        match first_bad(parts, 0) {
            Some(i) => Err("'"@ + parts[i] + "' is not a number"@),
            None => Ok(parts),
        }
    }
}

/// Read `x,y,z`: three numbers, each as it is written.
pub fn parse_vec3(s: &str) -> (r: Result<Vec<String>, String>)
    ensures
        match three_numbers(s@) {
            Ok(v) => r is Ok && text::views((r->Ok_0)@) == v,
            Err(e) => r is Err && (r->Err_0)@ == e,
        },
{
    let parts = split_commas(s);
    let ghost all = text::views(parts@);
    if parts.len() != 3 {
        let mut e = text::owned("expected three comma-separated numbers, got '");
        e.append(s);
        e.append("'");
        return Err(e);
    }
    let mut i: usize = 0;
    while i < parts.len()
        invariant
            i <= parts@.len() == 3,
            all == text::views(parts@),
            all == comma_parts(s@),
            first_bad(all, 0) == first_bad(all, i as int),
        decreases parts@.len() - i,
    {
        assert(all[i as int] == parts@[i as int]@);
        if !number::writes_number(parts[i].as_str()) {
            let mut e = text::owned("'");
            e.append(parts[i].as_str());
            e.append("' is not a number");
            return Err(e);
        }
        i += 1;
    }
    Ok(parts)
}

/// A range to sweep: the part where something happens, or what is given, each
/// number as it is written.
pub enum SweepRange {
    Useful(i64, i64),
    Given(String, String),
}

/// What a range to sweep reads.
pub open spec fn range_of(s: Seq<char>) -> Result<(Seq<char>, Seq<char>), Seq<char>> {
    let i = text::index_of(s, ':');
    if i >= s.len() {
        Err("Invalid --grade-range '"@ + s + "': expected FROM:TO, e.g. 1:4"@)
    } else {
        let a = s.take(i);
        let b = s.skip(i + 1);
        if !number::is_number(text::trimmed(a)) {
            Err("Invalid range start '"@ + a + "'"@)
        } else if !number::is_number(text::trimmed(b)) {
            Err("Invalid range end '"@ + b + "'"@)
        } else {
            Ok((text::trimmed(a), text::trimmed(b)))
        }
    }
}

fn quote_error(what: &str, value: &str) -> (e: String)
    ensures
        e@ == what@ + value@ + "'"@,
{
    let mut e = text::owned(what);
    e.append(value);
    e.append("'");
    e
}

/// Read `FROM:TO`, or take the useful range of a knob.
pub fn parse_grade_range(axis: GradeAxis, given: Option<&str>) -> (r: Result<SweepRange, String>)
    ensures
        match given {
            None => r matches Ok(SweepRange::Useful(from, to)) && (from, to)
                == axis.useful_range(),
            Some(s) => match range_of(s@) {
                Ok(v) => r matches Ok(SweepRange::Given(from, to)) && from@ == v.0 && to@ == v.1,
                Err(e) => r is Err && (r->Err_0)@ == e,
            },
        },
{
    match given {
        None => {
            let (from, to) = axis.default_range();
            Ok(SweepRange::Useful(from, to))
        },
        Some(s) => {
            let v = text::chars_of(s);
            let len: usize = v.len();
            assert(v@.subrange(0, len as int) =~= s@);
            let i: usize = text::find(&v, 0, len, ':');
            if i == len {
                let mut e = text::owned("Invalid --grade-range '");
                e.append(s);
                e.append("': expected FROM:TO, e.g. 1:4");
                return Err(e);
            }
            let a = text::string_of_range(&v, 0, i);
            let b = text::string_of_range(&v, i + 1, len);
            assert(a@ =~= s@.take(i as int));
            assert(b@ =~= s@.skip(i + 1));
            let from = trimmed_of(a.as_str());
            let to = trimmed_of(b.as_str());
            if !number::writes_number(from.as_str()) {
                return Err(quote_error("Invalid range start '", a.as_str()));
            }
            if !number::writes_number(to.as_str()) {
                return Err(quote_error("Invalid range end '", b.as_str()));
            }
            Ok(SweepRange::Given(from, to))
        },
    }
}

fn trimmed_of(s: &str) -> (r: String)
    ensures
        r@ == text::trimmed(s@),
{
    let v = text::chars_of(s);
    let len: usize = v.len();
    assert(v@.subrange(0, len as int) =~= s@);
    let (b, e) = text::trim_at(&v, 0, len);
    text::string_of_range(&v, b, e)
}

/// The first position of a letter x in either case, or the length.
pub open spec fn cross_of(s: Seq<char>) -> int {
    text::index_of(text::replaced(s, 'X', 'x'), 'x')
}

/// The most tiles a grid has.
pub const MOST_TILES: u32 = 64;

/// What a grid reads: columns and rows, one tile at least and 64 at most.
pub open spec fn grid_of(s: Seq<char>) -> Result<(nat, nat), Seq<char>> {
    let i = cross_of(s);
    if i >= s.len() {
        Err("Invalid grid '"@ + s + "': expected COLSxROWS, e.g. 4x2"@)
    } else {
        let c = s.take(i);
        let r = s.skip(i + 1);
        match text::unsigned_value(text::trimmed(c), u32::MAX as nat) {
            None => Err("Invalid grid columns '"@ + c + "'"@),
            Some(cols) => match text::unsigned_value(text::trimmed(r), u32::MAX as nat) {
                None => Err("Invalid grid rows '"@ + r + "'"@),
                Some(rows) => if 1 <= cols * rows <= MOST_TILES {
                    Ok((cols, rows))
                } else {
                    Err(
                        "Grid "@ + text::decimal(cols) + "x"@ + text::decimal(rows)
                            + " out of range (1..=64 tiles)"@,
                    )
                },
            },
        }
    }
}

fn find_cross(v: &Vec<char>) -> (i: usize)
    ensures
        i == cross_of(v@),
        i <= v@.len(),
{
    let ghost s = text::replaced(v@, 'X', 'x');
    let mut i: usize = 0;
    while i < v.len() && v[i] != 'x' && v[i] != 'X'
        invariant
            i <= v@.len(),
            s == text::replaced(v@, 'X', 'x'),
            forall|k: int| 0 <= k < i ==> #[trigger] s[k] != 'x',
        decreases v@.len() - i,
    {
        assert(s[i as int] != 'x');
        i += 1;
    }
    proof {
        text::index_of_is(s, 'x', i as int);
    }
    i
}

fn parse_count(v: &Vec<char>, from: usize, to: usize) -> (r: Option<u32>)
    requires
        from <= to <= v@.len(),
    ensures
        match text::unsigned_value(
            text::trimmed(v@.subrange(from as int, to as int)),
            u32::MAX as nat,
        ) {
            Some(n) => r == Some(n as u32) && n <= u32::MAX,
            None => r is None,
        },
{
    let (b, e) = text::trim_at(v, from, to);
    match text::parse_unsigned(v, b, e, 0xFFFF_FFFF) {
        Some(n) => Some(n as u32),
        None => None,
    }
}

/// Read `COLSxROWS`.
pub fn parse_grid(s: &str) -> (r: Result<(u32, u32), String>)
    ensures
        match grid_of(s@) {
            Ok(g) => r matches Ok(v) && v.0 == g.0 && v.1 == g.1 && 1 <= g.0 <= 64 && 1 <= g.1
                <= 64,
            Err(e) => r is Err && (r->Err_0)@ == e,
        },
{
    let v = text::chars_of(s);
    let len: usize = v.len();
    let i: usize = find_cross(&v);
    if i == len {
        let mut e = text::owned("Invalid grid '");
        e.append(s);
        e.append("': expected COLSxROWS, e.g. 4x2");
        return Err(e);
    }
    let c = text::string_of_range(&v, 0, i);
    let r = text::string_of_range(&v, i + 1, len);
    assert(c@ =~= s@.take(i as int));
    assert(r@ =~= s@.skip(i + 1));
    assert(v@.subrange(0, i as int) =~= c@);
    assert(v@.subrange(i + 1, len as int) =~= r@);
    let cols: u32 = match parse_count(&v, 0, i) {
        Some(n) => n,
        None => {
            return Err(quote_error("Invalid grid columns '", c.as_str()));
        },
    };
    let rows: u32 = match parse_count(&v, i + 1, len) {
        Some(n) => n,
        None => {
            return Err(quote_error("Invalid grid rows '", r.as_str()));
        },
    };
    let tiles: u64 = num::product(cols, rows);
    if tiles < 1 || tiles > MOST_TILES as u64 {
        let mut e = text::owned("Grid ");
        text::push_decimal(&mut e, cols as u128);
        e.append("x");
        text::push_decimal(&mut e, rows as u128);
        e.append(" out of range (1..=64 tiles)");
        return Err(e);
    }
    assert(1 <= cols <= 64 && 1 <= rows <= 64) by (nonlinear_arith)
        requires
            1 <= cols * rows <= 64,
            cols >= 0,
            rows >= 0,
    ;
    Ok((cols, rows))
}

/// The views that two grid flags ask for.
pub open spec fn grid_asked(
    orbit: Option<Seq<char>>,
    around: Option<Seq<char>>,
    step: i64,
) -> Result<GridMode, Seq<char>> {
    match (orbit, around) {
        (Some(_), Some(_)) => Err("--orbit-grid and --move-grid are mutually exclusive"@),
        (Some(s), None) => match grid_of(s) {
            Ok(g) => Ok(GridMode::Orbit { cols: g.0 as u32, rows: g.1 as u32 }),
            Err(e) => Err(e),
        },
        (None, Some(s)) => match grid_of(s) {
            Ok(g) => Ok(GridMode::Move { cols: g.0 as u32, rows: g.1 as u32, step }),
            Err(e) => Err(e),
        },
        (None, None) => Ok(GridMode::Single),
    }
}

/// What an optional text reads.
pub open spec fn text_of(s: Option<&str>) -> Option<Seq<char>> {
    match s {
        Some(t) => Some(t@),
        None => None,
    }
}

/// The views that two grid flags ask for.
pub fn grid_mode(orbit: Option<&str>, around: Option<&str>, step: i64) -> (r: Result<
    GridMode,
    String,
>)
    ensures
        match grid_asked(text_of(orbit), text_of(around), step) {
            Ok(g) => r == Ok::<GridMode, String>(g),
            Err(e) => r is Err && (r->Err_0)@ == e,
        },
{
    match (orbit, around) {
        (Some(_), Some(_)) => Err(
            text::owned("--orbit-grid and --move-grid are mutually exclusive"),
        ),
        (Some(s), None) => match parse_grid(s) {
            Ok((cols, rows)) => Ok(GridMode::Orbit { cols, rows }),
            Err(e) => Err(e),
        },
        (None, Some(s)) => match parse_grid(s) {
            Ok((cols, rows)) => Ok(GridMode::Move { cols, rows, step }),
            Err(e) => Err(e),
        },
        (None, None) => Ok(GridMode::Single),
    }
}

/// A grid that is asked for has one tile at least and 64 at most.
pub proof fn a_grid_has_few_tiles(s: Seq<char>)
    ensures
        grid_of(s) matches Ok(g) ==> 1 <= g.0 * g.1 <= 64,
{
}

// ---- palettes --------------------------------------------------------------

/// The generator that a word asks for: any of them, or one by name.
pub open spec fn generator_asked(s: Seq<char>) -> Result<Option<Generator>, Seq<char>> {
    if s == "any"@ {
        Ok(None)
    } else {
        match Generator::named(s) {
            Some(g) => Ok(Some(g)),
            None => Err(
                "--random-palette: unknown generator '"@ + s
                    + "'. Available: any, cosine, harmony, library"@,
            ),
        }
    }
}

/// The generator that a word asks for: any of them, or one by name.
pub fn parse_generator(s: &str) -> (r: Result<Option<Generator>, String>)
    ensures
        match generator_asked(s@) {
            Ok(g) => r == Ok::<Option<Generator>, String>(g),
            Err(e) => r is Err && (r->Err_0)@ == e,
        },
{
    if text::same(s, "any") {
        return Ok(None);
    }
    match Generator::parse(s) {
        Some(g) => Ok(Some(g)),
        None => {
            let mut e = text::owned("--random-palette: unknown generator '");
            e.append(s);
            e.append("'. Available: any, cosine, harmony, library");
            Err(e)
        },
    }
}

/// Where a palette that is asked for comes from.
pub enum PaletteSource {
    /// The library.
    Kept(Palette),
    /// A file.
    File,
}

/// What stands before the first hash sign.
pub open spec fn before_hash(s: Seq<char>) -> Seq<char> {
    s.take(text::index_of(s, '#'))
}

/// Whether a text holds a character.
pub open spec fn occurs(s: Seq<char>, c: char) -> bool {
    text::index_of(s, c) < s.len()
}

/// Whether a text could name a palette of the library: it is no path.
pub open spec fn is_plain_name(s: Seq<char>) -> bool {
    !occurs(s, '/') && !occurs(s, '\\') && !occurs(s, '.')
}

/// The palette of the library that a value names, if it does.
pub open spec fn kept_palette(place: Seq<char>) -> Option<int> {
    let bare = before_hash(place);
    if is_plain_name(bare) {
        library::found(bare, 0)
    } else {
        None
    }
}

/// The name of the file that a value leads to: what stands before its first
/// hash sign.
pub fn palette_file(place: &str) -> (s: String)
    ensures
        s@ == before_hash(place@),
{
    let v = text::chars_of(place);
    let len: usize = v.len();
    assert(v@.subrange(0, len as int) =~= place@);
    let h: usize = text::find(&v, 0, len, '#');
    let s = text::string_of_range(&v, 0, h);
    assert(s@ =~= before_hash(place@));
    s
}

fn holds(s: &str, c: char) -> (b: bool)
    ensures
        b == occurs(s@, c),
{
    let v = text::chars_of(s);
    assert(v@.subrange(0, v@.len() as int) =~= s@);
    text::find(&v, 0, v.len(), c) < v.len()
}

/// Where a palette that is asked for comes from. A name of the library wins
/// over a file of that name; `exists` says whether there is a file by the
/// value's file name.
pub fn resolve_palette_arg(place: &str, exists: bool) -> (r: Result<PaletteSource, String>)
    ensures
        match kept_palette(place@) {
            Some(i) => r matches Ok(PaletteSource::Kept(p)) && p@ == library::palette_of(
                library::entry(i),
            ),
            None => if exists {
                r matches Ok(PaletteSource::File)
            } else {
                r is Err && (r->Err_0)@ == "'"@ + place@
                    + "' is neither a library palette nor a file. Library: "@ + text::joined(
                    library::name_list(),
                    ", "@,
                )
            },
        },
{
    let bare = palette_file(place);
    let name = bare.as_str();
    if !holds(name, '/') && !holds(name, '\\') && !holds(name, '.') {
        if let Some(p) = library::get(name) {
            return Ok(PaletteSource::Kept(p));
        }
    }
    if exists {
        return Ok(PaletteSource::File);
    }
    let list = library::listed();
    let mut e = text::owned("'");
    e.append(place);
    e.append("' is neither a library palette nor a file. Library: ");
    e.append(list.as_str());
    Err(e)
}

/// What a run says where two flags both set a gradient.
pub fn one_gradient(rolled: bool, named: bool) -> (r: Result<(), String>)
    ensures
        r is Err <==> rolled && named,
        r is Err ==> (r->Err_0)@
            == "--palette and --random-palette both set a gradient; pick one"@,
{
    if rolled && named {
        Err(text::owned("--palette and --random-palette both set a gradient; pick one"))
    } else {
        Ok(())
    }
}

/// The palette that a run colours by, before it is adjusted: one that a flag
/// names wins over one that was rolled, and either over the scene's own, which
/// it replaces whole.
pub fn chosen_palette(named: Option<Palette>, rolled: Option<Palette>, own: Option<Palette>) -> (p:
    Option<Palette>)
    ensures
        p == (match (named, rolled) {
            (Some(n), _) => Some(n),
            (None, Some(r)) => Some(r),
            (None, None) => own,
        }),
{
    match named {
        Some(n) => Some(n),
        None => match rolled {
            Some(r) => Some(r),
            None => own,
        },
    }
}

/// The palette of a scene after its flags: shifted, turned round, and mixed in
/// the space named.
pub open spec fn adjusted(
    p: PaletteModel,
    rotate: Option<i64>,
    reverse: bool,
    space: Option<Interpolate>,
) -> PaletteModel {
    PaletteModel {
        rotate: match rotate {
            Some(r) => r as int % (UNIT as int),
            None => p.rotate,
        },
        reverse: if reverse {
            !p.reverse
        } else {
            p.reverse
        },
        interpolate: match space {
            Some(s) => s,
            None => p.interpolate,
        },
        ..p
    }
}

/// The space that a flag names, if there is a flag and it does.
pub open spec fn space_asked(s: Option<&str>) -> Option<Interpolate> {
    match s {
        Some(t) => Interpolate::named(t@),
        None => None,
    }
}

/// Adjust a scene's palette by its flags, or say why that cannot be: there is
/// none, or the space has no such name.
pub fn adjust_palette(
    p: Option<Palette>,
    rotate: Option<i64>,
    reverse: bool,
    space: Option<&str>,
) -> (r: Result<Option<Palette>, String>)
    ensures
        match p {
            None => if rotate is Some || reverse || space is Some {
                r is Err && (r->Err_0)@
                    == "--palette-rotate / --palette-reverse / --palette-interpolate need a palette: pass --palette or --random-palette, or use a scene with a [palette] table"@
            } else {
                r matches Ok(q) && q is None
            },
            Some(p) => if space is Some && space_asked(space) is None {
                r is Err && (r->Err_0)@ == "--palette-interpolate: expected rgb or oklab"@
            } else {
                r matches Ok(Some(q)) && q@ == adjusted(p@, rotate, reverse, space_asked(space))
            },
        },
{
    match p {
        None => {
            if rotate.is_some() || reverse || space.is_some() {
                Err(
                    text::owned(
                        "--palette-rotate / --palette-reverse / --palette-interpolate need a palette: pass --palette or --random-palette, or use a scene with a [palette] table",
                    ),
                )
            } else {
                Ok(None)
            }
        },
        Some(p) => {
            let mut q = p;
            if let Some(r) = rotate {
                let (_, at) = num::floor_divide(r, UNIT as i64);
                q.rotate = at;
            }
            if reverse {
                q.reverse = !q.reverse;
            }
            if let Some(s) = space {
                match Interpolate::parse(s) {
                    Some(i) => {
                        q.interpolate = i;
                    },
                    None => {
                        return Err(text::owned("--palette-interpolate: expected rgb or oklab"));
                    },
                }
            }
            Ok(Some(q))
        },
    }
}

/// Without flags a palette stays as it is.
pub proof fn no_flags_leave_the_palette(p: PaletteModel)
    ensures
        adjusted(p, None, false, None) == p,
{
}

/// What a listing shows of a palette.
pub struct Shown {
    /// Even samples for the row of colour blocks.
    pub swatch: Vec<Color>,
    /// Even samples for the row of hex stops.
    pub ramp: Vec<Color>,
}

/// The longest of the first `n` library names.
pub open spec fn name_width(n: nat) -> nat
    decreases n,
{
    if n == 0 {
        0
    } else {
        let w = name_width((n - 1) as nat);
        let k = library::entry(n - 1).name.len();
        if k > w {
            k
        } else {
            w
        }
    }
}

/// Two lines about a palette: its name, its colour blocks and what it is like,
/// and below them its hex stops.
pub open spec fn title_lines(
    name: Seq<char>,
    blurb: Seq<char>,
    shown: Shown,
    color: bool,
    width: nat,
) -> Seq<char> {
    "  "@ + text::padded_right(name, width) + "  "@ + (if color {
        quantity::swatch_text(shown.swatch@, 1) + "  "@
    } else {
        ""@
    }) + blurb + "\n  "@ + text::padded_right(""@, width) + "  "@ + quantity::ramp_text(
        shown.ramp@,
    ) + "\n"@
}

/// Two lines about a library palette.
pub open spec fn palette_lines(i: int, shown: Shown, color: bool, width: nat) -> Seq<char> {
    title_lines(library::entry(i).name, library::entry(i).blurb, shown, color, width)
}

/// The lines about the first `n` library palettes.
pub open spec fn listing_rows(shown: Seq<Shown>, color: bool, n: nat) -> Seq<char>
    decreases n,
{
    if n == 0 {
        ""@
    } else {
        listing_rows(shown, color, (n - 1) as nat) + palette_lines(
            n - 1,
            shown[n - 1],
            color,
            name_width(library::SIZE as nat),
        )
    }
}

/// The library, as it is printed.
pub open spec fn listing(shown: Seq<Shown>, color: bool) -> Seq<char> {
    text::decimal(library::SIZE as nat) + " built-in palettes:\n\n"@ + listing_rows(
        shown,
        color,
        library::SIZE as nat,
    )
        + "\nUse with --palette <name>. Apophysis .ugr / .gradient / .flame files\nwork too: --palette mygradients.ugr#twilight\n"@
}

fn widest_name() -> (w: usize)
    ensures
        w == name_width(library::SIZE as nat),
{
    let names = library::names();
    let mut w: usize = 0;
    let mut i: usize = 0;
    while i < names.len()
        invariant
            i <= names@.len() == library::SIZE,
            forall|k: int| 0 <= k < names@.len() ==> (#[trigger] names@[k])@ == library::entry(k).name,
            w == name_width(i as nat),
        decreases names@.len() - i,
    {
        let n: usize = text::char_count(names[i]);
        if n > w {
            w = n;
        }
        i += 1;
    }
    w
}

fn push_title(out: &mut String, name: &str, blurb: &str, shown: &Shown, color: bool, width: usize)
    ensures
        final(out)@ == old(out)@ + title_lines(name@, blurb@, *shown, color, width as nat),
{
    let ghost before = out@;
    out.append("  ");
    text::push_padded_right(out, name, width);
    out.append("  ");
    let ghost head = "  "@ + text::padded_right(name@, width as nat) + "  "@;
    assert(out@ =~= before + head);
    let ghost blocks_text = if color {
        quantity::swatch_text(shown.swatch@, 1) + "  "@
    } else {
        ""@
    };
    if color {
        let blocks = quantity::swatch(&shown.swatch);
        out.append(blocks.as_str());
        out.append("  ");
    } else {
        out.append("");
    }
    assert(out@ =~= before + (head + blocks_text));
    let ghost upper = head + blocks_text + blurb@ + "\n  "@;
    out.append(blurb);
    out.append("\n  ");
    assert(out@ =~= before + upper);
    text::push_padded_right(out, "", width);
    out.append("  ");
    let ghost lower = upper + text::padded_right(""@, width as nat) + "  "@;
    assert(out@ =~= before + lower);
    let ramp = quantity::hex_ramp(&shown.ramp);
    out.append(ramp.as_str());
    out.append("\n");
    assert(out@ =~= before + (lower + quantity::ramp_text(shown.ramp@) + "\n"@));
}

fn push_palette(out: &mut String, i: usize, shown: &Shown, color: bool, width: usize)
    requires
        i < library::SIZE,
    ensures
        final(out)@ == old(out)@ + palette_lines(i as int, *shown, color, width as nat),
{
    let (name, blurb) = library::title(i);
    push_title(out, name, blurb, shown, color, width);
}

/// The library, two lines to a palette: its name and what it is like, and its
/// gradient, as hex stops and in colour besides.
pub fn print_palette_library(shown: &Vec<Shown>, color: bool) -> (s: String)
    requires
        shown@.len() == library::SIZE,
    ensures
        s@ == listing(shown@, color),
{
    let mut s = String::new();
    text::push_decimal(&mut s, library::len() as u128);
    s.append(" built-in palettes:\n\n");
    let width: usize = widest_name();
    let ghost head = s@;
    let mut i: usize = 0;
    proof {
        reveal_strlit("");
        assert(s@ =~= head + listing_rows(shown@, color, 0));
    }
    while i < shown.len()
        invariant
            i <= shown@.len() == library::SIZE,
            width == name_width(library::SIZE as nat),
            s@ == head + listing_rows(shown@, color, i as nat),
        decreases shown@.len() - i,
    {
        push_palette(&mut s, i, &shown[i], color, width);
        i += 1;
        assert(s@ =~= head + listing_rows(shown@, color, i as nat));
    }
    s.append(
        "\nUse with --palette <name>. Apophysis .ugr / .gradient / .flame files\nwork too: --palette mygradients.ugr#twilight\n",
    );
    assert(s@ =~= listing(shown@, color));
    s
}

// ---- zoom ------------------------------------------------------------------

/// The zoom flags that change a number.
#[derive(Clone, Copy, Debug, PartialEq, Eq, Structural)]
pub struct ZoomFlags {
    pub levels: Option<i64>,
    pub radius: Option<i64>,
    pub falloff: Option<i64>,
    pub guard: Option<i64>,
}

/// A value that is given, or else another.
pub open spec fn given_or(v: Option<i64>, other: i64) -> i64 {
    match v {
        Some(n) => n,
        None => other,
    }
}

/// The zoom that a run asks for: on the map that a flag names, or on the one
/// the scene does, with the numbers that flags give.
pub open spec fn zoom_asked(
    scene: Option<ZoomSpec>,
    map: Option<usize>,
    plain: ZoomSpec,
    f: ZoomFlags,
) -> Option<ZoomSpec> {
    let base = match (map, scene) {
        (Some(m), Some(z)) => Some(ZoomSpec { map: m, ..z }),
        (Some(m), None) => Some(ZoomSpec { map: m, ..plain }),
        (None, z) => z,
    };
    match base {
        None => None,
        Some(z) => Some(
            ZoomSpec {
                map: z.map,
                levels: given_or(f.levels, z.levels),
                radius: given_or(f.radius, z.radius),
                octave_falloff: given_or(f.falloff, z.octave_falloff),
                edge_guard: given_or(f.guard, z.edge_guard),
            },
        ),
    }
}

fn or_else(v: Option<i64>, other: i64) -> (r: i64)
    ensures
        r == given_or(v, other),
{
    match v {
        Some(n) => n,
        None => other,
    }
}

/// The zoom that a run asks for, if it asks for one. `plain` is a zoom with
/// every number as it is by default.
pub fn apply_zoom_args(
    scene: Option<ZoomSpec>,
    map: Option<usize>,
    plain: ZoomSpec,
    f: ZoomFlags,
) -> (r: Option<ZoomSpec>)
    ensures
        r == zoom_asked(scene, map, plain, f),
{
    let base = match (map, scene) {
        (Some(m), Some(z)) => Some(ZoomSpec { map: m, ..z }),
        (Some(m), None) => Some(ZoomSpec { map: m, ..plain }),
        (None, z) => z,
    };
    match base {
        None => None,
        Some(z) => Some(
            ZoomSpec {
                map: z.map,
                levels: or_else(f.levels, z.levels),
                radius: or_else(f.radius, z.radius),
                octave_falloff: or_else(f.falloff, z.octave_falloff),
                edge_guard: or_else(f.guard, z.edge_guard),
            },
        ),
    }
}

/// Numbers alone never turn a zoom on.
pub proof fn numbers_alone_start_no_zoom(plain: ZoomSpec, f: ZoomFlags)
    ensures
        zoom_asked(None, None, plain, f) is None,
{
}

// ---- what a run does -------------------------------------------------------

/// Where a scene comes from.
#[derive(Clone, Copy, Debug, PartialEq, Eq, Structural)]
pub enum Origin {
    File,
    Blank,
    Random,
    BuiltIn,
}

/// Where a scene comes from: a file before anything else.
pub fn origin(file: bool, blank: bool, random: bool) -> (o: Origin)
    ensures
        o == (if file {
            Origin::File
        } else if blank {
            Origin::Blank
        } else if random {
            Origin::Random
        } else {
            Origin::BuiltIn
        }),
{
    if file {
        Origin::File
    } else if blank {
        Origin::Blank
    } else if random {
        Origin::Random
    } else {
        Origin::BuiltIn
    }
}

/// What a report calls where its scene comes from.
pub fn source_name(file: Option<&str>, blank: bool, random: bool) -> (s: String)
    ensures
        s@ == (match file {
            Some(f) => f@,
            None => if blank {
                "--blank"@
            } else if random {
                "--random"@
            } else {
                "built-in default"@
            },
        }),
{
    match file {
        Some(f) => text::owned(f),
        None => if blank {
            text::owned("--blank")
        } else if random {
            text::owned("--random")
        } else {
            text::owned("built-in default")
        },
    }
}

/// What is said of values that are set on a scene with no file to set them in.
pub fn set_warning(o: Origin, sets: usize) -> (w: Option<&'static str>)
    ensures
        w is Some <==> o != Origin::File && sets > 0,
        w is Some ==> (w->0)@
            == "warning: --set had no effect. It rewrites a scene file's TOML before \nparsing, and --blank/--random/the built-in default have no file to \nrewrite. Save the scene first, or edit it after loading."@,
{
    match o {
        Origin::File => None,
        _ => if sets > 0 {
            Some(
                "warning: --set had no effect. It rewrites a scene file's TOML before \nparsing, and --blank/--random/the built-in default have no file to \nrewrite. Save the scene first, or edit it after loading.",
            )
        } else {
            None
        },
    }
}

/// What is asked of a render's file.
#[derive(Clone, Copy, Debug, PartialEq, Eq)]
pub struct Ask {
    pub grid: GridMode,
    /// How many variants.
    pub mutations: Option<usize>,
    /// Whether a value is swept.
    pub sweep: bool,
    pub transparent: bool,
    /// Whether the scene is read from a file.
    pub file: bool,
}

/// What a render does.
#[derive(Clone, Copy, Debug, PartialEq, Eq, Structural)]
pub enum Job {
    Animation,
    Sweep,
    Mutations(usize),
    Still,
}

/// What a render to a moving picture does, or why it does not; `ext` is its
/// extension and `codec` what carries it.
pub open spec fn animation_job(a: Ask, ext: Seq<char>, codec: Seq<char>) -> Result<Job, Seq<char>> {
    if a.grid != GridMode::Single || a.mutations is Some || a.sweep {
        Err(
            "animation (."@ + ext + ") cannot be combined with grid, mutation or sweep sheets"@,
        )
    } else if a.transparent {
        Err(
            "--transparent is not supported for ."@ + ext + " output ("@ + codec
                + " has no alpha plane here). Render a PNG sequence instead, or drop --transparent."@,
        )
    } else {
        Ok(Job::Animation)
    }
}

/// What a render to a picture does, or why it does not.
pub open spec fn picture_job(a: Ask) -> Result<Job, Seq<char>> {
    if a.sweep {
        if a.grid != GridMode::Single {
            Err("--sweep cannot be combined with --orbit-grid/--move-grid"@)
        } else if a.mutations is Some {
            Err("--sweep cannot be combined with --mutations"@)
        } else if !a.file {
            Err("--sweep needs --scene: it varies values in a scene file"@)
        } else {
            Ok(Job::Sweep)
        }
    } else {
        match a.mutations {
            None => Ok(Job::Still),
            Some(n) => if a.grid != GridMode::Single {
                Err("--mutations cannot be combined with --orbit-grid/--move-grid"@)
            } else if n == 0 || n > 24 {
                Err("--mutations must be 1..=24"@)
            } else {
                Ok(Job::Mutations(n))
            },
        }
    }
}

fn is_single(g: GridMode) -> (b: bool)
    ensures
        b == (g == GridMode::Single),
{
    match g {
        GridMode::Single => true,
        _ => false,
    }
}

/// What a render does: a moving picture where it has an extension and a codec
/// for one, and a picture otherwise.
pub fn job(a: &Ask, moving: Option<(&str, &str)>) -> (r: Result<Job, String>)
    ensures
        match moving {
            Some((ext, codec)) => match animation_job(*a, ext@, codec@) {
                Ok(j) => r == Ok::<Job, String>(j),
                Err(e) => r is Err && (r->Err_0)@ == e,
            },
            None => match picture_job(*a) {
                Ok(j) => r == Ok::<Job, String>(j),
                Err(e) => r is Err && (r->Err_0)@ == e,
            },
        },
{
    let single = is_single(a.grid);
    if let Some((ext, codec)) = moving {
        if !single || a.mutations.is_some() || a.sweep {
            let mut e = text::owned("animation (.");
            e.append(ext);
            e.append(") cannot be combined with grid, mutation or sweep sheets");
            return Err(e);
        }
        if a.transparent {
            let mut e = text::owned("--transparent is not supported for .");
            e.append(ext);
            e.append(" output (");
            e.append(codec);
            e.append(
                " has no alpha plane here). Render a PNG sequence instead, or drop --transparent.",
            );
            return Err(e);
        }
        return Ok(Job::Animation);
    }
    if a.sweep {
        if !single {
            Err(text::owned("--sweep cannot be combined with --orbit-grid/--move-grid"))
        } else if a.mutations.is_some() {
            Err(text::owned("--sweep cannot be combined with --mutations"))
        } else if !a.file {
            Err(text::owned("--sweep needs --scene: it varies values in a scene file"))
        } else {
            Ok(Job::Sweep)
        }
    } else {
        match a.mutations {
            None => Ok(Job::Still),
            Some(n) => if !single {
                Err(text::owned("--mutations cannot be combined with --orbit-grid/--move-grid"))
            } else if n == 0 || n > 24 {
                Err(text::owned("--mutations must be 1..=24"))
            } else {
                Ok(Job::Mutations(n))
            },
        }
    }
}

/// The supersampling of a render: what is asked for or two, from one up to the
/// most.
pub fn supersample(asked: Option<u32>, most: u32) -> (n: u32)
    requires
        most >= 1,
    ensures
        n == ({
            let a = match asked {
                Some(v) => v,
                None => 2,
            };
            if a < 1 {
                1
            } else if a > most {
                most
            } else {
                a
            }
        }),
{
    let a: u32 = match asked {
        Some(v) => v,
        None => 2,
    };
    if a < 1 {
        1
    } else if a > most {
        most
    } else {
        a
    }
}

/// The threads of a render: what is asked for, but one at least, or what the
/// machine has by default.
pub fn threads(asked: Option<usize>, machine: usize) -> (n: usize)
    ensures
        n == (match asked {
            Some(v) => if v < 1 {
                1
            } else {
                v
            },
            None => machine,
        }),
{
    match asked {
        Some(v) => if v < 1 {
            1
        } else {
            v
        },
        None => machine,
    }
}

/// A number that a flag gives, or else a view, or else what is neutral.
pub fn ladder(flag: Option<i64>, view: Option<i64>, neutral: i64) -> (v: i64)
    ensures
        v == given_or(flag, given_or(view, neutral)),
{
    or_else(flag, or_else(view, neutral))
}

/// Where a grade is written: beside the render where no place is named.
pub fn grade_path(asked: &str, out: &str) -> (s: String)
    ensures
        s@ == (if asked@.len() == 0 {
            filename::with_extension(out@, "fgrade"@)
        } else {
            asked@
        }),
{
    if text::char_count(asked) == 0 {
        GradeBuffer::path_for(out)
    } else {
        text::owned(asked)
    }
}

// ---- what is asked for -------------------------------------------------------

/// Every tier takes ten times the samples of the one before it, from one on.
pub proof fn tiers_are_ten_times_apart()
    ensures
        Effort::Tiny.density() == 1,
        Effort::Small.density() == 10 * Effort::Tiny.density(),
        Effort::Medium.density() == 10 * Effort::Small.density(),
        Effort::Large.density() == 10 * Effort::Medium.density(),
        Effort::Huge.density() == 10 * Effort::Large.density(),
{
}

/// A buffer holds a tier's samples for every pixel, from a million points up to
/// twenty million where they are accumulated, and up to a hundred million where
/// they are not.
pub proof fn a_buffer_holds_its_tier(e: Effort, pixels: nat, accumulating: bool)
    ensures
        ({
            let (n, want) = (e.buffer(pixels, accumulating), e.density() * pixels);
            let cap: int = if accumulating {
                20_000_000
            } else {
                100_000_000
            };
            &&& 1_000_000 <= n <= cap
            &&& 1_000_000 <= want <= cap ==> n == want
            &&& want < 1_000_000 ==> n == 1_000_000
            &&& want > cap ==> n == cap
        }),
{
}

/// A number that is given counts over the tier's. Without one, a tier's samples
/// are taken of a splat alone, and its points of anything.
pub proof fn given_numbers_count_over_a_tier(s: Sampled, n: usize, m: u32)
    requires
        10_000 * pixels_of(s) <= u64::MAX,
    ensures
        points_asked(Sampled { points: Some(n), ..s }) == Some(n),
        spp_asked(Sampled { spp: Some(m), ..s }) == Some(m),
        s.effort is None ==> points_asked(s) == s.points && spp_asked(s) == s.spp,
        s.effort is Some && s.points is None ==> points_asked(s) == Some(
            (s.effort->0).buffer((s.width * s.height) as nat, s.spp is Some || s.splat) as usize,
        ),
        s.spp is None && !s.splat ==> spp_asked(s) is None,
        s.effort is Some && s.spp is None && s.splat ==> spp_asked(s) == Some(
            (s.effort->0).density() as u32,
        ),
        falls_short(s) <==> s.effort is Some && !s.splat && (s.effort->0).density() * (s.width
            * s.height) > 100_000_000,
{
}

/// A render does one thing at a time: what is asked for beside it is refused.
pub proof fn only_one_thing_is_rendered(a: Ask, ext: Seq<char>, codec: Seq<char>)
    ensures
        animation_job(a, ext, codec) is Ok <==> a.grid is Single && a.mutations is None && !a.sweep
            && !a.transparent,
        animation_job(a, ext, codec) is Ok ==> animation_job(a, ext, codec)->Ok_0 is Animation,
        picture_job(a) is Ok <==> (a.sweep ==> a.grid is Single && a.mutations is None && a.file)
            && (a.mutations is Some ==> a.grid is Single && 1 <= a.mutations->0 <= 24),
        picture_job(a) matches Ok(j) ==> match j {
            Job::Animation => false,
            Job::Sweep => a.sweep,
            Job::Mutations(n) => !a.sweep && a.mutations == Some(n),
            Job::Still => !a.sweep && a.mutations is None,
        },
{
}

/// A flag changes what it names and nothing else: the shift is set, within the
/// gradient, the direction turned round, and the space set.
pub proof fn a_flag_changes_what_it_names(
    p: PaletteModel,
    rotate: i64,
    space: Interpolate,
    reverse: bool,
)
    ensures
        ({
            let q = adjusted(p, Some(rotate), false, None);
            &&& q == (PaletteModel { rotate: q.rotate, ..p })
            &&& 0 <= q.rotate < UNIT && (rotate - q.rotate) % (UNIT as int) == 0
            &&& 0 <= rotate < UNIT ==> q.rotate == rotate
        }),
        adjusted(p, None, true, None) == (PaletteModel { reverse: !p.reverse, ..p }),
        adjusted(adjusted(p, None, true, None), None, true, None) == p,
        adjusted(p, None, false, Some(space)) == (PaletteModel { interpolate: space, ..p }),
        adjusted(p, Some(rotate), reverse, Some(space)) == adjusted(
            adjusted(adjusted(p, Some(rotate), false, None), None, reverse, None),
            None,
            false,
            Some(space),
        ),
{
}

/// A zoom is of the map asked for, else of the scene's, with each number that is
/// given, else the scene's, else the plain one's.
pub proof fn a_zoom_takes_what_is_given(
    scene: Option<ZoomSpec>,
    map: Option<usize>,
    plain: ZoomSpec,
    f: ZoomFlags,
)
    ensures
        zoom_asked(scene, map, plain, f) is Some <==> map is Some || scene is Some,
        zoom_asked(scene, map, plain, f) matches Some(z) ==> {
            let base = if scene is Some {
                scene->0
            } else {
                plain
            };
            &&& map is Some ==> z.map == map->0
            &&& map is None ==> z.map == base.map
            &&& f.levels == Some(z.levels) || (f.levels is None && z.levels == base.levels)
            &&& f.radius == Some(z.radius) || (f.radius is None && z.radius == base.radius)
            &&& f.falloff == Some(z.octave_falloff) || (f.falloff is None && z.octave_falloff
                == base.octave_falloff)
            &&& f.guard == Some(z.edge_guard) || (f.guard is None && z.edge_guard
                == base.edge_guard)
        },
{
}

/// The names of the listing stand in a column as wide as the longest of them.
pub proof fn a_column_is_as_wide_as_its_longest(n: nat)
    ensures
        forall|i: int| 0 <= i < n ==> (#[trigger] library::entry(i)).name.len() <= name_width(n),
        n > 0 ==> exists|i: int|
            0 <= i < n && (#[trigger] library::entry(i)).name.len() == name_width(n),
    decreases n,
{
    if n > 0 {
        a_column_is_as_wide_as_its_longest((n - 1) as nat);
        let k = library::entry(n - 1).name.len();
        if name_width(n) != k {
            assert(n - 1 > 0) by {
                if n == 1 {
                    assert(name_width(0) == 0);
                }
            }
            let i = choose|i: int|
                0 <= i < n - 1 && (#[trigger] library::entry(i)).name.len() == name_width(
                    (n - 1) as nat,
                );
            assert(library::entry(i).name.len() == name_width(n));
        }
    }
}

proof fn index_is_length(a: Seq<char>, c: char, rest: Seq<char>)
    requires
        !a.contains(c),
    ensures
        text::index_of(a + seq![c] + rest, c) == a.len(),
    decreases a.len(),
{
    let s = a + seq![c] + rest;
    assert(s.len() > 0);
    if a.len() > 0 {
        assert(a.contains(a[0]));
        assert(s[0] == a[0]);
        let b = a.drop_first();
        assert(!b.contains(c)) by {
            if b.contains(c) {
                let i = choose|i: int| 0 <= i < b.len() && b[i] == c;
                assert(a[i + 1] == c);
            }
        }
        index_is_length(b, c, rest);
        assert(s.drop_first() =~= b + seq![c] + rest);
    } else {
        assert(s[0] == c);
    }
}

/// Numbers are parted at their commas, and a range at its colon.
pub proof fn parts_end_at_their_marks(a: Seq<char>, rest: Seq<char>)
    ensures
        !a.contains(',') ==> comma_parts(a + seq![','] + rest) =~= seq![text::trimmed(a)]
            + comma_parts(rest),
        !a.contains(':') && number::is_number(text::trimmed(a)) && number::is_number(
            text::trimmed(rest),
        ) ==> range_of(a + seq![':'] + rest) == Ok::<(Seq<char>, Seq<char>), Seq<char>>(
            (text::trimmed(a), text::trimmed(rest)),
        ),
        !a.contains('#') ==> before_hash(a + seq!['#'] + rest) == a,
{
    let n = a.len() as int;
    if !a.contains(',') {
        index_is_length(a, ',', rest);
        let s = a + seq![','] + rest;
        assert(s.take(n) =~= a && s.skip(n + 1) =~= rest);
    }
    if !a.contains(':') {
        index_is_length(a, ':', rest);
        let s = a + seq![':'] + rest;
        assert(s.take(n) =~= a && s.skip(n + 1) =~= rest);
    }
    if !a.contains('#') {
        index_is_length(a, '#', rest);
        assert((a + seq!['#'] + rest).take(n) =~= a);
    }
}

/// A place that looks like a path, up to its hash, is never taken from the
/// library.
pub proof fn a_path_is_not_a_kept_palette(place: Seq<char>, i: int)
    requires
        0 <= i < before_hash(place).len(),
        before_hash(place)[i] == '/' || before_hash(place)[i] == '\\' || before_hash(place)[i] == '.',
    ensures
        kept_palette(place) is None,
{
    let s = before_hash(place);
    text::index_of_finds(s, '/');
    text::index_of_finds(s, '\\');
    text::index_of_finds(s, '.');
}

/// Every grid of up to 64 tiles is taken, and no other.
pub proof fn a_grid_is_taken_up_to_64_tiles(
    s: Seq<char>,
    c: Seq<char>,
    r: Seq<char>,
    cols: nat,
    rows: nat,
)
    requires
        !c.contains('x'),
        !c.contains('X'),
        s == c + seq!['x'] + r || s == c + seq!['X'] + r,
        text::unsigned_value(text::trimmed(c), u32::MAX as nat) == Some(cols),
        text::unsigned_value(text::trimmed(r), u32::MAX as nat) == Some(rows),
    ensures
        grid_of(s) is Ok <==> 1 <= cols * rows <= 64,
        grid_of(s) is Ok ==> grid_of(s) == Ok::<(nat, nat), Seq<char>>((cols, rows)),
{
    let n = c.len() as int;
    let t = text::replaced(s, 'X', 'x');
    assert(t[n] == 'x');
    assert forall|k: int| 0 <= k < n implies #[trigger] t[k] != 'x' by {
        assert(s[k] == c[k]);
        assert(c.contains(c[k]));
    }
    text::index_of_is(t, 'x', n);
    assert(s.take(n) =~= c && s.skip(n + 1) =~= r);
}

/// Three numbers are read as they are written, in their order and without the
/// blanks about them, and nothing else is: not where one of the three is no
/// number, and not two numbers.
pub proof fn three_numbers_are_read_in_order(a: Seq<char>, b: Seq<char>, c: Seq<char>)
    requires
        !a.contains(','),
        !b.contains(','),
        !c.contains(','),
    ensures
        ({
            let r = three_numbers(a + seq![','] + (b + seq![','] + c));
            let (x, y, z) = (text::trimmed(a), text::trimmed(b), text::trimmed(c));
            if number::is_number(x) && number::is_number(y) && number::is_number(z) {
                r is Ok && (r->Ok_0).len() == 3 && (r->Ok_0)[0] == x && (r->Ok_0)[1] == y && (
                r->Ok_0)[2] == z
            } else {
                r is Err
            }
        }),
        three_numbers(a + seq![','] + b) is Err,
        three_numbers(a) is Err,
{
    let bc = b + seq![','] + c;
    parts_end_at_their_marks(a, bc);
    parts_end_at_their_marks(b, c);
    parts_end_at_their_marks(a, b);
    text::index_of_finds(a, ',');
    text::index_of_finds(b, ',');
    text::index_of_finds(c, ',');
    let parts = comma_parts(a + seq![','] + bc);
    assert(comma_parts(c) == seq![text::trimmed(c)]);
    assert(comma_parts(b) == seq![text::trimmed(b)]);
    assert(comma_parts(a) == seq![text::trimmed(a)]);
    assert(parts =~= seq![text::trimmed(a), text::trimmed(b), text::trimmed(c)]);
    reveal_with_fuel(first_bad, 4);
}

/// A grid of views goes about the scene under the one flag and beside it under
/// the other, with the same columns and rows; under both it is refused, and
/// under neither there is one view.
pub proof fn grid_flags_differ_in_their_views(s: Seq<char>, t: Seq<char>, step: i64)
    ensures
        ({
            let o = grid_asked(Some(s), None, step);
            let m = grid_asked(None, Some(s), step);
            &&& o is Ok <==> m is Ok
            &&& o is Ok <==> grid_of(s) is Ok
            &&& o matches Ok(g) ==> (g matches GridMode::Orbit { cols, rows } && m == Ok::<
                GridMode,
                Seq<char>,
            >(GridMode::Move { cols, rows, step }))
        }),
        grid_asked(Some(s), Some(t), step) is Err,
        grid_asked(None, None, step) == Ok::<GridMode, Seq<char>>(GridMode::Single),
        grid_of(s) matches Ok(g) ==> (g.0 <= u32::MAX && g.1 <= u32::MAX ==> (grid_asked(
            Some(s),
            None,
            step,
        ) matches Ok(v) && (v matches GridMode::Orbit { cols, rows } && cols == g.0 && rows
            == g.1))),
{
}

} // verus!
