//! Headless rendering: what is rendered, in which order, when a run stops and
//! what is said about it.
//!
//! Real quantities (exposure, gamma, seconds, angles) are counted in
//! billionths.

use vstd::prelude::*;
use crate::num;
use crate::text;

verus! {

/// Extra chaos-game frames after the ring fills, when nothing says otherwise.
pub const DEFAULT_ACCUMULATE: u32 = 32;

/// Real quantities are counted in units of `1 / UNIT`.
pub const UNIT: u64 = 1_000_000_000;

/// How many chaos dispatches a timing run measures.
pub const GPU_TIMING_SAMPLES: u32 = 256;

/// How far a render got.
#[derive(Clone, Copy, Debug, PartialEq, Eq, Structural)]
pub enum Outcome {
    Complete,
    Partial,
}

impl Outcome {
    /// Whether the render was cut short.
    pub fn is_partial(self) -> (b: bool)
        ensures
            b == (self == Outcome::Partial),
    {
        self == Outcome::Partial
    }

    /// Two stages together: partial as soon as either is.
    pub fn and(self, other: Outcome) -> (o: Outcome)
        ensures
            o == Outcome::Complete <==> self == Outcome::Complete && other == Outcome::Complete,
    {
        if self == Outcome::Complete {
            other
        } else {
            Outcome::Partial
        }
    }
}

/// A count of steps that may be stopped: points, laps, tiles or frames.
#[derive(Clone, Copy, Debug)]
pub struct Run {
    pub total: u32,
    pub done: u32,
    pub stopped: bool,
}

impl Run {
    /// No more was done than there is.
    pub open spec fn valid(self) -> bool {
        self.done <= self.total
    }

    /// Nothing done yet.
    pub fn new(total: u32) -> (r: Run)
        ensures
            r.valid(),
            r == (Run { total, done: 0, stopped: false }),
    {
        Run { total, done: 0, stopped: false }
    }

    /// Whether there is another step to make.
    pub fn running(self) -> (b: bool)
        ensures
            b == (!self.stopped && self.done < self.total),
    {
        !self.stopped && self.done < self.total
    }

    /// One more step is done.
    pub fn advance(&mut self)
        requires
            old(self).valid(),
            old(self).done < old(self).total,
        ensures
            final(self).valid(),
            *final(self) == (Run { done: (old(self).done + 1) as u32, ..*old(self) }),
    {
        self.done = self.done + 1;
    }

    /// Make no further step; what is done stays done.
    pub fn stop(&mut self)
        ensures
            *final(self) == (Run { stopped: true, ..*old(self) }),
    {
        self.stopped = true;
    }

    /// A stopped run is partial, whatever it had left.
    pub fn outcome(self) -> (o: Outcome)
        ensures
            o == (if self.stopped {
                Outcome::Partial
            } else {
                Outcome::Complete
            }),
    {
        if self.stopped {
            Outcome::Partial
        } else {
            Outcome::Complete
        }
    }
}

/// A run that has no step left and was not stopped did everything.
pub proof fn a_complete_run_did_everything(r: Run)
    requires
        r.valid(),
        !(!r.stopped && r.done < r.total),
    ensures
        !r.stopped ==> r.done == r.total,
{
}

/// The chaos-game frames that fill the point buffer: the warm-up and at least
/// one more.
pub fn fill_frames(warmup: u32, accumulate: u32) -> (n: u32)
    requires
        warmup + accumulate < u32::MAX,
    ensures
        n == warmup + (if accumulate == 0 {
            1
        } else {
            accumulate as int
        }),
{
    if accumulate == 0 {
        warmup + 1
    } else {
        warmup + accumulate
    }
}

/// Whether the queue drains after frame `i`, which is also where a fill can be
/// stopped: every sixteenth frame.
pub fn drains_after(i: u32) -> (b: bool)
    ensures
        b == (i % 16 == 15),
{
    i % 16 == 15
}

/// What is said of a fill that was stopped.
pub open spec fn fill_stopped_text(done: nat, total: nat, points: nat) -> Seq<char> {
    "stopped at frame "@ + text::decimal(done) + " of "@ + text::decimal(total)
        + " \u{2014} keeping the "@ + text::decimal(points) + " points accumulated so far"@
}

/// The log line of a fill that was stopped.
pub fn fill_stopped(run: Run, points: u32) -> (s: String)
    ensures
        s@ == fill_stopped_text(run.done as nat, run.total as nat, points as nat),
{
    let mut s = String::new();
    s.append("stopped at frame ");
    text::push_decimal(&mut s, run.done as u128);
    s.append(" of ");
    text::push_decimal(&mut s, run.total as u128);
    s.append(" \u{2014} keeping the ");
    text::push_decimal(&mut s, points as u128);
    s.append(" points accumulated so far");
    assert(s@ =~= fill_stopped_text(run.done as nat, run.total as nat, points as nat));
    s
}

/// What is said of a sheet that was stopped.
pub open spec fn tiles_stopped_text(done: nat, total: nat) -> Seq<char> {
    "stopped after "@ + text::decimal(done) + " of "@ + text::decimal(total) + " tiles"@
}

/// The log line of a sheet that was stopped.
pub fn tiles_stopped(run: Run) -> (s: String)
    ensures
        s@ == tiles_stopped_text(run.done as nat, run.total as nat),
{
    let mut s = String::new();
    s.append("stopped after ");
    text::push_decimal(&mut s, run.done as u128);
    s.append(" of ");
    text::push_decimal(&mut s, run.total as u128);
    s.append(" tiles");
    assert(s@ =~= tiles_stopped_text(run.done as nat, run.total as nat));
    s
}

/// Everything about a render that is measured in render-target pixels.
#[derive(Clone, Copy, Debug)]
pub struct Sampling {
    /// Supersample factor, at least 1
    pub n: u32,
    /// Output height in pixels
    pub height: u32,
}

/// What is said of a factor whose accumulation is too large.
pub open spec fn does_not_fit_text(n: nat, w: nat, h: nat, max: nat) -> Seq<char> {
    "--supersample "@ + text::decimal(n) + " makes a "@ + text::decimal(w) + "x"@ + text::decimal(h)
        + " accumulation, past this GPU's "@ + text::decimal(max)
        + "px texture limit \u{2014} render smaller, or lower --supersample"@
}

impl Sampling {
    /// A factor of zero counts as one.
    pub fn new(supersample: u32, height: u32) -> (s: Sampling)
        ensures
            s.n >= 1,
            s.height == height,
            s.n == (if supersample == 0 {
                1
            } else {
                supersample
            }),
    {
        let n: u32 = if supersample == 0 {
            1
        } else {
            supersample
        };
        Sampling { n, height }
    }

    /// Height of the surface that is rasterized into.
    pub fn target_height(self) -> (h: u32)
        requires
            self.height * self.n <= u32::MAX,
        ensures
            h == self.height * self.n,
    {
        self.height * self.n
    }

    /// Refuse a factor whose accumulation would not fit in a texture of `max`
    /// pixels a side.
    pub fn check_fits(self, max: u32, width: u32, height: u32) -> (r: Result<(), String>)
        requires
            width * self.n <= u32::MAX,
            height * self.n <= u32::MAX,
        ensures
            r is Ok <==> width * self.n <= max && height * self.n <= max,
            r is Err ==> r->Err_0@ == does_not_fit_text(
                self.n as nat,
                (width * self.n) as nat,
                (height * self.n) as nat,
                max as nat,
            ),
    {
        let w: u32 = width * self.n;
        let h: u32 = height * self.n;
        if w > max || h > max {
            let mut s = String::new();
            s.append("--supersample ");
            text::push_decimal(&mut s, self.n as u128);
            s.append(" makes a ");
            text::push_decimal(&mut s, w as u128);
            s.append("x");
            text::push_decimal(&mut s, h as u128);
            s.append(" accumulation, past this GPU's ");
            text::push_decimal(&mut s, max as u128);
            s.append("px texture limit \u{2014} render smaller, or lower --supersample");
            assert(s@ =~= does_not_fit_text(self.n as nat, w as nat, h as nat, max as nat));
            return Err(s);
        }
        Ok(())
    }

    /// Whether points of `point_size` seen from `distance` (both in the same
    /// unit) are at most one and a half target pixels across, and so take the
    /// native one-pixel path.
    pub fn use_point_primitives(self, point_size: i64, distance: i64) -> (b: bool)
        requires
            self.height * self.n <= u32::MAX,
            distance > 0,
        ensures
            b == (2 * (point_size * (self.height * self.n)) <= 3 * distance),
    {
        let target: u32 = self.height * self.n;
        let size: i128 = point_size as i128;
        let t: i128 = target as i128;
        assert(-0x8000_0000_0000_0000 * 0xFFFF_FFFF <= size * t <= 0x8000_0000_0000_0000
            * 0xFFFF_FFFF) by (nonlinear_arith)
            requires
                -0x8000_0000_0000_0000 <= size <= 0x8000_0000_0000_0000,
                0 <= t <= 0xFFFF_FFFF,
        ;
        2 * (size * t) <= 3 * distance as i128
    }
}

/// Points that are too large for the native path at one factor are too large
/// at every larger one: supersampling never keeps a point on the unfiltered
/// path that a smaller factor took off it.
pub proof fn supersampling_only_leaves_the_point_path(
    point_size: int,
    distance: int,
    height: int,
    n: int,
    m: int,
)
    requires
        1 <= n <= m,
        point_size >= 0,
        height >= 0,
        2 * (point_size * (height * m)) <= 3 * distance,
    ensures
        2 * (point_size * (height * n)) <= 3 * distance,
{
    assert(point_size * (height * n) <= point_size * (height * m)) by (nonlinear_arith)
        requires
            1 <= n <= m,
            point_size >= 0,
            height >= 0,
    ;
}

/// What is said where one still's linear density would be many.
pub open spec fn grade_out_text(what: Seq<char>) -> Seq<char> {
    "--grade-out saves one still's linear density; "@ + what
        + " would need one buffer per frame. Render the frames separately."@
}

/// Refuse a grade buffer where there is no single still.
pub fn reject_grade_out(grade_out: Option<String>, what: &str) -> (r: Result<(), String>)
    ensures
        r is Ok <==> grade_out is None,
        r is Err ==> r->Err_0@ == grade_out_text(what@),
{
    match grade_out {
        None => Ok(()),
        Some(_) => {
            let mut s = String::new();
            s.append("--grade-out saves one still's linear density; ");
            s.append(what);
            s.append(" would need one buffer per frame. Render the frames separately.");
            assert(s@ =~= grade_out_text(what@));
            Err(s)
        },
    }
}

/// What is said where one accumulation run would be many.
pub open spec fn spp_text(what: Seq<char>) -> Seq<char> {
    "--spp accumulates one still into a persistent histogram; "@ + what
        + " would be one full accumulation run per frame. Render the frames separately."@
}

/// Refuse a sample target where there is no single still.
pub fn reject_spp(spp: Option<u32>, what: &str) -> (r: Result<(), String>)
    ensures
        r is Ok <==> spp is None,
        r is Err ==> r->Err_0@ == spp_text(what@),
{
    match spp {
        None => Ok(()),
        Some(_) => {
            let mut s = String::new();
            s.append("--spp accumulates one still into a persistent histogram; ");
            s.append(what);
            s.append(" would be one full accumulation run per frame. Render the frames separately.");
            assert(s@ =~= spp_text(what@));
            Err(s)
        },
    }
}

/// What is printed of a tile.
pub open spec fn tile_text(row: nat, col: nat, label: Seq<char>) -> Seq<char> {
    "tile [row "@ + text::decimal(row) + ", col "@ + text::decimal(col) + "]: "@ + label
}

/// The line that maps a cell of the sheet to what it shows.
pub fn tile_line(row: u32, col: u32, label: &str) -> (s: String)
    ensures
        s@ == tile_text(row as nat, col as nat, label@),
{
    let mut s = String::new();
    s.append("tile [row ");
    text::push_decimal(&mut s, row as u128);
    s.append(", col ");
    text::push_decimal(&mut s, col as u128);
    s.append("]: ");
    s.append(label);
    assert(s@ =~= tile_text(row as nat, col as nat, label@));
    s
}

/// What becomes of a request for a grade buffer.
#[derive(Clone, Copy, Debug, PartialEq, Eq, Structural)]
pub enum GradeSave {
    /// None was asked for
    Nothing,
    Write,
    /// A contact sheet has one linear buffer per tile
    ManyTiles,
    /// The points renderer has no linear density
    NoDensity,
}

/// Whether a grade buffer is written: only a splat render of one tile has one.
pub fn grade_save(asked: bool, splat: bool, tiles: usize) -> (g: GradeSave)
    ensures
        g == (if !asked {
            GradeSave::Nothing
        } else if !splat {
            GradeSave::NoDensity
        } else if tiles == 1 {
            GradeSave::Write
        } else {
            GradeSave::ManyTiles
        }),
{
    if !asked {
        GradeSave::Nothing
    } else if splat {
        if tiles == 1 {
            GradeSave::Write
        } else {
            GradeSave::ManyTiles
        }
    } else {
        GradeSave::NoDensity
    }
}

impl GradeSave {
    /// What is said where a buffer was asked for and none is written.
    pub open spec fn warning_text(self) -> Option<Seq<char>> {
        match self {
            GradeSave::ManyTiles => Some(
                "warning: --grade-out needs a single tile; a contact sheet has one linear buffer per tile. Not written."@,
            ),
            GradeSave::NoDensity => Some(
                "warning: --grade-out is a splat-renderer feature (there is no linear density behind the points renderer). Not written."@,
            ),
            _ => None,
        }
    }

    /// The warning, if there is one.
    pub fn warning(self) -> (w: Option<&'static str>)
        ensures
            w is Some <==> self.warning_text() is Some,
            w is Some ==> Some((w->0)@) == self.warning_text(),
    {
        match self {
            GradeSave::ManyTiles => Some(
                "warning: --grade-out needs a single tile; a contact sheet has one linear buffer per tile. Not written.",
            ),
            GradeSave::NoDensity => Some(
                "warning: --grade-out is a splat-renderer feature (there is no linear density behind the points renderer). Not written.",
            ),
            _ => None,
        }
    }
}

/// What is said at the end of a still or a camera sheet.
pub open spec fn still_summary_text(
    outcome: Outcome,
    sheet: (nat, nat),
    tiles: nat,
    tile: (nat, nat),
    points: nat,
    path: Seq<char>,
) -> Seq<char> {
    (if outcome == Outcome::Partial {
        "Stopped, partial render"@
    } else {
        "Rendered"@
    }) + " "@ + text::decimal(sheet.0) + "x"@ + text::decimal(sheet.1) + " ("@ + text::decimal(
        tiles,
    ) + " tile"@ + (if tiles == 1 {
        ""@
    } else {
        "s"@
    }) + " of "@ + text::decimal(tile.0) + "x"@ + text::decimal(tile.1) + ", "@ + text::decimal(
        points,
    ) + " points) -> "@ + path
}

/// The closing line of a still or a camera sheet.
pub fn still_summary(
    outcome: Outcome,
    sheet: (u32, u32),
    tiles: usize,
    tile: (u32, u32),
    points: u32,
    path: &str,
) -> (s: String)
    ensures
        s@ == still_summary_text(
            outcome,
            (sheet.0 as nat, sheet.1 as nat),
            tiles as nat,
            (tile.0 as nat, tile.1 as nat),
            points as nat,
            path@,
        ),
{
    let mut s = String::new();
    if outcome.is_partial() {
        s.append("Stopped, partial render");
    } else {
        s.append("Rendered");
    }
    s.append(" ");
    text::push_decimal(&mut s, sheet.0 as u128);
    s.append("x");
    text::push_decimal(&mut s, sheet.1 as u128);
    s.append(" (");
    text::push_decimal(&mut s, tiles as u128);
    s.append(" tile");
    if tiles == 1 {
        s.append("");
    } else {
        s.append("s");
    }
    s.append(" of ");
    text::push_decimal(&mut s, tile.0 as u128);
    s.append("x");
    text::push_decimal(&mut s, tile.1 as u128);
    s.append(", ");
    text::push_decimal(&mut s, points as u128);
    s.append(" points) -> ");
    s.append(path);
    assert(s@ =~= still_summary_text(
        outcome,
        (sheet.0 as nat, sheet.1 as nat),
        tiles as nat,
        (tile.0 as nat, tile.1 as nat),
        points as nat,
        path@,
    ));
    s
}

/// What is said at the end of a sheet of variants: `kind` is what varies.
pub open spec fn sheet_summary_text(
    outcome: Outcome,
    sheet: (nat, nat),
    done: nat,
    total: nat,
    kind: Seq<char>,
    tile: (nat, nat),
    path: Seq<char>,
) -> Seq<char> {
    (if outcome == Outcome::Partial {
        "Stopped, partial sheet"@
    } else {
        "Rendered"@
    }) + " "@ + text::decimal(sheet.0) + "x"@ + text::decimal(sheet.1) + " ("@ + text::decimal(
        done,
    ) + " of "@ + text::decimal(total) + " "@ + kind + " tiles of "@ + text::decimal(tile.0) + "x"@
        + text::decimal(tile.1) + ") -> "@ + path
}

/// The closing line of a sheet of variants.
pub fn sheet_summary(
    outcome: Outcome,
    sheet: (u32, u32),
    run: Run,
    kind: &str,
    tile: (u32, u32),
    path: &str,
) -> (s: String)
    ensures
        s@ == sheet_summary_text(
            outcome,
            (sheet.0 as nat, sheet.1 as nat),
            run.done as nat,
            run.total as nat,
            kind@,
            (tile.0 as nat, tile.1 as nat),
            path@,
        ),
{
    let mut s = String::new();
    if outcome.is_partial() {
        s.append("Stopped, partial sheet");
    } else {
        s.append("Rendered");
    }
    s.append(" ");
    text::push_decimal(&mut s, sheet.0 as u128);
    s.append("x");
    text::push_decimal(&mut s, sheet.1 as u128);
    s.append(" (");
    text::push_decimal(&mut s, run.done as u128);
    s.append(" of ");
    text::push_decimal(&mut s, run.total as u128);
    s.append(" ");
    s.append(kind);
    s.append(" tiles of ");
    text::push_decimal(&mut s, tile.0 as u128);
    s.append("x");
    text::push_decimal(&mut s, tile.1 as u128);
    s.append(") -> ");
    s.append(path);
    assert(s@ =~= sheet_summary_text(
        outcome,
        (sheet.0 as nat, sheet.1 as nat),
        run.done as nat,
        run.total as nat,
        kind@,
        (tile.0 as nat, tile.1 as nat),
        path@,
    ));
    s
}

/// What is said of how the time went, in billionths of a second.
pub open spec fn timing_text(setup: int, fill: int, render: int, save: int, total: int) -> Seq<char> {
    "Timing: setup "@ + num::single_text(setup, UNIT as nat, 2) + "s | chaos fill "@
        + num::single_text(fill, UNIT as nat, 2) + "s | render "@ + num::single_text(
        render,
        UNIT as nat,
        2,
    ) + "s | encode+save "@ + num::single_text(save, UNIT as nat, 2) + "s | total "@
        + num::single_text(total, UNIT as nat, 2) + "s"@
}

/// The timing line of a render, from five instants in order.
pub fn print_timing(t0: i64, t1: i64, t2: i64, t3: i64, t4: i64) -> (s: String)
    requires
        0 <= t0 <= t1 <= t2 <= t3 <= t4,
    ensures
        s@ == timing_text(t1 - t0, t2 - t1, t3 - t2, t4 - t3, t4 - t0),
{
    let mut s = String::new();
    s.append("Timing: setup ");
    num::push_single(&mut s, t1 - t0, UNIT, 2);
    s.append("s | chaos fill ");
    num::push_single(&mut s, t2 - t1, UNIT, 2);
    s.append("s | render ");
    num::push_single(&mut s, t3 - t2, UNIT, 2);
    s.append("s | encode+save ");
    num::push_single(&mut s, t4 - t3, UNIT, 2);
    s.append("s | total ");
    num::push_single(&mut s, t4 - t0, UNIT, 2);
    s.append("s");
    assert(s@ =~= timing_text(t1 - t0, t2 - t1, t3 - t2, t4 - t3, t4 - t0));
    s
}

/// What is said of how the time of a sheet of many scenes went, whose tiles are
/// filled one by one as they are drawn.
pub open spec fn sheet_timing_text(
    setup: int,
    fills: int,
    tiles: nat,
    render: int,
    save: int,
    total: int,
) -> Seq<char> {
    "Timing: setup "@ + num::single_text(setup, UNIT as nat, 2) + "s | fills "@ + num::single_text(
        fills,
        UNIT as nat,
        2,
    ) + "s ("@ + text::decimal(tiles) + " tiles) | render+readback "@ + num::single_text(
        render,
        UNIT as nat,
        2,
    ) + "s | encode+save "@ + num::single_text(save, UNIT as nat, 2) + "s | total "@
        + num::single_text(total, UNIT as nat, 2) + "s"@
}

/// The timing line of a sheet of many scenes, from four instants in order and
/// the time that went into fills.
pub fn sheet_timing(t0: i64, t1: i64, t2: i64, t3: i64, fills: i64, tiles: u32) -> (s: String)
    requires
        0 <= t0 <= t1 <= t2 <= t3,
        0 <= fills,
    ensures
        s@ == sheet_timing_text(t1 - t0, fills as int, tiles as nat, t2 - t1 - fills, t3 - t2, t3 - t0),
{
    let mut s = String::new();
    s.append("Timing: setup ");
    num::push_single(&mut s, t1 - t0, UNIT, 2);
    s.append("s | fills ");
    num::push_single(&mut s, fills, UNIT, 2);
    s.append("s (");
    text::push_decimal(&mut s, tiles as u128);
    s.append(" tiles) | render+readback ");
    num::push_single(&mut s, t2 - t1 - fills, UNIT, 2);
    s.append("s | encode+save ");
    num::push_single(&mut s, t3 - t2, UNIT, 2);
    s.append("s | total ");
    num::push_single(&mut s, t3 - t0, UNIT, 2);
    s.append("s");
    assert(s@ =~= sheet_timing_text(
        t1 - t0,
        fills as int,
        tiles as nat,
        t2 - t1 - fills,
        t3 - t2,
        t3 - t0,
    ));
    s
}

} // verus!
