//! Tonemap grading: the knobs, a sweep along one of them, and the sheet that
//! re-grades one saved buffer.
//!
//! Every knob is counted in billionths.

use vstd::prelude::*;
use crate::offline::UNIT;
use crate::num;
use crate::text;
use crate::tiles;

verus! {

/// Tonemap grade: gamma, its toe, and vibrancy.
#[derive(Clone, Copy, Debug, PartialEq, Eq, Structural)]
pub struct Grade {
    pub gamma: i64,
    pub gamma_threshold: i64,
    pub vibrancy: i64,
}

/// The grade that changes nothing.
pub open spec fn neutral_grade() -> Grade {
    Grade { gamma: 1_000_000_000, gamma_threshold: 0, vibrancy: 1_000_000_000 }
}

impl Grade {
    /// The grade that changes nothing.
    pub fn neutral() -> (g: Grade)
        ensures
            g == neutral_grade(),
    {
        Grade { gamma: 1_000_000_000, gamma_threshold: 0, vibrancy: 1_000_000_000 }
    }
}

impl Default for Grade {
    fn default() -> (g: Grade)
        ensures
            g == neutral_grade(),
    {
        Grade::neutral()
    }
}

/// Exposure together with the grade: everything the tonemap takes.
#[derive(Clone, Copy, Debug, PartialEq, Eq, Structural)]
pub struct Tonemap {
    pub exposure: i64,
    pub grade: Grade,
}

/// Which tonemap knob a sweep walks.
#[derive(Clone, Copy, Debug, PartialEq, Eq, Structural)]
pub enum GradeAxis {
    Exposure,
    Gamma,
    GammaThreshold,
    Vibrancy,
}

impl GradeAxis {
    /// The knob's key.
    pub open spec fn label_text(self) -> Seq<char> {
        match self {
            GradeAxis::Exposure => "exposure"@,
            GradeAxis::Gamma => "gamma"@,
            GradeAxis::GammaThreshold => "gamma_threshold"@,
            GradeAxis::Vibrancy => "vibrancy"@,
        }
    }

    /// The knob's key.
    pub fn label(self) -> (s: &'static str)
        ensures
            s@ == self.label_text(),
    {
        match self {
            GradeAxis::Exposure => "exposure",
            GradeAxis::Gamma => "gamma",
            GradeAxis::GammaThreshold => "gamma_threshold",
            GradeAxis::Vibrancy => "vibrancy",
        }
    }

    /// What a tonemap reads on this knob.
    pub open spec fn of(self, t: Tonemap) -> i64 {
        match self {
            GradeAxis::Exposure => t.exposure,
            GradeAxis::Gamma => t.grade.gamma,
            GradeAxis::GammaThreshold => t.grade.gamma_threshold,
            GradeAxis::Vibrancy => t.grade.vibrancy,
        }
    }

    /// The tonemap with this knob at `v`.
    pub open spec fn applied(self, v: i64, t: Tonemap) -> Tonemap {
        match self {
            GradeAxis::Exposure => Tonemap { exposure: v, ..t },
            GradeAxis::Gamma => Tonemap { grade: Grade { gamma: v, ..t.grade }, ..t },
            GradeAxis::GammaThreshold => Tonemap {
                grade: Grade { gamma_threshold: v, ..t.grade },
                ..t
            },
            GradeAxis::Vibrancy => Tonemap { grade: Grade { vibrancy: v, ..t.grade }, ..t },
        }
    }

    /// Set this knob, and no other.
    pub fn apply(self, v: i64, exposure: &mut i64, grade: &mut Grade)
        ensures
            (Tonemap { exposure: *final(exposure), grade: *final(grade) }) == self.applied(
                v,
                Tonemap { exposure: *old(exposure), grade: *old(grade) },
            ),
    {
        match self {
            GradeAxis::Exposure => *exposure = v,
            GradeAxis::Gamma => grade.gamma = v,
            GradeAxis::GammaThreshold => grade.gamma_threshold = v,
            GradeAxis::Vibrancy => grade.vibrancy = v,
        }
    }

    /// The part of each knob's range where something happens.
    pub open spec fn useful_range(self) -> (i64, i64) {
        match self {
            GradeAxis::Exposure => (500_000_000, 3_000_000_000),
            GradeAxis::Gamma => (1_000_000_000, 4_000_000_000),
            GradeAxis::GammaThreshold => (0, 500_000_000),
            GradeAxis::Vibrancy => (0, 1_000_000_000),
        }
    }

    /// The range that a sweep walks when none is given.
    pub fn default_range(self) -> (r: (i64, i64))
        ensures
            r == self.useful_range(),
    {
        match self {
            GradeAxis::Exposure => (500_000_000, 3_000_000_000),
            GradeAxis::Gamma => (1_000_000_000, 4_000_000_000),
            GradeAxis::GammaThreshold => (0, 500_000_000),
            GradeAxis::Vibrancy => (0, 1_000_000_000),
        }
    }
}

/// A knob moves itself to the value and every other knob stays.
pub proof fn each_axis_moves_only_its_own_knob(axis: GradeAxis, other: GradeAxis, v: i64, t: Tonemap)
    ensures
        axis.of(axis.applied(v, t)) == v,
        other != axis ==> other.of(axis.applied(v, t)) == other.of(t),
{
}

/// A tonemap sweep: one knob, walked across a contact sheet.
#[derive(Clone, Copy, Debug)]
pub struct GradeSweep {
    pub axis: GradeAxis,
    pub from: i64,
    pub to: i64,
    pub steps: usize,
}

/// The value at step `i` of `steps`: both ends are on the sheet, and a sweep
/// of one step stays at its start.
pub open spec fn step_value(from: int, to: int, i: int, steps: int) -> int {
    if steps <= 1 {
        from
    } else if to >= from {
        from + (to - from) * i / (steps - 1)
    } else {
        from - (from - to) * i / (steps - 1)
    }
}

/// A sweep starts at its start, ends at its end, and stays between them.
pub proof fn a_sweep_reaches_both_ends(from: int, to: int, i: int, steps: int)
    requires
        0 <= i < steps,
    ensures
        step_value(from, to, 0, steps) == from,
        steps > 1 ==> step_value(from, to, steps - 1, steps) == to,
        from <= to ==> from <= step_value(from, to, i, steps) <= to,
        to <= from ==> to <= step_value(from, to, i, steps) <= from,
{
    if steps > 1 {
        let d = if to >= from {
            to - from
        } else {
            from - to
        };
        let n = steps - 1;
        assert(d * 0 / n == 0) by (nonlinear_arith)
            requires
                n > 0,
        ;
        assert(d * n / n == d) by (nonlinear_arith)
            requires
                n > 0,
        ;
        assert(0 <= d * i / n <= d) by (nonlinear_arith)
            requires
                0 <= i <= n,
                n > 0,
                d >= 0,
        ;
    }
}

fn value_at(from: i64, to: i64, i: usize, steps: usize) -> (v: i64)
    requires
        i < steps,
        steps <= u32::MAX,
    ensures
        v == step_value(from as int, to as int, i as int, steps as int),
{
    if steps <= 1 {
        return from;
    }
    proof {
        a_sweep_reaches_both_ends(from as int, to as int, i as int, steps as int);
    }
    let n: i128 = steps as i128 - 1;
    let k: i128 = i as i128;
    if to >= from {
        let d: i128 = to as i128 - from as i128;
        assert(0 <= d * k <= 0x1_0000_0000_0000_0000 * 0xFFFF_FFFF) by (nonlinear_arith)
            requires
                0 <= d <= 0x1_0000_0000_0000_0000,
                0 <= k <= 0xFFFF_FFFF,
        ;
        (from as i128 + d * k / n) as i64
    } else {
        let d: i128 = from as i128 - to as i128;
        assert(0 <= d * k <= 0x1_0000_0000_0000_0000 * 0xFFFF_FFFF) by (nonlinear_arith)
            requires
                0 <= d <= 0x1_0000_0000_0000_0000,
                0 <= k <= 0xFFFF_FFFF,
        ;
        (from as i128 - d * k / n) as i64
    }
}

/// What a command line says about the knobs; `None` keeps the buffer's own.
#[derive(Clone, Copy, Debug)]
pub struct Overrides {
    pub exposure: Option<i64>,
    pub gamma: Option<i64>,
    pub gamma_threshold: Option<i64>,
    pub vibrancy: Option<i64>,
}

/// A value if there is one, else the fallback.
pub open spec fn given_or(v: Option<i64>, fallback: i64) -> i64 {
    match v {
        Some(x) => x,
        None => fallback,
    }
}

impl Overrides {
    /// The overrides over a base, knob by knob.
    pub open spec fn over(self, base: Tonemap) -> Tonemap {
        Tonemap {
            exposure: given_or(self.exposure, base.exposure),
            grade: Grade {
                gamma: given_or(self.gamma, base.grade.gamma),
                gamma_threshold: given_or(self.gamma_threshold, base.grade.gamma_threshold),
                vibrancy: given_or(self.vibrancy, base.grade.vibrancy),
            },
        }
    }

    /// Apply the overrides to a base, knob by knob.
    pub fn apply_to(self, base: Tonemap) -> (t: Tonemap)
        ensures
            t == self.over(base),
    {
        Tonemap {
            exposure: self.exposure.unwrap_or(base.exposure),
            grade: Grade {
                gamma: self.gamma.unwrap_or(base.grade.gamma),
                gamma_threshold: self.gamma_threshold.unwrap_or(base.grade.gamma_threshold),
                vibrancy: self.vibrancy.unwrap_or(base.grade.vibrancy),
            },
        }
    }
}

/// Without overrides the buffer's own tonemap stands.
pub proof fn no_overrides_change_nothing(base: Tonemap)
    ensures
        (Overrides { exposure: None, gamma: None, gamma_threshold: None, vibrancy: None }).over(base)
            == base,
{
}

/// One tile of a re-graded sheet.
pub struct GradedTile {
    pub tonemap: Tonemap,
    pub col: u32,
    pub row: u32,
    /// What the tile is labelled; nothing outside a sweep
    pub label: String,
}

/// The label of a swept tile: the knob and its value.
pub open spec fn sweep_label_text(axis: GradeAxis, v: int) -> Seq<char> {
    axis.label_text() + " "@ + num::single_text(v, UNIT as nat, 4)
}

/// What tile `i` of the sheet is.
pub open spec fn tile_is(
    t: GradedTile,
    base: Tonemap,
    sweep: Option<GradeSweep>,
    i: int,
    steps: int,
    cols: int,
) -> bool {
    &&& (t.col as int, t.row as int) == tiles::cell_of(i, cols)
    &&& match sweep {
        None => t.tonemap == base && t.label@ == Seq::<char>::empty(),
        Some(sw) => {
            let v = step_value(sw.from as int, sw.to as int, i, steps);
            t.tonemap == sw.axis.applied(v as i64, base) && t.label@ == sweep_label_text(
                sw.axis,
                v,
            )
        },
    }
}

/// The number of tiles: one, or the sweep's steps and at least one.
pub open spec fn tile_total(sweep: Option<GradeSweep>) -> int {
    match sweep {
        None => 1,
        Some(sw) => if sw.steps == 0 {
            1
        } else {
            sw.steps as int
        },
    }
}

/// A re-graded sheet: its grid and its tiles.
pub struct GradedSheet {
    pub cols: u32,
    pub rows: u32,
    pub tiles: Vec<GradedTile>,
}

/// Lay out the sheet that re-grades one buffer: one tile, or one for each step
/// of a sweep.
pub fn retonemap(buffer: Tonemap, over: Overrides, sweep: Option<GradeSweep>) -> (s: GradedSheet)
    requires
        tile_total(sweep) <= u32::MAX,
    ensures
        s.tiles.len() == tile_total(sweep),
        tiles::is_grid_side(s.cols as int, tile_total(sweep)),
        s.rows == (tile_total(sweep) + s.cols - 1) / (s.cols as int),
        forall|i: int|
            0 <= i < s.tiles.len() ==> tile_is(
                #[trigger] s.tiles@[i],
                over.over(buffer),
                sweep,
                i,
                tile_total(sweep),
                s.cols as int,
            ),
{
    let base = over.apply_to(buffer);
    let steps: usize = match sweep {
        None => 1,
        Some(sw) => if sw.steps == 0 {
            1
        } else {
            sw.steps
        },
    };
    let (cols, rows) = tiles::grid_shape(steps);
    let mut v: Vec<GradedTile> = Vec::new();
    let mut i: usize = 0;
    while i < steps
        invariant
            i <= steps,
            steps == tile_total(sweep),
            steps <= u32::MAX,
            cols >= 1,
            base == over.over(buffer),
            v.len() == i,
            forall|k: int|
                0 <= k < i ==> tile_is(
                    #[trigger] v@[k],
                    base,
                    sweep,
                    k,
                    steps as int,
                    cols as int,
                ),
        decreases steps - i,
    {
        let (col, row) = tiles::cell(i as u32, cols);
        let mut exposure: i64 = base.exposure;
        let mut grade: Grade = base.grade;
        let mut label = String::new();
        match sweep {
            None => {},
            Some(sw) => {
                let value: i64 = value_at(sw.from, sw.to, i, steps);
                sw.axis.apply(value, &mut exposure, &mut grade);
                label.append(sw.axis.label());
                label.append(" ");
                num::push_single(&mut label, value, UNIT, 4);
                assert(label@ =~= sweep_label_text(sw.axis, value as int));
            },
        }
        v.push(GradedTile { tonemap: Tonemap { exposure, grade }, col, row, label });
        i += 1;
    }
    GradedSheet { cols, rows, tiles: v }
}

/// What is said of a buffer that was graded anew. Numbers are given as they
/// are written.
pub open spec fn regraded_text(
    size: (nat, nat),
    exposure: Seq<char>,
    gamma: Seq<char>,
    threshold: Seq<char>,
    vibrancy: Seq<char>,
    path: Seq<char>,
) -> Seq<char> {
    "Re-graded "@ + text::decimal(size.0) + "x"@ + text::decimal(size.1) + " (exposure "@ + exposure
        + ", gamma "@ + gamma + ", threshold "@ + threshold + ", vibrancy "@ + vibrancy + ") -> "@
        + path
}

/// The closing line of a buffer that was graded anew.
pub fn regraded(
    size: (u32, u32),
    exposure: &str,
    gamma: &str,
    threshold: &str,
    vibrancy: &str,
    path: &str,
) -> (s: String)
    ensures
        s@ == regraded_text(
            (size.0 as nat, size.1 as nat),
            exposure@,
            gamma@,
            threshold@,
            vibrancy@,
            path@,
        ),
{
    let mut s = String::new();
    s.append("Re-graded ");
    text::push_decimal(&mut s, size.0 as u128);
    s.append("x");
    text::push_decimal(&mut s, size.1 as u128);
    s.append(" (exposure ");
    s.append(exposure);
    s.append(", gamma ");
    s.append(gamma);
    s.append(", threshold ");
    s.append(threshold);
    s.append(", vibrancy ");
    s.append(vibrancy);
    s.append(") -> ");
    s.append(path);
    assert(s@ =~= regraded_text(
        (size.0 as nat, size.1 as nat),
        exposure@,
        gamma@,
        threshold@,
        vibrancy@,
        path@,
    ));
    s
}

/// What is said of a buffer that was graded at every step of a sweep.
pub open spec fn regraded_sweep_text(
    steps: nat,
    size: (nat, nat),
    axis: GradeAxis,
    from: Seq<char>,
    to: Seq<char>,
    path: Seq<char>,
) -> Seq<char> {
    "Re-graded "@ + text::decimal(steps) + " tiles of "@ + text::decimal(size.0) + "x"@
        + text::decimal(size.1) + ", "@ + axis.label_text() + " from "@ + from + " to "@ + to
        + " -> "@ + path
}

/// The closing line of a buffer that was graded at every step of a sweep.
pub fn regraded_sweep(
    steps: usize,
    size: (u32, u32),
    axis: GradeAxis,
    from: &str,
    to: &str,
    path: &str,
) -> (s: String)
    ensures
        s@ == regraded_sweep_text(
            steps as nat,
            (size.0 as nat, size.1 as nat),
            axis,
            from@,
            to@,
            path@,
        ),
{
    let mut s = String::new();
    s.append("Re-graded ");
    text::push_decimal(&mut s, steps as u128);
    s.append(" tiles of ");
    text::push_decimal(&mut s, size.0 as u128);
    s.append("x");
    text::push_decimal(&mut s, size.1 as u128);
    s.append(", ");
    s.append(axis.label());
    s.append(" from ");
    s.append(from);
    s.append(" to ");
    s.append(to);
    s.append(" -> ");
    s.append(path);
    assert(s@ =~= regraded_sweep_text(
        steps as nat,
        (size.0 as nat, size.1 as nat),
        axis,
        from@,
        to@,
        path@,
    ));
    s
}

/// An axis sets the number that it is named for and no other, and reads the same
/// one.
pub proof fn an_axis_is_the_number_it_names(v: i64, t: Tonemap)
    ensures
        ({
            let e = GradeAxis::Exposure.applied(v, t);
            e.exposure == v && e.grade == t.grade && GradeAxis::Exposure.of(t) == t.exposure
        }),
        ({
            let g = GradeAxis::Gamma.applied(v, t);
            &&& g.grade.gamma == v && g.exposure == t.exposure
            &&& g.grade.gamma_threshold == t.grade.gamma_threshold
            &&& g.grade.vibrancy == t.grade.vibrancy
            &&& GradeAxis::Gamma.of(t) == t.grade.gamma
        }),
        ({
            let h = GradeAxis::GammaThreshold.applied(v, t);
            &&& h.grade.gamma_threshold == v && h.exposure == t.exposure
            &&& h.grade.gamma == t.grade.gamma
            &&& h.grade.vibrancy == t.grade.vibrancy
            &&& GradeAxis::GammaThreshold.of(t) == t.grade.gamma_threshold
        }),
        ({
            let w = GradeAxis::Vibrancy.applied(v, t);
            &&& w.grade.vibrancy == v && w.exposure == t.exposure
            &&& w.grade.gamma == t.grade.gamma
            &&& w.grade.gamma_threshold == t.grade.gamma_threshold
            &&& GradeAxis::Vibrancy.of(t) == t.grade.vibrancy
        }),
{
}

/// What is given counts, number by number, and the buffer's own counts for the
/// rest.
pub proof fn what_is_given_counts(o: Overrides, base: Tonemap)
    ensures
        ({
            let t = o.over(base);
            &&& o.exposure is Some ==> t.exposure == o.exposure->0
            &&& o.exposure is None ==> t.exposure == base.exposure
            &&& o.gamma is Some ==> t.grade.gamma == o.gamma->0
            &&& o.gamma is None ==> t.grade.gamma == base.grade.gamma
            &&& o.gamma_threshold is Some ==> t.grade.gamma_threshold == o.gamma_threshold->0
            &&& o.gamma_threshold is None ==> t.grade.gamma_threshold == base.grade.gamma_threshold
            &&& o.vibrancy is Some ==> t.grade.vibrancy == o.vibrancy->0
            &&& o.vibrancy is None ==> t.grade.vibrancy == base.grade.vibrancy
        }),
{
}

/// A sweep goes from one end to the other in equal steps.
pub proof fn a_sweep_goes_in_equal_steps(from: int, to: int, i: int, steps: int)
    requires
        0 <= i < steps,
        steps > 1,
    ensures
        ({
            let gone = (step_value(from, to, i, steps) - from) * (steps - 1);
            -(steps - 1) < gone - (to - from) * i < steps - 1
        }),
{
    let m = steps - 1;
    if to >= from {
        let n = (to - from) * i;
        let q = n / m;
        assert(q * m <= n < q * m + m) by (nonlinear_arith)
            requires
                q == n / m,
                m > 0,
        ;
        assert((from + q - from) * m == q * m);
    } else {
        let n = (from - to) * i;
        let q = n / m;
        assert(q * m <= n < q * m + m) by (nonlinear_arith)
            requires
                q == n / m,
                m > 0,
        ;
        assert((from - q - from) * m == -(q * m)) by (nonlinear_arith);
        assert((to - from) * i == -n) by (nonlinear_arith)
            requires
                n == (from - to) * i,
        ;
    }
}

/// A range to sweep is half to three times for exposure, one to four for gamma,
/// none to a half for its threshold and none to all for vibrancy. The grade that
/// changes nothing is at the start or at the end of every one of the last three.
pub proof fn ranges_begin_or_end_with_no_change()
    ensures
        2 * GradeAxis::Exposure.useful_range().0 == UNIT,
        GradeAxis::Exposure.useful_range().1 == 3 * UNIT,
        GradeAxis::Gamma.useful_range().0 == neutral_grade().gamma,
        GradeAxis::Gamma.useful_range().1 == 4 * neutral_grade().gamma,
        GradeAxis::GammaThreshold.useful_range().0 == neutral_grade().gamma_threshold,
        2 * GradeAxis::GammaThreshold.useful_range().1 == UNIT,
        GradeAxis::Vibrancy.useful_range().0 == 0,
        GradeAxis::Vibrancy.useful_range().1 == neutral_grade().vibrancy,
        neutral_grade().gamma == UNIT,
        neutral_grade().gamma_threshold == 0,
        neutral_grade().vibrancy == UNIT,
{
}

/// A sheet has a tile for every step of a sweep, in its cell, with the swept
/// number alone changed; without a sweep it has one tile as it is.
pub proof fn tiles_are_steps_of_the_sweep(
    t: GradedTile,
    base: Tonemap,
    sweep: Option<GradeSweep>,
    i: int,
    steps: int,
    cols: int,
)
    requires
        tile_is(t, base, sweep, i, steps, cols),
        0 <= i < steps,
        0 < cols,
    ensures
        t.col + cols * t.row == i,
        t.col < cols,
        sweep is None ==> t.tonemap == base && t.label@.len() == 0,
        sweep matches Some(sw) ==> t.tonemap == sw.axis.applied(
            step_value(sw.from as int, sw.to as int, i, steps) as i64,
            base,
        ),
        tile_total(None) == 1,
        sweep matches Some(sw) ==> tile_total(sweep) >= 1 && (sw.steps > 0 ==> tile_total(sweep)
            == sw.steps),
{
    tiles::cells_are_filled_row_by_row(i, cols);
}

} // verus!
