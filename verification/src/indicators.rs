//! The lines that are drawn into a scene to show what a map, a symmetry or a
//! camera path does: which lines there are, between which places.
//!
//! A place is given by what it stands for, and what only a formula can say of
//! it, such as a cosine, is left to who draws it.

use crate::path::CameraPath;
use crate::quantity::Point;
use vstd::prelude::*;

verus! {

/// What a line shows, which gives it its colour.
#[derive(Clone, Copy, Debug, PartialEq, Eq, Structural)]
pub enum Mark {
    Offset,
    Rotation,
    /// A group's axis, ring or cage.
    Group,
    /// What a group's fold is counted by.
    Spoke,
    Path,
    Key,
}

/// A place in a scene. Shares are of the drawing's size, in units of
/// `1 / UNIT`.
#[derive(Clone, Copy, Debug, PartialEq, Eq, Structural)]
pub enum Place {
    /// The world's origin.
    Origin,
    /// Where a map takes the origin.
    Tip,
    /// The end of one of the four barbs of an arrow.
    Barb { index: usize },
    /// Along the axis.
    Axis { share: i64 },
    /// Around the axis, at so many parts of a full turn.
    Ring { part: u64, parts: u64, share: i64 },
    /// Around the axis, at so many parts of the rotation's angle.
    Arc { part: u64, parts: u64 },
    /// A copy in a chain.
    Node { index: usize },
    /// Beside a copy in a chain, across the first or the second way.
    Beside { index: usize, second: bool, share: i64 },
    /// A corner of a cage.
    Corner { index: usize },
    /// The eye, so many parts along a path.
    Eye { part: u64, parts: u64 },
    /// Beside the eye at a key of a path, one tick along one of three axes.
    Tick { key: usize, axis: u32, ahead: bool },
}

/// A line between two places.
#[derive(Clone, Copy, Debug, PartialEq, Eq, Structural)]
pub struct Line {
    pub from: Place,
    pub to: Place,
    pub mark: Mark,
}

// ---- a map -----------------------------------------------------------------

/// The segments of a full turn's arc.
pub const ARC_SEGMENTS: i64 = 48;

/// The smallest angle that an arc is drawn for, in radians.
pub const MIN_ARC_ANGLE: i64 = 20_000_000;

/// The smallest offset that an arrow is drawn for.
pub const MIN_OFFSET: i64 = 100_000;

/// A full turn in radians.
pub const TAU: i64 = 6_283_185_307;

/// The size of a number.
pub open spec fn size(v: int) -> int {
    if v < 0 {
        -v
    } else {
        v
    }
}

/// The size of a map's cell: the mean of its scales, and a fiftieth at least.
pub open spec fn cell_of(scale: Point) -> int {
    let mean = (size(scale.x as int) + size(scale.y as int) + size(scale.z as int)) / 3;
    if mean < 20_000_000 {
        20_000_000
    } else {
        mean
    }
}

fn size_of(v: i64) -> (n: i128)
    ensures
        n == size(v as int),
        0 <= n <= 0x8000_0000_0000_0000,
{
    let w: i128 = v as i128;
    if w < 0 {
        -w
    } else {
        w
    }
}

/// The size of a map's cell.
pub fn cell(scale: Point) -> (c: i128)
    ensures
        c == cell_of(scale),
{
    let mean: i128 = (size_of(scale.x) + size_of(scale.y) + size_of(scale.z)) / 3;
    if mean < 20_000_000 {
        20_000_000
    } else {
        mean
    }
}

/// The length of an arrow's head: 35 hundredths of the cell, and no more than
/// three tenths of the shaft.
pub open spec fn head_of(cell: int, len: int) -> int {
    let a = cell * 35 / 100;
    let b = len * 30 / 100;
    if a < b {
        a
    } else {
        b
    }
}

/// The length of an arrow's head.
pub fn head(cell: i128, len: i128) -> (h: i128)
    requires
        0 <= cell <= 0x8000_0000_0000_0000,
        0 <= len <= 0x8000_0000_0000_0000,
    ensures
        h == head_of(cell as int, len as int),
{
    let a: i128 = cell * 35 / 100;
    let b: i128 = len * 30 / 100;
    if a < b {
        a
    } else {
        b
    }
}

/// A barb of an arrow.
pub open spec fn barb(k: int) -> Line {
    Line { from: Place::Tip, to: Place::Barb { index: k as usize }, mark: Mark::Offset }
}

/// The arrow from the origin to where a map takes it, so far away; nothing for
/// a map that stays.
pub open spec fn offset_lines(len: int) -> Seq<Line> {
    if len < MIN_OFFSET {
        Seq::empty()
    } else {
        seq![Line { from: Place::Origin, to: Place::Tip, mark: Mark::Offset }] + Seq::new(
            4,
            |k: int| barb(k),
        )
    }
}

/// Append the arrow from the origin to where a map takes it.
pub fn push_offset(out: &mut Vec<Line>, len: i64)
    ensures
        final(out)@ == old(out)@ + offset_lines(len as int),
{
    let ghost before = out@;
    if len < MIN_OFFSET {
        assert(out@ =~= before + offset_lines(len as int));
        return;
    }
    out.push(Line { from: Place::Origin, to: Place::Tip, mark: Mark::Offset });
    let mut k: usize = 0;
    let ghost front = out@;
    while k < 4
        invariant
            k <= 4,
            out@ == front + Seq::new(k as nat, |i: int| barb(i)),
        decreases 4 - k,
    {
        out.push(Line { from: Place::Tip, to: Place::Barb { index: k }, mark: Mark::Offset });
        k += 1;
        assert(out@ =~= front + Seq::new(k as nat, |i: int| barb(i)));
    }
    assert(out@ =~= before + offset_lines(len as int));
}

/// How many segments an arc has: 48 to a full turn, rounded up, and two at
/// least.
pub open spec fn arc_steps(angle: int) -> int {
    let n = (size(angle) * ARC_SEGMENTS + TAU - 1) / TAU as int;
    if n < 2 {
        2
    } else {
        n
    }
}

/// How many segments an arc has.
pub fn steps_of(angle: i64) -> (n: u64)
    requires
        -1_000_000_000_000 <= angle <= 1_000_000_000_000,
    ensures
        n == arc_steps(angle as int),
        2 <= n <= 10_000,
{
    let a: i64 = if angle < 0 {
        -angle
    } else {
        angle
    };
    let n: i64 = (a * ARC_SEGMENTS + TAU - 1) / TAU;
    if n < 2 {
        2
    } else {
        n as u64
    }
}

/// Segment `i` of an arc.
pub open spec fn arc_segment(i: int, steps: int) -> Line {
    Line {
        from: Place::Arc { part: i as u64, parts: steps as u64 },
        to: Place::Arc { part: (i + 1) as u64, parts: steps as u64 },
        mark: Mark::Rotation,
    }
}

/// A tick from a map's origin to a place on its arc.
pub open spec fn radius_line(part: int, steps: int) -> Line {
    Line {
        from: Place::Tip,
        to: Place::Arc { part: part as u64, parts: steps as u64 },
        mark: Mark::Rotation,
    }
}

/// The axis and the arc of a rotation, with a tick at either end of the arc;
/// nothing for a rotation that is next to none, or that has no axis.
pub open spec fn rotation_lines(angle: int, has_axis: bool) -> Seq<Line> {
    if !has_axis || size(angle) < MIN_ARC_ANGLE {
        Seq::empty()
    } else {
        let n = arc_steps(angle);
        seq![
            Line {
                from: Place::Axis { share: (-1_300_000_000) as i64 },
                to: Place::Axis { share: 1_300_000_000 },
                mark: Mark::Rotation,
            },
        ] + Seq::new(n as nat, |i: int| arc_segment(i, n)) + seq![
            radius_line(0, n),
            radius_line(n, n),
        ]
    }
}

/// Append the axis and the arc of a rotation.
pub fn push_rotation(out: &mut Vec<Line>, angle: i64, has_axis: bool)
    requires
        -1_000_000_000_000 <= angle <= 1_000_000_000_000,
    ensures
        final(out)@ == old(out)@ + rotation_lines(angle as int, has_axis),
{
    let ghost before = out@;
    if !has_axis || (-MIN_ARC_ANGLE < angle && angle < MIN_ARC_ANGLE) {
        assert(out@ =~= before + rotation_lines(angle as int, has_axis));
        return;
    }
    out.push(
        Line {
            from: Place::Axis { share: -1_300_000_000 },
            to: Place::Axis { share: 1_300_000_000 },
            mark: Mark::Rotation,
        },
    );
    let n: u64 = steps_of(angle);
    let ghost front = out@;
    let mut i: u64 = 0;
    assert(out@ =~= front + Seq::new(0, |k: int| arc_segment(k, n as int)));
    while i < n
        invariant
            i <= n <= 10_000,
            out@ == front + Seq::new(i as nat, |k: int| arc_segment(k, n as int)),
        decreases n - i,
    {
        out.push(
            Line {
                from: Place::Arc { part: i, parts: n },
                to: Place::Arc { part: i + 1, parts: n },
                mark: Mark::Rotation,
            },
        );
        i += 1;
        assert(out@ =~= front + Seq::new(i as nat, |k: int| arc_segment(k, n as int)));
    }
    out.push(
        Line { from: Place::Tip, to: Place::Arc { part: 0, parts: n }, mark: Mark::Rotation },
    );
    out.push(
        Line { from: Place::Tip, to: Place::Arc { part: n, parts: n }, mark: Mark::Rotation },
    );
    assert(out@ =~= before + rotation_lines(angle as int, has_axis));
}

/// The lines for a map: its offset, so far away, and its rotation.
pub fn build(len: i64, angle: i64, has_axis: bool) -> (v: Vec<Line>)
    requires
        -1_000_000_000_000 <= angle <= 1_000_000_000_000,
    ensures
        v@ == offset_lines(len as int) + rotation_lines(angle as int, has_axis),
{
    let mut v: Vec<Line> = Vec::new();
    push_offset(&mut v, len);
    push_rotation(&mut v, angle, has_axis);
    assert(v@ =~= offset_lines(len as int) + rotation_lines(angle as int, has_axis));
    v
}

/// A map that does nothing draws nothing, and one that only moves draws an
/// arrow and no arc.
pub proof fn nothing_done_is_nothing_drawn(len: int, angle: int)
    requires
        size(angle) < MIN_ARC_ANGLE,
    ensures
        rotation_lines(angle, true).len() == 0,
        len < MIN_OFFSET ==> offset_lines(len).len() == 0,
        len >= MIN_OFFSET ==> offset_lines(len).len() == 5,
{
}

// ---- a symmetry ------------------------------------------------------------

/// What kind of symmetry a group is.
#[derive(Clone, Copy, Debug, PartialEq, Eq, Structural)]
pub enum OrbitKind {
    Cyclic(u32),
    Dihedral(u32),
    Repeat(u32),
    Tetrahedral,
    Octahedral,
    Icosahedral,
}

/// The segments of a group's ring.
pub const RING: u64 = 64;

/// The axis of a group, so far past the form at either end.
pub open spec fn axis_line(share: int) -> Line {
    Line {
        from: Place::Axis { share: (-share) as i64 },
        to: Place::Axis { share: share as i64 },
        mark: Mark::Group,
    }
}

/// Spoke `k` of `n`.
pub open spec fn spoke(k: int, n: int) -> Line {
    Line {
        from: Place::Ring { part: k as u64, parts: n as u64, share: 180_000_000 },
        to: Place::Ring { part: k as u64, parts: n as u64, share: 950_000_000 },
        mark: Mark::Spoke,
    }
}

/// Segment `i` of the ring that joins the spokes.
pub open spec fn ring_segment(i: int) -> Line {
    Line {
        from: Place::Ring { part: i as u64, parts: RING, share: 950_000_000 },
        to: Place::Ring { part: (i + 1) as u64, parts: RING, share: 950_000_000 },
        mark: Mark::Group,
    }
}

/// Half-turn axis `k` of `n`, midway between two spokes.
pub open spec fn strut(k: int, n: int) -> Line {
    Line {
        from: Place::Ring { part: (2 * k + 1) as u64, parts: (2 * n) as u64, share: 820_000_000 },
        to: Place::Ring { part: (2 * k + 1) as u64, parts: (2 * n) as u64, share: 1_120_000_000 },
        mark: Mark::Spoke,
    }
}

/// The lines of a group with an axis: the axis, a spoke for each fold, the
/// ring, and the half-turn axes of a dihedral one.
pub open spec fn wheel(n: int, dihedral: bool) -> Seq<Line> {
    seq![axis_line(1_350_000_000)] + Seq::new(n as nat, |k: int| spoke(k, n)) + Seq::new(
        RING as nat,
        |i: int| ring_segment(i),
    ) + (if dihedral {
        Seq::new(n as nat, |k: int| strut(k, n))
    } else {
        Seq::empty()
    })
}

fn push_spokes(out: &mut Vec<Line>, n: u32)
    ensures
        final(out)@ == old(out)@ + Seq::new(n as nat, |k: int| spoke(k, n as int)),
{
    let ghost before = out@;
    let mut k: u32 = 0;
    assert(out@ =~= before + Seq::new(0, |i: int| spoke(i, n as int)));
    while k < n
        invariant
            k <= n,
            out@ == before + Seq::new(k as nat, |i: int| spoke(i, n as int)),
        decreases n - k,
    {
        out.push(
            Line {
                from: Place::Ring { part: k as u64, parts: n as u64, share: 180_000_000 },
                to: Place::Ring { part: k as u64, parts: n as u64, share: 950_000_000 },
                mark: Mark::Spoke,
            },
        );
        k += 1;
        assert(out@ =~= before + Seq::new(k as nat, |i: int| spoke(i, n as int)));
    }
}

fn push_ring(out: &mut Vec<Line>)
    ensures
        final(out)@ == old(out)@ + Seq::new(RING as nat, |i: int| ring_segment(i)),
{
    let ghost before = out@;
    let mut i: u64 = 0;
    assert(out@ =~= before + Seq::new(0, |k: int| ring_segment(k)));
    while i < RING
        invariant
            i <= RING,
            out@ == before + Seq::new(i as nat, |k: int| ring_segment(k)),
        decreases RING - i,
    {
        out.push(
            Line {
                from: Place::Ring { part: i, parts: RING, share: 950_000_000 },
                to: Place::Ring { part: i + 1, parts: RING, share: 950_000_000 },
                mark: Mark::Group,
            },
        );
        i += 1;
        assert(out@ =~= before + Seq::new(i as nat, |k: int| ring_segment(k)));
    }
}

fn push_struts(out: &mut Vec<Line>, n: u32)
    ensures
        final(out)@ == old(out)@ + Seq::new(n as nat, |k: int| strut(k, n as int)),
{
    let ghost before = out@;
    let mut k: u32 = 0;
    assert(out@ =~= before + Seq::new(0, |i: int| strut(i, n as int)));
    while k < n
        invariant
            k <= n,
            out@ == before + Seq::new(k as nat, |i: int| strut(i, n as int)),
        decreases n - k,
    {
        let part: u64 = 2 * k as u64 + 1;
        let parts: u64 = 2 * n as u64;
        out.push(
            Line {
                from: Place::Ring { part, parts, share: 820_000_000 },
                to: Place::Ring { part, parts, share: 1_120_000_000 },
                mark: Mark::Spoke,
            },
        );
        k += 1;
        assert(out@ =~= before + Seq::new(k as nat, |i: int| strut(i, n as int)));
    }
}

fn make_wheel(n: u32, dihedral: bool) -> (v: Vec<Line>)
    ensures
        v@ == wheel(n as int, dihedral),
{
    let mut v: Vec<Line> = Vec::new();
    v.push(
        Line {
            from: Place::Axis { share: -1_350_000_000 },
            to: Place::Axis { share: 1_350_000_000 },
            mark: Mark::Group,
        },
    );
    push_spokes(&mut v, n);
    push_ring(&mut v);
    if dihedral {
        push_struts(&mut v, n);
    }
    assert(v@ =~= wheel(n as int, dihedral));
    v
}

/// A tick across a copy in a chain.
pub open spec fn tick(i: int, second: bool) -> Line {
    Line {
        from: Place::Beside { index: i as usize, second, share: (-50_000_000) as i64 },
        to: Place::Beside { index: i as usize, second, share: 50_000_000 },
        mark: Mark::Group,
    }
}

/// The lines of one copy in a chain of `n`: on to the next, and a cross.
pub open spec fn link(i: int, n: int) -> Seq<Line> {
    (if i + 1 < n {
        seq![
            Line {
                from: Place::Node { index: i as usize },
                to: Place::Node { index: (i + 1) as usize },
                mark: Mark::Spoke,
            },
        ]
    } else {
        Seq::empty()
    }) + seq![tick(i, false), tick(i, true)]
}

/// The lines of the first `k` copies in a chain of `n`.
pub open spec fn links(k: nat, n: int) -> Seq<Line>
    decreases k,
{
    if k == 0 {
        Seq::empty()
    } else {
        links((k - 1) as nat, n) + link(k - 1, n)
    }
}

/// The lines of a repeat: the axis, and the chain of its copies.
pub open spec fn chain(n: int) -> Seq<Line> {
    seq![axis_line(1_150_000_000)] + links(n as nat, n)
}

fn make_chain(n: usize) -> (v: Vec<Line>)
    ensures
        v@ == chain(n as int),
{
    let mut v: Vec<Line> = Vec::new();
    v.push(
        Line {
            from: Place::Axis { share: -1_150_000_000 },
            to: Place::Axis { share: 1_150_000_000 },
            mark: Mark::Group,
        },
    );
    let ghost front = v@;
    let mut i: usize = 0;
    assert(v@ =~= front + links(0, n as int));
    while i < n
        invariant
            i <= n,
            v@ == front + links(i as nat, n as int),
        decreases n - i,
    {
        let ghost had = v@;
        if i + 1 < n {
            v.push(
                Line {
                    from: Place::Node { index: i },
                    to: Place::Node { index: i + 1 },
                    mark: Mark::Spoke,
                },
            );
        }
        v.push(
            Line {
                from: Place::Beside { index: i, second: false, share: -50_000_000 },
                to: Place::Beside { index: i, second: false, share: 50_000_000 },
                mark: Mark::Group,
            },
        );
        v.push(
            Line {
                from: Place::Beside { index: i, second: true, share: -50_000_000 },
                to: Place::Beside { index: i, second: true, share: 50_000_000 },
                mark: Mark::Group,
            },
        );
        assert(v@ =~= had + link(i as int, n as int));
        i += 1;
        assert(v@ =~= front + links(i as nat, n as int));
    }
    assert(v@ =~= chain(n as int));
    v
}

// ---- a cage ----------------------------------------------------------------

/// The golden ratio.
pub const PHI: i64 = 1_618_033_989;

/// The square of the distance between two corners.
pub open spec fn apart(a: Point, b: Point) -> int {
    (a.x - b.x) * (a.x - b.x) + (a.y - b.y) * (a.y - b.y) + (a.z - b.z) * (a.z - b.z)
}

/// Whether a corner is near enough to the middle for its distances to be
/// worked out.
pub open spec fn is_corner(p: Point) -> bool {
    -2_000_000_000 <= p.x <= 2_000_000_000 && -2_000_000_000 <= p.y <= 2_000_000_000
        && -2_000_000_000 <= p.z <= 2_000_000_000
}

fn square(a: i64, b: i64) -> (s: i128)
    requires
        -2_000_000_000 <= a <= 2_000_000_000,
        -2_000_000_000 <= b <= 2_000_000_000,
    ensures
        s == (a - b) * (a - b),
        0 <= s <= 16_000_000_000_000_000_000,
{
    let d: i128 = a as i128 - b as i128;
    assert(0 <= d * d <= 16_000_000_000_000_000_000) by (nonlinear_arith)
        requires
            -4_000_000_000 <= d <= 4_000_000_000,
    ;
    d * d
}

fn apart_of(a: Point, b: Point) -> (s: i128)
    requires
        is_corner(a),
        is_corner(b),
    ensures
        s == apart(a, b),
        0 <= s <= 48_000_000_000_000_000_000,
{
    square(a.x, b.x) + square(a.y, b.y) + square(a.z, b.z)
}

/// The least of a number and the distances from corner `i` to the corners from
/// `i + 1` up to `n`.
pub open spec fn nearest_in_row(v: Seq<Point>, i: int, n: int, least: int) -> int
    decreases n - i,
{
    if n <= i + 1 {
        least
    } else {
        let d = nearest_in_row(v, i, n - 1, least);
        if apart(v[i], v[n - 1]) < d {
            apart(v[i], v[n - 1])
        } else {
            d
        }
    }
}

/// More than any distance between corners.
pub const FAR: i128 = 1_000_000_000_000_000_000_000;

/// The least distance between two of the corners, among pairs whose first is
/// below `rows`.
pub open spec fn nearest(v: Seq<Point>, rows: int) -> int
    decreases rows,
{
    if rows <= 0 {
        FAR as int
    } else {
        nearest_in_row(v, rows - 1, v.len() as int, nearest(v, rows - 1))
    }
}

/// Whether two corners are joined: they are as near as any two are, to within
/// a thousandth of the square of the cage's size.
pub open spec fn joined(v: Seq<Point>, i: int, j: int, shortest: int) -> bool {
    1000 * size(apart(v[i], v[j]) - shortest) < apart(v[0], Point { x: 0, y: 0, z: 0 })
}

/// The edges from corner `i` to the corners below `n`.
pub open spec fn edges_in_row(v: Seq<Point>, i: int, n: int, shortest: int) -> Seq<(usize, usize)>
    decreases n - i,
{
    if n <= i + 1 {
        Seq::empty()
    } else {
        let had = edges_in_row(v, i, n - 1, shortest);
        if joined(v, i, n - 1, shortest) {
            had.push((i as usize, (n - 1) as usize))
        } else {
            had
        }
    }
}

/// The edges whose first corner is below `rows`.
pub open spec fn edges(v: Seq<Point>, rows: int, shortest: int) -> Seq<(usize, usize)>
    decreases rows,
{
    if rows <= 0 {
        Seq::empty()
    } else {
        edges(v, rows - 1, shortest) + edges_in_row(v, rows - 1, v.len() as int, shortest)
    }
}

/// The edges of a cage: its pairs of corners that are as near as any two are.
pub open spec fn cage(v: Seq<Point>) -> Seq<(usize, usize)> {
    edges(v, v.len() as int, nearest(v, v.len() as int))
}

fn shortest_edge(v: &Vec<Point>) -> (s: i128)
    requires
        forall|i: int| 0 <= i < v@.len() ==> is_corner(#[trigger] v@[i]),
    ensures
        s == nearest(v@, v@.len() as int),
        0 <= s <= FAR,
{
    let len: usize = v.len();
    let mut s: i128 = FAR;
    let mut i: usize = 0;
    while i < len
        invariant
            i <= len == v@.len(),
            forall|k: int| 0 <= k < v@.len() ==> is_corner(#[trigger] v@[k]),
            s == nearest(v@, i as int),
            0 <= s <= FAR,
        decreases len - i,
    {
        let ghost least = s as int;
        let mut j: usize = i + 1;
        while j < len
            invariant
                i < len,
                i + 1 <= j <= len == v@.len(),
                forall|k: int| 0 <= k < v@.len() ==> is_corner(#[trigger] v@[k]),
                s == nearest_in_row(v@, i as int, j as int, least),
                0 <= s <= FAR,
            decreases len - j,
        {
            assert(is_corner(v@[i as int]) && is_corner(v@[j as int]));
            let d: i128 = apart_of(v[i], v[j]);
            if d < s {
                s = d;
            }
            j += 1;
        }
        i += 1;
    }
    s
}

fn is_joined(v: &Vec<Point>, i: usize, j: usize, shortest: i128) -> (b: bool)
    requires
        i < v@.len(),
        j < v@.len(),
        0 <= shortest <= FAR,
        forall|k: int| 0 <= k < v@.len() ==> is_corner(#[trigger] v@[k]),
    ensures
        b == joined(v@, i as int, j as int, shortest as int),
{
    assert(is_corner(v@[i as int]) && is_corner(v@[j as int]) && is_corner(v@[0]));
    let d: i128 = apart_of(v[i], v[j]) - shortest;
    let off: i128 = if d < 0 {
        -d
    } else {
        d
    };
    let scale: i128 = apart_of(v[0], Point { x: 0, y: 0, z: 0 });
    1000 * off < scale
}

/// The edges of a cage, by the numbers of their corners.
pub fn cage_edges(v: &Vec<Point>) -> (r: Vec<(usize, usize)>)
    requires
        forall|i: int| 0 <= i < v@.len() ==> is_corner(#[trigger] v@[i]),
    ensures
        r@ == cage(v@),
{
    let len: usize = v.len();
    let shortest: i128 = shortest_edge(v);
    let mut r: Vec<(usize, usize)> = Vec::new();
    let mut i: usize = 0;
    assert(r@ =~= edges(v@, 0, shortest as int));
    while i < len
        invariant
            i <= len == v@.len(),
            0 <= shortest <= FAR,
            forall|k: int| 0 <= k < v@.len() ==> is_corner(#[trigger] v@[k]),
            r@ == edges(v@, i as int, shortest as int),
        decreases len - i,
    {
        let ghost had = r@;
        let mut j: usize = i + 1;
        assert(r@ =~= had + edges_in_row(v@, i as int, j as int, shortest as int));
        while j < len
            invariant
                i < len,
                i + 1 <= j <= len == v@.len(),
                0 <= shortest <= FAR,
                forall|k: int| 0 <= k < v@.len() ==> is_corner(#[trigger] v@[k]),
                r@ == had + edges_in_row(v@, i as int, j as int, shortest as int),
            decreases len - j,
        {
            if is_joined(v, i, j, shortest) {
                r.push((i, j));
            }
            j += 1;
            assert(r@ =~= had + edges_in_row(v@, i as int, j as int, shortest as int));
        }
        i += 1;
        assert(r@ =~= edges(v@, i as int, shortest as int));
    }
    r
}

/// A number or its opposite.
pub open spec fn signed(v: int, minus: bool) -> int {
    if minus {
        -v
    } else {
        v
    }
}

/// Corner `i` of the cage of a group: the tetrahedron on alternate corners of
/// a cube, the cube, or the icosahedron of golden rectangles.
pub open spec fn corner_of(kind: OrbitKind, i: int) -> Point {
    let unit = 1_000_000_000int;
    let phi = PHI as int;
    match kind {
        OrbitKind::Tetrahedral => crate::flame::at(
            signed(unit, i >= 2),
            signed(unit, i == 1 || i == 3),
            signed(unit, i == 1 || i == 2),
        ),
        OrbitKind::Octahedral => crate::flame::at(
            signed(unit, i % 2 == 1),
            signed(unit, i / 2 % 2 == 1),
            signed(unit, i / 4 % 2 == 1),
        ),
        _ => {
            let a = signed(unit, i >= 6);
            let b = signed(phi, i / 3 % 2 == 1);
            if i % 3 == 0 {
                crate::flame::at(0, a, b)
            } else if i % 3 == 1 {
                crate::flame::at(a, b, 0)
            } else {
                crate::flame::at(b, 0, a)
            }
        },
    }
}

/// How many corners the cage of a group has; none where it has no cage.
pub open spec fn corner_count(kind: OrbitKind) -> nat {
    match kind {
        OrbitKind::Tetrahedral => 4,
        OrbitKind::Octahedral => 8,
        OrbitKind::Icosahedral => 12,
        _ => 0,
    }
}

/// The corners of the cage of a group.
pub open spec fn corners(kind: OrbitKind) -> Seq<Point> {
    Seq::new(corner_count(kind), |i: int| corner_of(kind, i))
}

fn with_sign(v: i64, minus: bool) -> (r: i64)
    requires
        0 <= v <= 2_000_000_000,
    ensures
        r == signed(v as int, minus),
{
    if minus {
        -v
    } else {
        v
    }
}

fn make_corner(kind: OrbitKind, i: usize) -> (p: Point)
    ensures
        p == corner_of(kind, i as int),
        is_corner(p),
{
    let unit: i64 = 1_000_000_000;
    match kind {
        OrbitKind::Tetrahedral => Point {
            x: with_sign(unit, i >= 2),
            y: with_sign(unit, i == 1 || i == 3),
            z: with_sign(unit, i == 1 || i == 2),
        },
        OrbitKind::Octahedral => Point {
            x: with_sign(unit, i % 2 == 1),
            y: with_sign(unit, i / 2 % 2 == 1),
            z: with_sign(unit, i / 4 % 2 == 1),
        },
        _ => {
            let a: i64 = with_sign(unit, i >= 6);
            let b: i64 = with_sign(PHI, i / 3 % 2 == 1);
            if i % 3 == 0 {
                Point { x: 0, y: a, z: b }
            } else if i % 3 == 1 {
                Point { x: a, y: b, z: 0 }
            } else {
                Point { x: b, y: 0, z: a }
            }
        },
    }
}

/// The corners of the cage of a group.
pub fn cage_corners(kind: OrbitKind) -> (v: Vec<Point>)
    ensures
        v@ == corners(kind),
        forall|i: int| 0 <= i < v@.len() ==> is_corner(#[trigger] v@[i]),
{
    let n: usize = match kind {
        OrbitKind::Tetrahedral => 4,
        OrbitKind::Octahedral => 8,
        OrbitKind::Icosahedral => 12,
        _ => 0,
    };
    let mut v: Vec<Point> = Vec::new();
    let mut i: usize = 0;
    while i < n
        invariant
            i <= n == corner_count(kind),
            v@ == corners(kind).take(i as int),
            forall|k: int| 0 <= k < v@.len() ==> is_corner(#[trigger] v@[k]),
        decreases n - i,
    {
        v.push(make_corner(kind, i));
        i += 1;
        assert(v@ =~= corners(kind).take(i as int));
    }
    assert(v@ =~= corners(kind));
    v
}

/// The lines of a cage.
pub open spec fn cage_lines(e: Seq<(usize, usize)>) -> Seq<Line> {
    Seq::new(
        e.len(),
        |i: int|
            Line {
                from: Place::Corner { index: e[i].0 },
                to: Place::Corner { index: e[i].1 },
                mark: Mark::Group,
            },
    )
}

fn make_cage(kind: OrbitKind) -> (v: Vec<Line>)
    ensures
        v@ == cage_lines(cage(corners(kind))),
{
    let corners = cage_corners(kind);
    let e = cage_edges(&corners);
    let mut v: Vec<Line> = Vec::new();
    let mut i: usize = 0;
    while i < e.len()
        invariant
            i <= e@.len(),
            v@ == cage_lines(e@).take(i as int),
        decreases e@.len() - i,
    {
        v.push(
            Line {
                from: Place::Corner { index: e[i].0 },
                to: Place::Corner { index: e[i].1 },
                mark: Mark::Group,
            },
        );
        i += 1;
        assert(v@ =~= cage_lines(e@).take(i as int));
    }
    assert(v@ =~= cage_lines(e@));
    v
}

/// The lines of a group; a repeat has so many copies.
pub open spec fn symmetry_lines(kind: OrbitKind, copies: int) -> Seq<Line> {
    match kind {
        OrbitKind::Cyclic(n) => wheel(n as int, false),
        OrbitKind::Dihedral(n) => wheel(n as int, true),
        OrbitKind::Repeat(_) => chain(copies),
        _ => cage_lines(cage(corners(kind))),
    }
}

/// The lines of a group: an axis with a spoke for each fold, a chain of
/// copies, or the solid that the group is named after.
pub fn build_symmetry(kind: OrbitKind, copies: usize) -> (v: Vec<Line>)
    ensures
        v@ == symmetry_lines(kind, copies as int),
{
    match kind {
        OrbitKind::Cyclic(n) => make_wheel(n, false),
        OrbitKind::Dihedral(n) => make_wheel(n, true),
        OrbitKind::Repeat(_) => make_chain(copies),
        _ => make_cage(kind),
    }
}

/// A cyclic group has one spoke for each fold, and a dihedral one as many
/// half-turn axes besides.
pub proof fn spokes_count_the_folds(n: u32)
    ensures
        symmetry_lines(OrbitKind::Cyclic(n), 0).len() == 65 + n,
        symmetry_lines(OrbitKind::Dihedral(n), 0).len() == 65 + 2 * n,
        forall|k: int|
            0 <= k < n ==> (#[trigger] symmetry_lines(OrbitKind::Cyclic(n), 0)[1 + k]) == spoke(
                k,
                n as int,
            ),
{
}

/// Every edge of a cage joins two different corners of it.
pub proof fn edges_join_corners(v: Seq<Point>, rows: int, shortest: int, k: int)
    requires
        0 <= rows <= v.len() <= usize::MAX,
        0 <= k < edges(v, rows, shortest).len(),
    ensures
        edges(v, rows, shortest)[k].0 < edges(v, rows, shortest)[k].1 < v.len(),
    decreases rows,
{
    if rows > 0 {
        let had = edges(v, rows - 1, shortest);
        if k < had.len() {
            edges_join_corners(v, rows - 1, shortest, k);
        } else {
            row_edges_join(v, rows - 1, v.len() as int, shortest, k - had.len());
        }
    }
}

proof fn row_edges_join(v: Seq<Point>, i: int, n: int, shortest: int, k: int)
    requires
        0 <= i < n <= v.len() <= usize::MAX,
        0 <= k < edges_in_row(v, i, n, shortest).len(),
    ensures
        edges_in_row(v, i, n, shortest)[k].0 < edges_in_row(v, i, n, shortest)[k].1 < v.len(),
    decreases n,
{
    if n > i + 1 {
        let had = edges_in_row(v, i, n - 1, shortest);
        if k < had.len() {
            row_edges_join(v, i, n - 1, shortest, k);
        }
    }
}

// ---- a camera path ---------------------------------------------------------

/// Samples to a segment of a path.
pub const PATH_SAMPLES_PER_SEGMENT: usize = 16;

/// Segment `i` of a path's line.
pub open spec fn path_segment(i: int, samples: int) -> Line {
    Line {
        from: Place::Eye { part: i as u64, parts: samples as u64 },
        to: Place::Eye { part: (i + 1) as u64, parts: samples as u64 },
        mark: Mark::Path,
    }
}

/// One of the three struts that mark a key.
pub open spec fn key_strut(key: int, axis: int) -> Line {
    Line {
        from: Place::Tick { key: key as usize, axis: axis as u32, ahead: false },
        to: Place::Tick { key: key as usize, axis: axis as u32, ahead: true },
        mark: Mark::Key,
    }
}

/// The lines of a path of so many segments and keys: the eye's way, and a
/// cross at every key.
pub open spec fn path_lines(segments: int, keys: int) -> Seq<Line> {
    let samples = segments * PATH_SAMPLES_PER_SEGMENT;
    Seq::new(samples as nat, |i: int| path_segment(i, samples)) + Seq::new(
        (3 * keys) as nat,
        |k: int| key_strut(k / 3, k % 3),
    )
}

fn make_path(segments: usize, keys: usize) -> (v: Vec<Line>)
    requires
        segments * PATH_SAMPLES_PER_SEGMENT <= usize::MAX,
        keys * 3 <= usize::MAX,
    ensures
        v@ == path_lines(segments as int, keys as int),
{
    let samples: usize = segments * PATH_SAMPLES_PER_SEGMENT;
    let mut v: Vec<Line> = Vec::new();
    let mut i: usize = 0;
    assert(v@ =~= Seq::new(0, |k: int| path_segment(k, samples as int)));
    while i < samples
        invariant
            i <= samples,
            v@ == Seq::new(i as nat, |k: int| path_segment(k, samples as int)),
        decreases samples - i,
    {
        v.push(
            Line {
                from: Place::Eye { part: i as u64, parts: samples as u64 },
                to: Place::Eye { part: (i + 1) as u64, parts: samples as u64 },
                mark: Mark::Path,
            },
        );
        i += 1;
        assert(v@ =~= Seq::new(i as nat, |k: int| path_segment(k, samples as int)));
    }
    let ghost front = v@;
    let struts: usize = keys * 3;
    let mut k: usize = 0;
    assert(v@ =~= front + Seq::new(0, |j: int| key_strut(j / 3, j % 3)));
    while k < struts
        invariant
            k <= struts,
            v@ == front + Seq::new(k as nat, |j: int| key_strut(j / 3, j % 3)),
        decreases struts - k,
    {
        let key: usize = k / 3;
        let axis: u32 = (k % 3) as u32;
        v.push(
            Line {
                from: Place::Tick { key, axis, ahead: false },
                to: Place::Tick { key, axis, ahead: true },
                mark: Mark::Key,
            },
        );
        k += 1;
        assert(v@ =~= front + Seq::new(k as nat, |j: int| key_strut(j / 3, j % 3)));
    }
    assert(v@ =~= path_lines(segments as int, keys as int));
    v
}

/// The lines of a camera path: the eye's way and a cross at every key; nothing
/// for a path that cannot be played.
pub fn build_path(path: &CameraPath) -> (v: Vec<Line>)
    requires
        path.keys@.len() * PATH_SAMPLES_PER_SEGMENT <= usize::MAX,
    ensures
        v@ == (if path.is_playable() {
            path_lines(path.segment_count() as int, path.keys@.len() as int)
        } else {
            Seq::empty()
        }),
{
    if !path.playable() {
        return Vec::new();
    }
    make_path(path.segments(), path.keys.len())
}

/// The sum of the first `n` keys' distances.
pub open spec fn distance_sum(path: CameraPath, n: nat) -> int
    decreases n,
{
    if n == 0 {
        0
    } else {
        distance_sum(path, (n - 1) as nat) + path.keys@[n - 1].distance
    }
}

/// The size of a key's cross: a twenty-fifth of the mean distance, and a
/// thousandth at least.
pub open spec fn tick_of(path: CameraPath) -> int {
    let n = path.keys@.len();
    let t = distance_sum(path, n) / (25 * n) as int;
    if t < 1_000_000 {
        1_000_000
    } else {
        t
    }
}

/// The size of a key's cross.
pub fn tick_size(path: &CameraPath) -> (t: i64)
    requires
        0 < path.keys@.len() <= 0x1_0000_0000,
    ensures
        t == tick_of(*path),
{
    let n: usize = path.keys.len();
    let mut sum: i128 = 0;
    let mut i: usize = 0;
    while i < n
        invariant
            i <= n == path.keys@.len() <= 0x1_0000_0000,
            sum == distance_sum(*path, i as nat),
            -0x8000_0000_0000_0000 * i <= sum <= 0x8000_0000_0000_0000 * i,
        decreases n - i,
    {
        sum += path.keys[i].distance as i128;
        i += 1;
    }
    if sum < 0 {
        assert(sum as int / (25 * n) < 0) by (nonlinear_arith)
            requires
                sum < 0,
                n > 0,
        ;
        return 1_000_000;
    }
    let t: i128 = sum / (25 * n as i128);
    assert(t <= 0x1000_0000_0000_0000) by (nonlinear_arith)
        requires
            t == sum as int / (25 * n),
            sum <= 0x8000_0000_0000_0000 * n,
            n > 0,
    ;
    if t < 1_000_000 {
        1_000_000
    } else {
        t as i64
    }
}

// ---- what the lines show ---------------------------------------------------

/// An offset is shown by a shaft from the origin to where the map takes it, and
/// by four barbs at that end.
pub proof fn an_offset_ends_in_its_barbs(len: int, k: int)
    requires
        len >= 100_000,
        0 <= k < 4,
    ensures
        offset_lines(len).len() == 5,
        offset_lines(len)[0].from == Place::Origin,
        offset_lines(len)[0].to == Place::Tip,
        offset_lines(len)[1 + k].from == offset_lines(len)[0].to,
        offset_lines(len)[1 + k].to == (Place::Barb { index: k as usize }),
        offset_lines(len)[1 + k].mark == offset_lines(len)[0].mark,
{
}

/// An arc is of as many steps as it takes for none to be more than a 48th of a
/// turn, and of two at least.
pub proof fn an_arc_has_steps_enough(angle: int)
    ensures
        ({
            let n = arc_steps(angle);
            &&& n >= 2
            &&& angle >= 0 ==> n * TAU >= angle * 48
            &&& angle < 0 ==> n * TAU >= -angle * 48
            &&& n > 2 && angle >= 0 ==> (n - 1) * TAU < angle * 48
            &&& n > 2 && angle < 0 ==> (n - 1) * TAU < -angle * 48
        }),
{
    let s = size(angle) * 48;
    let q = (s + TAU - 1) / TAU as int;
    assert(q * TAU <= s + TAU - 1 < q * TAU + TAU);
}

/// A rotation is shown by its axis, as far on either side, and by an unbroken arc
/// from where it begins to where it ends, with a radius to both.
pub proof fn a_rotation_is_an_unbroken_arc(angle: int)
    requires
        size(angle) >= 20_000_000,
        size(angle) <= 1_000_000_000_000,
    ensures
        ({
            let l = rotation_lines(angle, true);
            let n = arc_steps(angle);
            &&& l.len() == n + 3
            &&& l[0].from is Axis && l[0].to is Axis && l[0].from->Axis_share == -l[0].to->Axis_share
            &&& 10 * l[0].to->Axis_share == 13_000_000_000
            &&& l[1].from == (Place::Arc { part: 0, parts: n as u64 })
            &&& l[n].to == (Place::Arc { part: n as u64, parts: n as u64 })
            &&& forall|i: int| 1 <= i < n ==> (#[trigger] l[i]).to == l[i + 1].from
            &&& l[n + 1].from == Place::Tip && l[n + 1].to == l[1].from
            &&& l[n + 2].from == Place::Tip && l[n + 2].to == l[n].to
            &&& forall|i: int| 0 <= i < l.len() ==> (#[trigger] l[i]).mark == Mark::Rotation
        }),
{
    an_arc_has_steps_enough(angle);
}

/// A group's spokes stand at equal parts of a turn, each straight out along its
/// own, the ring outside them is closed, and the marks of half-turns stand
/// half-way between one spoke and the next.
pub proof fn a_wheel_is_divided_evenly(n: u32, k: int)
    requires
        0 <= k < n,
    ensures
        ({
            let l = symmetry_lines(OrbitKind::Dihedral(n), 0);
            let (spoke, strut) = (l[1 + k], l[65 + n + k]);
            &&& spoke.from is Ring && spoke.to is Ring
            &&& spoke.from->Ring_part * n == k * spoke.from->Ring_parts
            &&& spoke.from->Ring_parts > 0
            &&& spoke.to->Ring_part == spoke.from->Ring_part && spoke.to->Ring_parts
                == spoke.from->Ring_parts
            &&& spoke.from->Ring_share < spoke.to->Ring_share
            &&& spoke.mark == Mark::Spoke
            &&& strut.from is Ring && strut.to is Ring
            &&& strut.from->Ring_parts > 0
            &&& strut.from->Ring_part * (2 * n) == (2 * k + 1) * strut.from->Ring_parts
            &&& strut.to->Ring_part == strut.from->Ring_part && strut.to->Ring_parts
                == strut.from->Ring_parts
            &&& strut.from->Ring_share < strut.to->Ring_share
            &&& strut.mark == Mark::Spoke
        }),
        ({
            let l = symmetry_lines(OrbitKind::Cyclic(n), 0);
            &&& l[1 + k] == symmetry_lines(OrbitKind::Dihedral(n), 0)[1 + k]
            &&& l[1 + n].from is Ring && l[1 + n].from->Ring_part == 0
            &&& l[64 + n].to is Ring && l[64 + n].to->Ring_part == l[64 + n].to->Ring_parts
            &&& forall|i: int| 1 + n <= i < 64 + n ==> (#[trigger] l[i]).to == l[i + 1].from
            &&& forall|i: int| 1 + n <= i < 65 + n ==> (#[trigger] l[i]).mark == Mark::Group
            &&& l[1 + n].from->Ring_share == l[1 + k].to->Ring_share
        }),
{
    let m = n as int;
    assert(k * m == m * k) by (nonlinear_arith);
    let (a, b) = (2 * k + 1, 2 * m);
    assert(a * b == b * a) by (nonlinear_arith);
}

/// The lines of the first copies of a chain: a cross at each, and a link from
/// each but the last to the next.
pub proof fn a_chain_links_its_copies(k: nat, n: int, i: int)
    requires
        0 <= i < k <= n <= usize::MAX,
    ensures
        links(k, n).contains(tick(i, false)),
        links(k, n).contains(tick(i, true)),
        i + 1 < n ==> exists|j: int|
            0 <= j < links(k, n).len() && (#[trigger] links(k, n)[j]).from == (Place::Node {
                index: i as usize,
            }) && links(k, n)[j].to == (Place::Node { index: (i + 1) as usize })
                && links(k, n)[j].mark == Mark::Spoke,
        n > k ==> links(k, n).len() == 3 * k,
        n == k ==> links(k, n).len() == 3 * k - 1,
    decreases k,
{
    let m = (k - 1) as nat;
    let (had, last) = (links(m, n), link(k - 1, n));
    let all = links(k, n);
    assert(all == had + last);
    if i < m {
        a_chain_links_its_copies(m, n, i);
        let a = choose|j: int| 0 <= j < had.len() && had[j] == tick(i, false);
        assert(all[a] == tick(i, false));
        let b = choose|j: int| 0 <= j < had.len() && had[j] == tick(i, true);
        assert(all[b] == tick(i, true));
        let c = choose|j: int|
            0 <= j < had.len() && (#[trigger] had[j]).from == (Place::Node { index: i as usize })
                && had[j].to == (Place::Node { index: (i + 1) as usize }) && had[j].mark
                == Mark::Spoke;
        assert(all[c] == had[c]);
    } else {
        if m > 0 {
            a_chain_links_its_copies(m, n, 0);
        } else {
            assert(had.len() == 0);
        }
        let t = last.len() as int;
        assert(last[t - 2] == tick(i, false));
        assert(last[t - 1] == tick(i, true));
        assert(all[had.len() + t - 2] == tick(i, false));
        assert(all[had.len() + t - 1] == tick(i, true));
        if i + 1 < n {
            assert(all[had.len() as int] == last[0]);
        }
    }
}

/// A tick stands across its copy, as far on either side.
pub proof fn a_tick_stands_across(i: int, second: bool)
    requires
        0 <= i <= usize::MAX,
    ensures
        ({
            let t = tick(i, second);
            &&& t.from is Beside && t.to is Beside
            &&& t.from->Beside_index == i && t.to->Beside_index == i
            &&& t.from->second == second && t.to->second == second
            &&& t.from->Beside_share == -t.to->Beside_share && t.to->Beside_share > 0
        }),
{
}

proof fn nearest_is_least_in_row(v: Seq<Point>, i: int, n: int, least: int)
    requires
        0 <= i < v.len(),
        n <= v.len(),
    ensures
        nearest_in_row(v, i, n, least) <= least,
        forall|j: int|
            i < j < n ==> nearest_in_row(v, i, n, least) <= apart(v[i], #[trigger] v[j]),
        nearest_in_row(v, i, n, least) == least || exists|j: int|
            i < j < n && nearest_in_row(v, i, n, least) == apart(v[i], #[trigger] v[j]),
    decreases n - i,
{
    if n > i + 1 {
        nearest_is_least_in_row(v, i, n - 1, least);
        let d = nearest_in_row(v, i, n - 1, least);
        if apart(v[i], v[n - 1]) < d {
            assert(nearest_in_row(v, i, n, least) == apart(v[i], v[n - 1]));
        }
    }
}

/// The shortest edge of a cage is as short as any two corners are apart, and
/// some two corners are that far apart.
pub proof fn the_shortest_edge_is_the_least_distance(v: Seq<Point>, rows: int)
    requires
        0 <= rows <= v.len(),
    ensures
        forall|i: int, j: int|
            0 <= i < rows && i < j < v.len() ==> nearest(v, rows) <= apart(
                #[trigger] v[i],
                #[trigger] v[j],
            ),
        nearest(v, rows) == FAR || exists|i: int, j: int|
            0 <= i < j < v.len() && nearest(v, rows) == apart(#[trigger] v[i], #[trigger] v[j]),
        nearest(v, rows) <= FAR,
    decreases rows,
{
    if rows > 0 {
        the_shortest_edge_is_the_least_distance(v, rows - 1);
        let n = v.len() as int;
        nearest_is_least_in_row(v, rows - 1, n, nearest(v, rows - 1));
        assert forall|i: int, j: int| 0 <= i < rows && i < j < n implies nearest(v, rows) <= apart(
            #[trigger] v[i],
            #[trigger] v[j],
        ) by {
            if i < rows - 1 {
                assert(nearest(v, rows - 1) <= apart(v[i], v[j]));
            }
        }
        if nearest(v, rows) != nearest(v, rows - 1) {
            let j = choose|j: int|
                rows - 1 < j < n && nearest(v, rows) == apart(v[rows - 1], #[trigger] v[j]);
            assert(nearest(v, rows) == apart(v[rows - 1], v[j]));
        }
    }
}

proof fn edges_of_a_row(v: Seq<Point>, i: int, n: int, shortest: int, a: int, b: int)
    requires
        0 <= i < v.len() <= usize::MAX,
        n <= v.len(),
        0 <= a <= usize::MAX,
        0 <= b <= usize::MAX,
    ensures
        edges_in_row(v, i, n, shortest).contains((a as usize, b as usize)) <==> a == i && i < b < n
            && joined(v, i, b, shortest),
    decreases n - i,
{
    let e = (a as usize, b as usize);
    if n > i + 1 {
        edges_of_a_row(v, i, n - 1, shortest, a, b);
        let had = edges_in_row(v, i, n - 1, shortest);
        if joined(v, i, n - 1, shortest) {
            let new = (i as usize, (n - 1) as usize);
            let all = had.push(new);
            assert(all.contains(e) <==> had.contains(e) || e == new) by {
                if had.contains(e) {
                    let k = choose|k: int| 0 <= k < had.len() && had[k] == e;
                    assert(all[k] == e);
                }
                if e == new {
                    assert(all[had.len() as int] == e);
                }
                if all.contains(e) {
                    let k = choose|k: int| 0 <= k < all.len() && all[k] == e;
                    if k < had.len() {
                        assert(had[k] == e);
                    }
                }
            }
        }
    }
}

proof fn edges_of_rows(v: Seq<Point>, rows: int, shortest: int, a: int, b: int)
    requires
        0 <= rows <= v.len() <= usize::MAX,
        0 <= a <= usize::MAX,
        0 <= b <= usize::MAX,
    ensures
        edges(v, rows, shortest).contains((a as usize, b as usize)) <==> a < rows && a < b < v.len()
            && joined(v, a, b, shortest),
    decreases rows,
{
    let e = (a as usize, b as usize);
    if rows > 0 {
        edges_of_rows(v, rows - 1, shortest, a, b);
        edges_of_a_row(v, rows - 1, v.len() as int, shortest, a, b);
        let (x, y) = (
            edges(v, rows - 1, shortest),
            edges_in_row(v, rows - 1, v.len() as int, shortest),
        );
        let all = x + y;
        assert(all.contains(e) <==> x.contains(e) || y.contains(e)) by {
            if x.contains(e) {
                let k = choose|k: int| 0 <= k < x.len() && x[k] == e;
                assert(all[k] == e);
            }
            if y.contains(e) {
                let k = choose|k: int| 0 <= k < y.len() && y[k] == e;
                assert(all[x.len() + k] == e);
            }
            if all.contains(e) {
                let k = choose|k: int| 0 <= k < all.len() && all[k] == e;
                if k < x.len() {
                    assert(x[k] == e);
                } else {
                    assert(y[k - x.len()] == e);
                }
            }
        }
    }
}

/// A cage joins two corners just where no others are closer together, to within
/// a thousandth of the square of a corner's distance from the middle.
pub proof fn a_cage_joins_the_nearest_corners(v: Seq<Point>, a: int, b: int, least: int)
    requires
        0 <= a < b < v.len() <= usize::MAX,
        forall|i: int| 0 <= i < v.len() ==> is_corner(#[trigger] v[i]),
        forall|i: int, j: int|
            0 <= i < j < v.len() ==> least <= apart(#[trigger] v[i], #[trigger] v[j]),
        exists|i: int, j: int|
            0 <= i < j < v.len() && least == apart(#[trigger] v[i], #[trigger] v[j]),
    ensures
        cage(v).contains((a as usize, b as usize)) <==> 1000 * (apart(v[a], v[b]) - least) < v[0].x
            * v[0].x + v[0].y * v[0].y + v[0].z * v[0].z,
{
    let n = v.len() as int;
    the_shortest_edge_is_the_least_distance(v, n);
    let s = nearest(v, n);
    let (i, j) = choose|i: int, j: int|
        0 <= i < j < v.len() && least == apart(#[trigger] v[i], #[trigger] v[j]);
    assert(s <= apart(v[i], v[j]));
    corners_are_not_far(v[i], v[j]);
    if s != FAR {
        let (k, l) = choose|k: int, l: int|
            0 <= k < l < v.len() && s == apart(#[trigger] v[k], #[trigger] v[l]);
        assert(least <= apart(v[k], v[l]));
    }
    assert(s == least);
    edges_of_rows(v, n, s, a, b);
    assert(least <= apart(v[a], v[b]));
}

proof fn corners_are_not_far(a: Point, b: Point)
    requires
        is_corner(a),
        is_corner(b),
    ensures
        0 <= apart(a, b) < FAR,
{
    let (x, y, z) = (a.x - b.x, a.y - b.y, a.z - b.z);
    assert(0 <= x * x <= 16_000_000_000_000_000_000 && 0 <= y * y <= 16_000_000_000_000_000_000
        && 0 <= z * z <= 16_000_000_000_000_000_000) by (nonlinear_arith)
        requires
            -4_000_000_000 <= x <= 4_000_000_000,
            -4_000_000_000 <= y <= 4_000_000_000,
            -4_000_000_000 <= z <= 4_000_000_000,
    ;
}

/// The eye's way is drawn unbroken from the start of its path to the end, with
/// three struts at every key, one along each axis.
pub proof fn a_path_is_drawn_unbroken(segments: int, keys: int, k: int)
    requires
        0 < segments <= 0x1000_0000,
        0 <= k < keys <= 0x1000_0000,
    ensures
        ({
            let l = path_lines(segments, keys);
            let n = 16 * segments;
            &&& l.len() == n + 3 * keys
            &&& l[0].from == (Place::Eye { part: 0, parts: n as u64 })
            &&& l[n - 1].to == (Place::Eye { part: n as u64, parts: n as u64 })
            &&& forall|i: int| 0 <= i < n - 1 ==> (#[trigger] l[i]).to == l[i + 1].from
            &&& forall|a: int|
                0 <= a < 3 ==> {
                    let s = #[trigger] l[n + 3 * k + a];
                    &&& s.from == (Place::Tick { key: k as usize, axis: a as u32, ahead: false })
                    &&& s.to == (Place::Tick { key: k as usize, axis: a as u32, ahead: true })
                    &&& s.mark == Mark::Key
                }
        }),
{
    let l = path_lines(segments, keys);
    let n = 16 * segments;
    assert forall|a: int| 0 <= a < 3 implies #[trigger] l[n + 3 * k + a] == key_strut(k, a) by {
        assert((3 * k + a) / 3 == k && (3 * k + a) % 3 == a);
    }
}

/// The size of a cell is the mean size of a map along its three axes, and that
/// of a tick a 25th of the mean distance of the keys; neither goes below what
/// can be seen.
pub proof fn sizes_are_means(scale: Point, path: CameraPath)
    requires
        path.keys@.len() > 0,
    ensures
        ({
            let sum = size(scale.x as int) + size(scale.y as int) + size(scale.z as int);
            let c = cell_of(scale);
            &&& c >= 20_000_000
            &&& c > 20_000_000 ==> 3 * c <= sum < 3 * c + 3
            &&& c == 20_000_000 ==> sum < 3 * c + 3
        }),
        ({
            let n = path.keys@.len();
            let (t, sum) = (tick_of(path), distance_sum(path, n));
            &&& t >= 1_000_000
            &&& t > 1_000_000 ==> (25 * n) * t <= sum < (25 * n) * (t + 1)
            &&& t == 1_000_000 ==> sum < (25 * n) * (t + 1)
        }),
{
    let n = path.keys@.len();
    let (sum, d) = (distance_sum(path, n), (25 * n) as int);
    let q = sum / d;
    assert(d * q <= sum < d * (q + 1)) by (nonlinear_arith)
        requires
            q == sum / d,
            d > 0,
    ;
    if q < 1_000_000 {
        assert(d * (q + 1) <= d * 1_000_001) by (nonlinear_arith)
            requires
                q < 1_000_000,
                d > 0,
        ;
    }
}

/// An arrow's head is 35 hundredths of a cell, and no more than thirty hundredths
/// of the arrow.
pub proof fn a_head_is_in_proportion(cell: int, len: int)
    requires
        0 <= cell,
        0 <= len,
    ensures
        100 * head_of(cell, len) <= 35 * cell,
        100 * head_of(cell, len) <= 30 * len,
        100 * head_of(cell, len) > 35 * cell - 100 || 100 * head_of(cell, len) > 30 * len - 100,
{
}

/// The distances of a path's keys are added up one by one.
pub proof fn distances_add_up(path: CameraPath, n: nat)
    requires
        n < path.keys@.len(),
    ensures
        distance_sum(path, 0) == 0,
        distance_sum(path, n + 1) - distance_sum(path, n) == path.keys@[n as int].distance,
{
}

/// A rectangle is golden where what is left of it after its square is like it.
pub proof fn the_ratio_is_golden()
    ensures
        -PHI <= PHI * PHI - PHI * 1_000_000_000 - 1_000_000_000 * 1_000_000_000 <= PHI,
        PHI > 1_000_000_000,
{
}

/// The corners of a tetrahedron are all equally far from each other.
pub proof fn a_tetrahedron_is_even(i: int, j: int)
    requires
        0 <= i < j < 4,
    ensures
        apart(corner_of(OrbitKind::Tetrahedral, i), corner_of(OrbitKind::Tetrahedral, j))
            == 8_000_000_000_000_000_000,
{
    let (a, b) = (
        corner_of(OrbitKind::Tetrahedral, i),
        corner_of(OrbitKind::Tetrahedral, j),
    );
    assert(a.x - b.x == 0 || a.x - b.x == 2_000_000_000 || a.x - b.x == -2_000_000_000);
    assert(a.y - b.y == 0 || a.y - b.y == 2_000_000_000 || a.y - b.y == -2_000_000_000);
    assert(a.z - b.z == 0 || a.z - b.z == 2_000_000_000 || a.z - b.z == -2_000_000_000);
}

/// The corners of a cube are the eight points that are one to either side along
/// every axis.
pub proof fn a_cube_has_its_eight_corners(i: int, j: int)
    requires
        0 <= i < j < 8,
    ensures
        ({
            let (a, b) = (
                corner_of(OrbitKind::Octahedral, i),
                corner_of(OrbitKind::Octahedral, j),
            );
            &&& a != b
            &&& a.x == 1_000_000_000 || a.x == -1_000_000_000
            &&& a.y == 1_000_000_000 || a.y == -1_000_000_000
            &&& a.z == 1_000_000_000 || a.z == -1_000_000_000
        }),
        corners(OrbitKind::Tetrahedral).len() == 4,
        corners(OrbitKind::Octahedral).len() == 8,
        corners(OrbitKind::Icosahedral).len() == 12,
{
    assert(i == 4 * (i / 4 % 2) + 2 * (i / 2 % 2) + i % 2);
    assert(j == 4 * (j / 4 % 2) + 2 * (j / 2 % 2) + j % 2);
}

/// The corners of an icosahedron are those of three golden rectangles, each in the
/// plane of two axes.
pub proof fn an_icosahedron_is_three_golden_rectangles(i: int, j: int)
    requires
        0 <= i < j < 12,
    ensures
        ({
            let (a, b) = (
                corner_of(OrbitKind::Icosahedral, i),
                corner_of(OrbitKind::Icosahedral, j),
            );
            &&& a != b
            &&& is_golden(a.x as int, a.y as int, a.z as int) || is_golden(
                a.z as int,
                a.x as int,
                a.y as int,
            ) || is_golden(a.y as int, a.z as int, a.x as int)
        }),
{
    assert(i == 6 * (i / 6) + 3 * (i / 3 % 2) + i % 3);
    assert(j == 6 * (j / 6) + 3 * (j / 3 % 2) + j % 3);
}

/// Whether a point is a corner of the golden rectangle across an axis: none along
/// that axis, one along the next and the golden ratio along the third.
pub open spec fn is_golden(x: int, y: int, z: int) -> bool {
    &&& x == 0
    &&& y == 1_000_000_000 || y == -1_000_000_000
    &&& z == PHI || z == -PHI
}

/// What is too small to see is not shown: an offset below a ten-thousandth, a
/// rotation below a fiftieth of a radian, or one about no axis.
pub proof fn what_is_too_small_is_not_shown(len: int, angle: int)
    ensures
        offset_lines(len).len() == 0 <==> len < 100_000,
        rotation_lines(angle, false).len() == 0,
        -20_000_000 < angle < 20_000_000 ==> rotation_lines(angle, true).len() == 0,
{
}

/// A wheel has its measures: the axis goes 1.35 either way, the spokes go from
/// 0.18 out to the ring at 0.95, and the marks of half-turns reach across the
/// ring from 0.82 to 1.12.
pub proof fn a_wheel_has_its_measures(n: u32, k: int)
    requires
        0 <= k < n,
    ensures
        ({
            let l = symmetry_lines(OrbitKind::Dihedral(n), 0);
            &&& l[0].from is Axis && l[0].to is Axis
            &&& l[0].from->Axis_share == -l[0].to->Axis_share
            &&& 100 * l[0].to->Axis_share == 135_000_000_000
            &&& 100 * l[1 + k].from->Ring_share == 18_000_000_000
            &&& 100 * l[1 + k].to->Ring_share == 95_000_000_000
            &&& 100 * l[1 + n].from->Ring_share == 95_000_000_000
            &&& 100 * l[65 + n + k].from->Ring_share == 82_000_000_000
            &&& 100 * l[65 + n + k].to->Ring_share == 112_000_000_000
        }),
        forall|i: int, second: bool|
            100 * (#[trigger] tick(i, second)).to->Beside_share == 5_000_000_000,
{
}

} // verus!
