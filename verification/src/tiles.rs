//! The tiles of a contact sheet: which views there are, where each goes and
//! what its label says.

use vstd::prelude::*;
#[allow(unused_imports)]
use vstd::arithmetic::div_mod::*;
use crate::offline::UNIT;
use crate::num;
use crate::text;

verus! {

/// Multi-view layouts. Tiles are laid out row by row.
#[derive(Clone, Copy, Debug, PartialEq, Eq, Structural)]
pub enum GridMode {
    /// One image from the base camera
    Single,
    /// Views evenly spaced around a full horizontal orbit
    Orbit { cols: u32, rows: u32 },
    /// Camera nudged in the view plane, by `step` billionths of the orbit
    /// distance per grid unit
    Move { cols: u32, rows: u32, step: i64 },
}

impl GridMode {
    /// Columns and rows.
    pub open spec fn shape(self) -> (u32, u32) {
        match self {
            GridMode::Single => (1, 1),
            GridMode::Orbit { cols, rows } => (cols, rows),
            GridMode::Move { cols, rows, .. } => (cols, rows),
        }
    }

    /// Columns and rows.
    pub fn tile_count(&self) -> (r: (u32, u32))
        ensures
            r == self.shape(),
    {
        match *self {
            GridMode::Single => (1, 1),
            GridMode::Orbit { cols, rows } => (cols, rows),
            GridMode::Move { cols, rows, .. } => (cols, rows),
        }
    }
}

/// The least `c` of at least one with `c * c >= n`.
pub open spec fn is_grid_side(c: int, n: int) -> bool {
    c >= 1 && c * c >= n && (c == 1 || (c - 1) * (c - 1) < n)
}

/// The tidiest grid for `n` tiles: as square as possible, wider than tall.
pub fn grid_shape(n: usize) -> (r: (u32, u32))
    requires
        n <= u32::MAX,
    ensures
        is_grid_side(r.0 as int, n as int),
        r.1 == (n + r.0 - 1) / (r.0 as int),
{
    let mut c: u64 = 1;
    let total: u64 = n as u64;
    while c * c < total
        invariant
            1 <= c <= 0x1_0000,
            total == n,
            n <= u32::MAX,
            c == 1 || (c - 1) * (c - 1) < n,
            c * c <= 0x1_0000_0000,
        decreases 0x1_0001 - c,
    {
        assert(c < 0x1_0000) by (nonlinear_arith)
            requires
                c * c < n,
                n <= 0xFFFF_FFFF,
                c <= 0x1_0000,
        ;
        assert((c + 1) * (c + 1) <= 0x1_0000_0000) by (nonlinear_arith)
            requires
                0 <= c < 0x1_0000,
        ;
        c = c + 1;
    }
    let rows: u64 = (total + c - 1) / c;
    assert(rows <= c) by (nonlinear_arith)
        requires
            rows == (total + c - 1) / c as int,
            total <= c * c,
            1 <= c,
    ;
    (c as u32, rows as u32)
}

/// A grid has a cell for every tile, no empty row, and is as square as it can
/// be: as tall as wide, or one row less.
pub proof fn every_tile_has_a_cell(n: int, cols: int, rows: int)
    requires
        n >= 1,
        is_grid_side(cols, n),
        rows == (n + cols - 1) / cols,
    ensures
        cols * rows >= n,
        cols * (rows - 1) < n,
        1 <= rows,
        cols - 1 <= rows <= cols,
{
    lemma_fundamental_div_mod(n + cols - 1, cols);
    let r = (n + cols - 1) % cols;
    assert(0 <= r < cols);
    assert(cols * rows == n + cols - 1 - r);
    assert(cols * (rows - 1) == cols * rows - cols) by (nonlinear_arith);
    assert(rows <= cols) by (nonlinear_arith)
        requires
            cols * (rows - 1) < n,
            n <= cols * cols,
            cols >= 1,
    ;
    assert(rows >= 1) by (nonlinear_arith)
        requires
            cols * rows >= 1,
            cols >= 1,
    ;
    if cols > 1 {
        assert(cols - 1 <= rows) by (nonlinear_arith)
            requires
                (cols - 1) * (cols - 1) < n,
                n <= cols * rows,
                cols > 1,
        ;
    }
}

/// The cell of a tile: columns first.
pub open spec fn cell_of(index: int, cols: int) -> (int, int) {
    (index % cols, index / cols)
}

/// The cell of a tile, as column and row.
pub fn cell(index: u32, cols: u32) -> (r: (u32, u32))
    requires
        cols > 0,
    ensures
        (r.0 as int, r.1 as int) == cell_of(index as int, cols as int),
        r.0 < cols,
{
    (index % cols, index / cols)
}

/// Every tile has a cell of its own, inside the grid.
pub proof fn cells_are_distinct(a: int, b: int, cols: int, rows: int)
    requires
        0 < cols,
        0 <= a < cols * rows,
        0 <= b < cols * rows,
    ensures
        cell_of(a, cols).0 < cols && 0 <= cell_of(a, cols).1 < rows,
        cell_of(a, cols) == cell_of(b, cols) ==> a == b,
{
    lemma_fundamental_div_mod(a, cols);
    lemma_fundamental_div_mod(b, cols);
    let q = a / cols;
    assert(0 <= q < rows) by (nonlinear_arith)
        requires
            cols * q <= a,
            a < cols * q + cols,
            0 <= a < cols * rows,
            0 < cols,
    ;
}

/// One view of a sheet, relative to the base camera.
#[derive(Clone, Copy, Debug, PartialEq, Eq, Structural)]
pub enum TileView {
    /// The base camera itself
    Base,
    /// Turned about the vertical by `k / n` of a full turn
    Turned { k: u32, n: u32 },
    /// Nudged right by `dx / dx_den` and down by `dy / dy_den` grid units
    Nudged { dx: i64, dx_den: i64, dy: i64, dy_den: i64 },
}

/// The `i`-th of `n` evenly spaced values in `[-1, 1]`, as a fraction; a single
/// value sits at 0.
pub open spec fn axis_value(i: int, n: int) -> (int, int) {
    if n <= 1 {
        (0, 1)
    } else {
        (2 * i - (n - 1), n - 1)
    }
}

/// The view of the tile at `(col, row)` of a grid.
pub open spec fn view_at(grid: GridMode, index: int) -> TileView {
    match grid {
        GridMode::Single => TileView::Base,
        GridMode::Orbit { cols, rows } => TileView::Turned {
            k: index as u32,
            n: (cols * rows) as u32,
        },
        GridMode::Move { cols, rows, .. } => {
            let x = axis_value(index % cols as int, cols as int);
            let y = axis_value(index / cols as int, rows as int);
            TileView::Nudged {
                dx: x.0 as i64,
                dx_den: x.1 as i64,
                dy: y.0 as i64,
                dy_den: y.1 as i64,
            }
        },
    }
}

fn axis_at(i: u32, n: u32) -> (r: (i64, i64))
    requires
        i < n,
    ensures
        (r.0 as int, r.1 as int) == axis_value(i as int, n as int),
{
    if n <= 1 {
        (0, 1)
    } else {
        (2 * i as i64 - (n as i64 - 1), n as i64 - 1)
    }
}

/// Evenly spaced values in `[-1, 1]`, as fractions.
pub fn grid_axis(n: u32) -> (v: Vec<(i64, i64)>)
    ensures
        v.len() == (if n <= 1 {
            1
        } else {
            n as int
        }),
        forall|i: int|
            0 <= i < v.len() ==> ((#[trigger] v@[i]).0 as int, v@[i].1 as int) == axis_value(
                i,
                n as int,
            ),
{
    let mut v: Vec<(i64, i64)> = Vec::new();
    if n <= 1 {
        v.push((0, 1));
        return v;
    }
    let mut i: u32 = 0;
    while i < n
        invariant
            i <= n,
            v.len() == i,
            forall|k: int|
                0 <= k < i ==> ((#[trigger] v@[k]).0 as int, v@[k].1 as int) == axis_value(
                    k,
                    n as int,
                ),
        decreases n - i,
    {
        v.push(axis_at(i, n));
        i += 1;
    }
    v
}

/// The ends of an axis are -1 and 1, and it is symmetric about its middle.
pub proof fn an_axis_spans_minus_one_to_one(i: int, n: int)
    requires
        0 <= i < n,
    ensures
        n > 1 ==> axis_value(0, n).0 == -axis_value(0, n).1,
        n > 1 ==> axis_value(n - 1, n).0 == axis_value(n - 1, n).1,
        axis_value(n - 1 - i, n).0 == -axis_value(i, n).0,
        n % 2 == 1 ==> axis_value(n / 2, n).0 == 0,
{
}

/// The views of a grid, tile by tile.
pub fn build_tiles(grid: GridMode) -> (v: Vec<TileView>)
    requires
        grid.shape().0 * grid.shape().1 <= u32::MAX,
    ensures
        v.len() == grid.shape().0 * grid.shape().1,
        forall|i: int| 0 <= i < v.len() ==> #[trigger] v@[i] == view_at(grid, i),
{
    let mut v: Vec<TileView> = Vec::new();
    match grid {
        GridMode::Single => {
            v.push(TileView::Base);
            assert(grid.shape().0 * grid.shape().1 == 1);
        },
        GridMode::Orbit { cols, rows } => {
            let n: u32 = cols * rows;
            let mut k: u32 = 0;
            while k < n
                invariant
                    k <= n,
                    n == cols * rows,
                    grid == (GridMode::Orbit { cols, rows }),
                    v.len() == k,
                    forall|i: int| 0 <= i < k ==> #[trigger] v@[i] == view_at(grid, i),
                decreases n - k,
            {
                v.push(TileView::Turned { k, n });
                k += 1;
            }
        },
        GridMode::Move { cols, rows, step } => {
            let n: u32 = cols * rows;
            let mut k: u32 = 0;
            while k < n
                invariant
                    k <= n,
                    n == cols * rows,
                    grid == (GridMode::Move { cols, rows, step }),
                    v.len() == k,
                    forall|i: int| 0 <= i < k ==> #[trigger] v@[i] == view_at(grid, i),
                decreases n - k,
            {
                proof {
                    assert(cols > 0) by (nonlinear_arith)
                        requires
                            k < cols * rows,
                            k >= 0,
                            rows >= 0,
                    ;
                    cells_are_distinct(k as int, k as int, cols as int, rows as int);
                }
                let (x, xd) = axis_at(k % cols, cols);
                let (y, yd) = axis_at(k / cols, rows);
                v.push(TileView::Nudged { dx: x, dx_den: xd, dy: y, dy_den: yd });
                k += 1;
            }
        },
    }
    v
}

/// One direction of a nudge in words: nothing is the centre, otherwise the
/// side and the size.
pub open spec fn nudge_text(
    num: int,
    den: int,
    step: int,
    back: Seq<char>,
    forth: Seq<char>,
) -> Seq<char> {
    if num == 0 {
        "center"@
    } else {
        (if num < 0 {
            back
        } else {
            forth
        }) + " "@ + text::signed_ratio_text(
            text::magnitude_of(num) * step,
            (den * UNIT) as nat,
            2,
        )
    }
}

fn push_nudge(out: &mut String, num: i64, den: i64, step: i64, back: &str, forth: &str)
    requires
        -0xFFFF <= num <= 0xFFFF,
        0 < den <= 0xFFFF,
        -0x7FFF_FFFF_FFFF <= step <= 0x7FFF_FFFF_FFFF,
    ensures
        final(out)@ == old(out)@ + nudge_text(num as int, den as int, step as int, back@, forth@),
{
    if num == 0 {
        out.append("center");
    } else {
        let m: i64 = if num < 0 {
            -num
        } else {
            num
        };
        if num < 0 {
            out.append(back);
        } else {
            out.append(forth);
        }
        out.append(" ");
        assert(-0x7FFF_FFFF_FFFF_FFFF <= m * step <= 0x7FFF_FFFF_FFFF_FFFF) by (nonlinear_arith)
            requires
                0 <= m <= 0xFFFF,
                -0x7FFF_FFFF_FFFF <= step <= 0x7FFF_FFFF_FFFF,
        ;
        assert(0 < den * UNIT <= 0xFFFF * 1_000_000_000) by (nonlinear_arith)
            requires
                0 < den <= 0xFFFF,
                UNIT == 1_000_000_000,
        ;
        text::push_signed_ratio(out, m * step, den as u64 * UNIT, 2);
    }
    assert(out@ =~= old(out)@ + nudge_text(
        num as int,
        den as int,
        step as int,
        back@,
        forth@,
    ));
}

/// The label of the base view: angles in billionths of a degree, distance in
/// billionths of a unit.
pub open spec fn base_label_text(yaw: int, pitch: int, distance: int) -> Seq<char> {
    "yaw "@ + num::single_text(yaw, UNIT as nat, 1) + "\u{b0} pitch "@
        + num::single_text(pitch, UNIT as nat, 1) + "\u{b0} dist "@
        + num::single_text(distance, UNIT as nat, 2)
}

/// The label of the base view.
pub fn base_label(yaw: i64, pitch: i64, distance: i64) -> (s: String)
    ensures
        s@ == base_label_text(yaw as int, pitch as int, distance as int),
{
    let mut s = String::new();
    s.append("yaw ");
    num::push_single(&mut s, yaw, UNIT, 1);
    s.append("\u{b0} pitch ");
    num::push_single(&mut s, pitch, UNIT, 1);
    s.append("\u{b0} dist ");
    num::push_single(&mut s, distance, UNIT, 2);
    assert(s@ =~= base_label_text(yaw as int, pitch as int, distance as int));
    s
}

/// The label of an orbit view: the angle in degrees, and in radians to paste
/// into a scene.
pub open spec fn orbit_label_text(degrees: int, radians: int) -> Seq<char> {
    "yaw "@ + num::single_text(degrees, UNIT as nat, 1) + "\u{b0} ("@
        + num::single_text(radians, UNIT as nat, 4) + ")"@
}

/// The label of an orbit view.
pub fn orbit_label(degrees: i64, radians: i64) -> (s: String)
    ensures
        s@ == orbit_label_text(degrees as int, radians as int),
{
    let mut s = String::new();
    s.append("yaw ");
    num::push_single(&mut s, degrees, UNIT, 1);
    s.append("\u{b0} (");
    num::push_single(&mut s, radians, UNIT, 4);
    s.append(")");
    assert(s@ =~= orbit_label_text(degrees as int, radians as int));
    s
}

/// The label of a nudged view: the nudge in words, and the equivalent orbit
/// framing.
pub open spec fn move_label_text(
    dx: (int, int),
    dy: (int, int),
    step: int,
    yaw: int,
    pitch: int,
    distance: int,
) -> Seq<char> {
    nudge_text(dx.0, dx.1, step, "left"@, "right"@) + " / "@ + nudge_text(
        dy.0,
        dy.1,
        step,
        "up"@,
        "down"@,
    ) + " = yaw "@ + num::single_text(yaw, UNIT as nat, 4) + " pitch "@
        + num::single_text(pitch, UNIT as nat, 4) + " distance "@ + num::single_text(
        distance,
        UNIT as nat,
        3,
    )
}

/// The label of a nudged view.
pub fn move_label(
    dx: (i64, i64),
    dy: (i64, i64),
    step: i64,
    yaw: i64,
    pitch: i64,
    distance: i64,
) -> (s: String)
    requires
        -0xFFFF <= dx.0 <= 0xFFFF,
        0 < dx.1 <= 0xFFFF,
        -0xFFFF <= dy.0 <= 0xFFFF,
        0 < dy.1 <= 0xFFFF,
        -0x7FFF_FFFF_FFFF <= step <= 0x7FFF_FFFF_FFFF,
    ensures
        s@ == move_label_text(
            (dx.0 as int, dx.1 as int),
            (dy.0 as int, dy.1 as int),
            step as int,
            yaw as int,
            pitch as int,
            distance as int,
        ),
{
    let mut s = String::new();
    push_nudge(&mut s, dx.0, dx.1, step, "left", "right");
    s.append(" / ");
    push_nudge(&mut s, dy.0, dy.1, step, "up", "down");
    s.append(" = yaw ");
    num::push_single(&mut s, yaw, UNIT, 4);
    s.append(" pitch ");
    num::push_single(&mut s, pitch, UNIT, 4);
    s.append(" distance ");
    num::push_single(&mut s, distance, UNIT, 3);
    assert(s@ =~= move_label_text(
        (dx.0 as int, dx.1 as int),
        (dy.0 as int, dy.1 as int),
        step as int,
        yaw as int,
        pitch as int,
        distance as int,
    ));
    s
}

/// Where a label is drawn, and how wide it may get.
#[derive(Clone, Copy, Debug, PartialEq, Eq, Structural)]
pub struct LabelSpot {
    pub x: u32,
    pub y: u32,
    pub max_width: u32,
}

/// The label's place in the top-left corner of the tile at `(col, row)`, given
/// the glyphs' scale and height; `None` where the tile is too low for it.
///
/// It never reaches into the neighbouring tile.
pub fn label_tile(
    tile_w: u32,
    tile_h: u32,
    col: u32,
    row: u32,
    scale: u32,
    text_height: u32,
) -> (r: Option<LabelSpot>)
    requires
        col * tile_w + 2 * scale <= u32::MAX,
        row * tile_h + 2 * scale <= u32::MAX,
        text_height + 4 * scale <= u32::MAX,
    ensures
        r is Some <==> tile_h >= text_height + 4 * scale,
        r is Some ==> {
            &&& (r->0).x == col * tile_w + 2 * scale
            &&& (r->0).y == row * tile_h + 2 * scale
            &&& (r->0).max_width == (if tile_w >= 4 * scale {
                tile_w - 4 * scale
            } else {
                0
            })
            &&& (r->0).max_width > 0 ==> (r->0).x + (r->0).max_width <= (col + 1) * tile_w
            &&& (r->0).y + text_height <= (row + 1) * tile_h
        },
{
    let inset: u32 = 2 * scale;
    if tile_h < text_height + 2 * inset {
        return None;
    }
    let max_width: u32 = if tile_w >= 2 * inset {
        tile_w - 2 * inset
    } else {
        0
    };
    assert((col + 1) * tile_w == col * tile_w + tile_w) by (nonlinear_arith);
    assert((row + 1) * tile_h == row * tile_h + tile_h) by (nonlinear_arith);
    Some(LabelSpot { x: col * tile_w + inset, y: row * tile_h + inset, max_width })
}

/// The tiles of an orbit stand in equal steps round the whole of it, from the
/// base camera on. A grid of moves goes from one end to the other along each
/// row, and likewise down each column, in equal steps about its centre.
pub proof fn tiles_stand_in_equal_steps(grid: GridMode, index: int)
    requires
        0 <= index < grid.shape().0 * grid.shape().1 <= u32::MAX,
        grid.shape().0 > 0,
    ensures
        match grid {
            GridMode::Single => view_at(grid, index) == TileView::Base,
            GridMode::Orbit { cols, rows } => {
                let v = view_at(grid, index);
                v is Turned && v->n > 0 && v->k * (cols * rows) == index * v->n
            },
            GridMode::Move { cols, rows, .. } => {
                let v = view_at(grid, index);
                let (col, row) = cell_of(index, cols as int);
                &&& v is Nudged
                &&& v->dx_den > 0 && v->dy_den > 0
                &&& cols > 1 ==> v->dx * (cols - 1) == (2 * col - (cols - 1)) * v->dx_den
                &&& cols == 1 ==> v->dx == 0
                &&& rows > 1 ==> v->dy * (rows - 1) == (2 * row - (rows - 1)) * v->dy_den
                &&& rows == 1 ==> v->dy == 0
            },
        },
{
    match grid {
        GridMode::Single => {},
        GridMode::Orbit { cols, rows } => {
            let n = cols * rows;
            assert(index * n == n * index) by (nonlinear_arith);
        },
        GridMode::Move { cols, rows, .. } => {
            cells_are_distinct(index, index, cols as int, rows as int);
            assert(rows > 0) by (nonlinear_arith)
                requires
                    0 <= index < cols * rows,
                    cols >= 0,
                    rows >= 0,
            ;
            let (col, row) = cell_of(index, cols as int);
            assert(0 <= col < cols);
            let (a, b) = (2 * col - (cols - 1), cols - 1);
            let (c, d) = (2 * row - (rows - 1), rows - 1);
            assert(a * b == b * a) by (nonlinear_arith);
            assert(c * d == d * c) by (nonlinear_arith);
        },
    }
}

/// The cells of a sheet are filled row by row, from the left.
pub proof fn cells_are_filled_row_by_row(index: int, cols: int)
    requires
        0 <= index,
        0 < cols,
    ensures
        cell_of(0, cols) == (0int, 0int),
        cell_of(index, cols).0 + cols * cell_of(index, cols).1 == index,
        0 <= cell_of(index, cols).0 < cols,
        cell_of(index, cols).0 + 1 < cols ==> cell_of(index + 1, cols) == (
            cell_of(index, cols).0 + 1,
            cell_of(index, cols).1,
        ),
        cell_of(index, cols).0 + 1 == cols ==> cell_of(index + 1, cols) == (
            0int,
            cell_of(index, cols).1 + 1,
        ),
{
    vstd::arithmetic::div_mod::lemma_fundamental_div_mod(index, cols);
    let (q, r) = (index / cols, index % cols);
    assert(q * cols == cols * q && (q + 1) * cols == cols * q + cols) by (nonlinear_arith);
    if r + 1 < cols {
        vstd::arithmetic::div_mod::lemma_fundamental_div_mod_converse(index + 1, cols, q, r + 1);
    } else {
        vstd::arithmetic::div_mod::lemma_fundamental_div_mod_converse(index + 1, cols, q + 1, 0);
    }
    vstd::arithmetic::div_mod::lemma_fundamental_div_mod_converse(0, cols, 0, 0);
}

} // verus!
