//! Contact sheets: how tiles are laid out, copied in and written out.
//!
//! A sheet holds 16 bits per channel, four channels per pixel, row by row.

use vstd::prelude::*;
#[allow(unused_imports)]
use vstd::arithmetic::div_mod::*;
use crate::bytes;
use crate::half;

verus! {

/// How many bits per channel the PNG gets.
#[derive(Clone, Copy, Debug, PartialEq, Eq, Structural)]
pub enum BitDepth {
    Eight,
    Sixteen,
}

impl Default for BitDepth {
    fn default() -> (d: BitDepth)
        ensures
            d == BitDepth::Eight,
    {
        BitDepth::Eight
    }
}

impl BitDepth {
    /// Bits per channel.
    pub fn bits(self) -> (n: u32)
        ensures
            n == (match self {
                BitDepth::Eight => 8u32,
                BitDepth::Sixteen => 16u32,
            }),
    {
        match self {
            BitDepth::Eight => 8,
            BitDepth::Sixteen => 16,
        }
    }

    /// Bytes per texel of the colour target.
    pub open spec fn texel_bytes(self) -> nat {
        match self {
            BitDepth::Eight => 4,
            BitDepth::Sixteen => 8,
        }
    }

    /// Bytes per texel of the colour target: four channels of the depth.
    pub fn bytes_per_texel(self) -> (n: u32)
        ensures
            n == self.texel_bytes(),
    {
        match self {
            BitDepth::Eight => 4,
            BitDepth::Sixteen => 8,
        }
    }
}

/// The least multiple of 256 that is at least `n`.
pub open spec fn padded256(n: nat) -> nat {
    (n + 255) / 256 * 256
}

/// Bytes per row of a readback buffer: rows start at multiples of 256.
pub fn padded_bytes_per_row(width: u32, bytes_per_texel: u32) -> (n: u32)
    requires
        width * bytes_per_texel + 255 <= u32::MAX,
    ensures
        n == padded256((width * bytes_per_texel) as nat),
        n >= width * bytes_per_texel,
        n % 256 == 0,
{
    (width * bytes_per_texel + 255) / 256 * 256
}

/// A sheet of `cols` by `rows` tiles of `width` by `height` pixels.
#[derive(Clone, Copy, Debug)]
pub struct SheetShape {
    pub width: u32,
    pub height: u32,
    pub cols: u32,
    pub rows: u32,
}

impl SheetShape {
    /// The sheet's size in values fits the machine.
    pub open spec fn valid(self) -> bool {
        &&& self.width * self.cols <= u32::MAX
        &&& self.height * self.rows <= u32::MAX
        &&& (self.width * self.cols) * (self.height * self.rows) * 4 <= u32::MAX
        &&& (self.width * self.cols) * (self.height * self.rows) * 4 <= usize::MAX
    }

    /// Values in a row of a tile.
    pub open spec fn tile_row(self) -> int {
        self.width * 4
    }

    /// Values in a row of the sheet.
    pub open spec fn sheet_row(self) -> int {
        self.width * self.cols * 4
    }

    /// Values in the sheet.
    pub open spec fn values(self) -> int {
        (self.width * self.cols) * (self.height * self.rows) * 4
    }

    /// Where row `y` of the tile at `(col, row)` starts.
    pub open spec fn start(self, col: int, row: int, y: int) -> int {
        (row * self.height + y) * self.sheet_row() + col * self.tile_row()
    }

    /// Whether position `k` belongs to row `y` of the tile at `(col, row)`.
    pub open spec fn in_row(self, col: int, row: int, y: int, k: int) -> bool {
        self.start(col, row, y) <= k < self.start(col, row, y) + self.tile_row()
    }

    /// Whether position `k` belongs to the tile at `(col, row)`.
    pub open spec fn in_tile(self, col: int, row: int, k: int) -> bool {
        exists|y: int| 0 <= y < self.height && #[trigger] self.in_row(col, row, y, k)
    }

    /// The sheet's width in pixels.
    pub fn sheet_width(self) -> (w: u32)
        requires
            self.valid(),
        ensures
            w == self.width * self.cols,
    {
        self.width * self.cols
    }

    /// The sheet's height in pixels.
    pub fn sheet_height(self) -> (h: u32)
        requires
            self.valid(),
        ensures
            h == self.height * self.rows,
    {
        self.height * self.rows
    }

    /// A sheet with no tile drawn: every pixel has the clear colour.
    pub open spec fn clear(self, color: Seq<u16>) -> Seq<u16> {
        Seq::new(self.values() as nat, |i: int| color[i % 4])
    }

    /// A sheet with no tile drawn, at the clear colour: its red, green, blue
    /// and alpha.
    pub fn blank(self, color: [u16; 4]) -> (s: Vec<u16>)
        requires
            self.valid(),
        ensures
            s@ == self.clear(color@),
    {
        let w: u64 = (self.width * self.cols) as u64;
        let h: u64 = (self.height * self.rows) as u64;
        proof {
            let a = w as int;
            let b = h as int;
            assert(0 <= a * b) by (nonlinear_arith)
                requires
                    0 <= a,
                    0 <= b,
            ;
        }
        let n: usize = (w * h * 4) as usize;
        let mut s: Vec<u16> = Vec::new();
        while s.len() < n
            invariant
                s@.len() <= n,
                n == self.values(),
                s@ == self.clear(color@).take(s@.len() as int),
            decreases n - s@.len(),
        {
            let k: usize = s.len() % 4;
            s.push(color[k]);
            assert(s@ =~= self.clear(color@).take(s@.len() as int));
        }
        assert(s@ =~= self.clear(color@));
        s
    }
}

/// Rows of a tile lie apart, one sheet row from the next, and inside the
/// sheet.
proof fn rows_lie_apart(shape: SheetShape, col: int, row: int, j: int, y: int)
    requires
        shape.valid(),
        0 <= col < shape.cols,
        0 <= row < shape.rows,
        0 <= j <= y < shape.height,
    ensures
        j < y ==> shape.start(col, row, j) + shape.tile_row() <= shape.start(col, row, y),
        0 <= shape.start(col, row, y),
        shape.start(col, row, y) + shape.tile_row() <= shape.values(),
{
    let sr = shape.sheet_row();
    let tr = shape.tile_row();
    let w = shape.width as int;
    let c = shape.cols as int;
    let h = shape.height as int;
    let r = shape.rows as int;
    assert(col * tr + tr <= sr) by (nonlinear_arith)
        requires
            0 <= col < c,
            tr == w * 4,
            sr == w * c * 4,
            w >= 0,
    ;
    assert(0 <= col * tr) by (nonlinear_arith)
        requires
            0 <= col,
            tr == w * 4,
            w >= 0,
    ;
    assert(sr >= 0) by (nonlinear_arith)
        requires
            sr == w * c * 4,
            w >= 0,
            c >= 0,
    ;
    if j < y {
        assert((row * h + y) * sr >= (row * h + j) * sr + sr) by (nonlinear_arith)
            requires
                j < y,
                sr >= 0,
        ;
    }
    assert(0 <= (row * h + y) * sr) by (nonlinear_arith)
        requires
            0 <= row,
            0 <= h,
            0 <= y,
            sr >= 0,
    ;
    assert((row * h + y) * sr + sr <= (h * r) * sr) by (nonlinear_arith)
        requires
            0 <= row < r,
            0 <= y < h,
            sr >= 0,
    ;
    assert((h * r) * sr == shape.values()) by (nonlinear_arith)
        requires
            sr == w * c * 4,
            shape.values() == (w * c) * (h * r) * 4,
    ;
}

/// Different tiles share no position of the sheet.
pub proof fn tiles_do_not_overlap(
    shape: SheetShape,
    col: int,
    row: int,
    other_col: int,
    other_row: int,
    k: int,
)
    requires
        shape.valid(),
        0 <= col < shape.cols,
        0 <= other_col < shape.cols,
        0 <= row < shape.rows,
        0 <= other_row < shape.rows,
        (col, row) != (other_col, other_row),
        shape.in_tile(col, row, k),
    ensures
        !shape.in_tile(other_col, other_row, k),
{
    if shape.in_tile(other_col, other_row, k) {
        let y = choose|y: int| 0 <= y < shape.height && #[trigger] shape.in_row(col, row, y, k);
        let z = choose|z: int|
            0 <= z < shape.height && #[trigger] shape.in_row(other_col, other_row, z, k);
        if row < other_row || (row == other_row && y < z) || (row == other_row && y == z && col
            < other_col) {
            stripes_lie_apart(shape, col, row, y, other_col, other_row, z);
        } else {
            stripes_lie_apart(shape, other_col, other_row, z, col, row, y);
        }
    }
}

proof fn stripes_lie_apart(
    shape: SheetShape,
    col: int,
    row: int,
    y: int,
    other_col: int,
    other_row: int,
    z: int,
)
    requires
        shape.valid(),
        0 <= col < shape.cols,
        0 <= other_col < shape.cols,
        0 <= y < shape.height,
        0 <= z < shape.height,
        0 <= row <= other_row < shape.rows,
        row < other_row || (row == other_row && y < z) || (row == other_row && y == z && col
            < other_col),
    ensures
        shape.start(col, row, y) + shape.tile_row() <= shape.start(other_col, other_row, z),
{
    let sr = shape.sheet_row();
    let tr = shape.tile_row();
    let w = shape.width as int;
    let c = shape.cols as int;
    let h = shape.height as int;
    assert(0 <= tr) by (nonlinear_arith)
        requires
            tr == w * 4,
            w >= 0,
    ;
    assert(col * tr + tr <= sr) by (nonlinear_arith)
        requires
            0 <= col < c,
            tr == w * 4,
            sr == w * c * 4,
            w >= 0,
    ;
    assert(0 <= other_col * tr) by (nonlinear_arith)
        requires
            0 <= other_col,
            0 <= tr,
    ;
    assert(sr >= 0) by (nonlinear_arith)
        requires
            sr == w * c * 4,
            w >= 0,
            c >= 0,
    ;
    let a = row * h + y;
    let b = other_row * h + z;
    if row < other_row {
        assert(a < b) by (nonlinear_arith)
            requires
                a == row * h + y,
                b == other_row * h + z,
                row < other_row,
                0 <= y < h,
                0 <= z,
        ;
    }
    if a < b {
        assert(a * sr + sr <= b * sr) by (nonlinear_arith)
            requires
                a < b,
                sr >= 0,
        ;
    } else {
        assert(col * tr + tr <= other_col * tr) by (nonlinear_arith)
            requires
                col < other_col,
                0 <= tr,
        ;
    }
}

/// Whether a sheet is another with one tile drawn: the tile's values row by
/// row in its place, and everything else as it was.
pub open spec fn has_tile(
    after: Seq<u16>,
    before: Seq<u16>,
    shape: SheetShape,
    col: int,
    row: int,
    tile: Seq<u16>,
) -> bool {
    &&& after.len() == before.len()
    &&& forall|y: int, i: int|
        0 <= y < shape.height && 0 <= i < shape.tile_row() ==> after[#[trigger] (shape.start(
            col,
            row,
            y,
        ) + i)] == tile[y * shape.tile_row() + i]
    &&& forall|k: int|
        0 <= k < before.len() && !shape.in_tile(col, row, k) ==> #[trigger] after[k] == before[k]
}

/// The sheets of a run that was stopped after some tiles: the first is clear,
/// and each has one tile more than the one before it, in the order of the
/// grid.
pub open spec fn is_stopped_run(
    sheets: Seq<Seq<u16>>,
    shape: SheetShape,
    color: Seq<u16>,
    tiles: Seq<Seq<u16>>,
) -> bool {
    &&& sheets.len() == tiles.len() + 1
    &&& sheets[0] == shape.clear(color)
    &&& forall|i: int|
        0 <= i < tiles.len() ==> has_tile(
            #[trigger] sheets[i + 1],
            sheets[i],
            shape,
            crate::tiles::cell_of(i, shape.cols as int).0,
            crate::tiles::cell_of(i, shape.cols as int).1,
            tiles[i],
        )
}

/// A stopped sheet keeps what was drawn and is clear elsewhere: every tile
/// from the first that was not drawn on has the clear colour, and a tile that
/// was drawn holds its picture whatever was drawn after it.
pub proof fn a_stopped_sheet_is_clear_where_nothing_was_drawn(
    sheets: Seq<Seq<u16>>,
    shape: SheetShape,
    color: Seq<u16>,
    tiles: Seq<Seq<u16>>,
    index: int,
    y: int,
    i: int,
)
    requires
        shape.valid(),
        is_stopped_run(sheets, shape, color, tiles),
        tiles.len() <= shape.cols * shape.rows,
        0 <= index < shape.cols * shape.rows,
        0 <= y < shape.height,
        0 <= i < shape.tile_row(),
    ensures
        ({
            let (col, row) = crate::tiles::cell_of(index, shape.cols as int);
            let k = shape.start(col, row, y) + i;
            sheets.last()[k] == (if index < tiles.len() {
                tiles[index][y * shape.tile_row() + i]
            } else {
                color[k % 4]
            })
        }),
    decreases tiles.len(),
{
    let cols = shape.cols as int;
    assert(cols > 0) by (nonlinear_arith)
        requires
            0 <= index < cols * shape.rows,
            cols >= 0,
    ;
    let (col, row) = crate::tiles::cell_of(index, cols);
    let k = shape.start(col, row, y) + i;
    crate::tiles::cells_are_distinct(index, index, cols, shape.rows as int);
    rows_lie_apart(shape, col, row, y, y);
    if tiles.len() > 0 {
        let n = tiles.len() - 1;
        let front = sheets.drop_last();
        assert(is_stopped_run(front, shape, color, tiles.drop_last())) by {
            assert forall|j: int| 0 <= j < n implies has_tile(
                #[trigger] front[j + 1],
                front[j],
                shape,
                crate::tiles::cell_of(j, cols).0,
                crate::tiles::cell_of(j, cols).1,
                tiles.drop_last()[j],
            ) by {
                assert(front[j + 1] == sheets[j + 1]);
            }
        }
        a_stopped_sheet_is_clear_where_nothing_was_drawn(
            front,
            shape,
            color,
            tiles.drop_last(),
            index,
            y,
            i,
        );
        let (c, r) = crate::tiles::cell_of(n, cols);
        assert(has_tile(sheets[n + 1], sheets[n], shape, c, r, tiles[n]));
        sheets_keep_their_length(sheets, shape, color, tiles, n);
        if index != n {
            crate::tiles::cells_are_distinct(index, n, cols, shape.rows as int);
            crate::tiles::cells_are_distinct(n, index, cols, shape.rows as int);
            assert(shape.in_row(col, row, y, k));
            assert(shape.in_tile(col, row, k));
            tiles_do_not_overlap(shape, col, row, c, r, k);
            assert(sheets[n + 1][k] == sheets[n][k]);
        }
    }
}

proof fn sheets_keep_their_length(
    sheets: Seq<Seq<u16>>,
    shape: SheetShape,
    color: Seq<u16>,
    tiles: Seq<Seq<u16>>,
    n: int,
)
    requires
        is_stopped_run(sheets, shape, color, tiles),
        0 <= n <= tiles.len(),
        shape.values() >= 0,
    ensures
        sheets[n].len() == shape.values(),
    decreases n,
{
    if n > 0 {
        sheets_keep_their_length(sheets, shape, color, tiles, n - 1);
        assert(sheets[n - 1 + 1].len() == sheets[n - 1].len());
    }
}

/// Copy a tile's values, row by row, to its place on the sheet.
pub fn put_tile(sheet: &mut Vec<u16>, shape: SheetShape, col: u32, row: u32, tile: &Vec<u16>)
    requires
        shape.valid(),
        col < shape.cols,
        row < shape.rows,
        old(sheet).len() == shape.values(),
        tile.len() == shape.height * shape.tile_row(),
    ensures
        has_tile(final(sheet)@, old(sheet)@, shape, col as int, row as int, tile@),
{
    let ghost c = col as int;
    let ghost r = row as int;
    let ghost tr = shape.tile_row();
    let mut y: u32 = 0;
    while y < shape.height
        invariant
            shape.valid(),
            c == col < shape.cols,
            r == row < shape.rows,
            tr == shape.tile_row(),
            y <= shape.height,
            old(sheet).len() == shape.values(),
            sheet.len() == old(sheet).len(),
            tile.len() == shape.height * tr,
            forall|j: int, i: int|
                0 <= j < y && 0 <= i < tr ==> sheet@[#[trigger] (shape.start(c, r, j) + i)]
                    == tile@[j * tr + i],
            forall|k: int|
                0 <= k < sheet.len() && !shape.in_tile(c, r, k) ==> #[trigger] sheet@[k] == old(sheet)@[k],
        decreases shape.height - y,
    {
        proof {
            rows_lie_apart(shape, c, r, y as int, y as int);
            row_fits(shape, c, r, y as int);
        }
        let w4: usize = shape.width as usize * 4;
        let from: usize = y as usize * w4;
        let to: usize = (row as usize * shape.height as usize + y as usize) * (shape.width as usize
            * shape.cols as usize * 4) + col as usize * w4;
        assert(to == shape.start(c, r, y as int));
        let ghost before = sheet@;
        let mut i: usize = 0;
        while i < w4
            invariant
                shape.valid(),
                c == col < shape.cols,
                r == row < shape.rows,
                tr == shape.tile_row(),
                y < shape.height,
                w4 == tr,
                i <= w4,
                to == shape.start(c, r, y as int),
                from == y * tr,
                to + w4 <= sheet.len(),
                from + w4 <= tile.len(),
                sheet.len() == before.len(),
                sheet.len() == old(sheet).len(),
                forall|k: int|
                    0 <= k < sheet.len() && !(to <= k < to + i) ==> #[trigger] sheet@[k]
                        == before[k],
                forall|k: int| 0 <= k < i ==> sheet@[#[trigger] (to + k)] == tile@[from + k],
            decreases w4 - i,
        {
            sheet[to + i] = tile[from + i];
            i += 1;
        }
        proof {
            assert forall|j: int, i: int| 0 <= j < y + 1 && 0 <= i < tr implies sheet@[#[trigger] (
            shape.start(c, r, j) + i)] == tile@[j * tr + i] by {
                rows_lie_apart(shape, c, r, j, y as int);
                rows_lie_apart(shape, c, r, j, j);
                if j == y {
                    assert(sheet@[to + i] == tile@[from + i]);
                } else {
                    assert(before[shape.start(c, r, j) + i] == tile@[j * tr + i]);
                }
            }
            assert forall|k: int|
                0 <= k < sheet.len() && !shape.in_tile(c, r, k) implies #[trigger] sheet@[k]
                == old(sheet)@[k] by {
                if shape.in_row(c, r, y as int, k) {
                    assert(shape.in_tile(c, r, k));
                }
            }
        }
        y += 1;
    }
}

proof fn row_fits(shape: SheetShape, col: int, row: int, y: int)
    requires
        shape.valid(),
        0 <= col < shape.cols,
        0 <= row < shape.rows,
        0 <= y < shape.height,
    ensures
        0 <= y * shape.tile_row(),
        y * shape.tile_row() + shape.tile_row() <= shape.height * shape.tile_row(),
        shape.height * shape.tile_row() <= shape.values(),
        0 <= row * shape.height <= usize::MAX,
        0 <= row * shape.height + y <= usize::MAX,
        0 <= shape.width * 4 <= usize::MAX,
        0 <= shape.width * shape.cols <= usize::MAX,
        0 <= shape.sheet_row() <= usize::MAX,
        0 <= (row * shape.height + y) * shape.sheet_row() <= usize::MAX,
        0 <= col * shape.tile_row() <= usize::MAX,
{
    let w = shape.width as int;
    let c = shape.cols as int;
    let h = shape.height as int;
    let r = shape.rows as int;
    let tr = shape.tile_row();
    let sr = shape.sheet_row();
    rows_lie_apart(shape, col, row, y, y);
    assert(0 <= tr <= sr) by (nonlinear_arith)
        requires
            tr == w * 4,
            sr == w * c * 4,
            w >= 0,
            c >= 1,
    ;
    assert(0 <= y * tr && y * tr + tr <= h * tr) by (nonlinear_arith)
        requires
            0 <= y < h,
            tr >= 0,
    ;
    assert(h * tr <= (w * c) * (h * r) * 4) by (nonlinear_arith)
        requires
            tr == w * 4,
            w >= 0,
            h >= 0,
            c >= 1,
            r >= 1,
    {
        assert(w * h <= (w * c) * (h * r)) by (nonlinear_arith)
            requires
                w >= 0,
                h >= 0,
                c >= 1,
                r >= 1,
        {
            assert(w <= w * c) by (nonlinear_arith)
                requires
                    w >= 0,
                    c >= 1,
            ;
            assert(h <= h * r) by (nonlinear_arith)
                requires
                    h >= 0,
                    r >= 1,
            ;
            assert(w * h <= (w * c) * h) by (nonlinear_arith)
                requires
                    w <= w * c,
                    h >= 0,
            ;
            assert((w * c) * h <= (w * c) * (h * r)) by (nonlinear_arith)
                requires
                    h <= h * r,
                    w * c >= 0,
            ;
        }
    }
    assert(0 <= row * h && row * h + y < h * r) by (nonlinear_arith)
        requires
            0 <= row < r,
            0 <= y < h,
    ;
    assert(0 <= col * tr) by (nonlinear_arith)
        requires
            0 <= col,
            tr >= 0,
    ;
    assert(0 <= (row * h + y) * sr) by (nonlinear_arith)
        requires
            row * h + y >= 0,
            sr >= 0,
    ;
    let wc = w * c;
    let hr = h * r;
    assert(sr <= wc * hr * 4) by (nonlinear_arith)
        requires
            sr == wc * 4,
            sr >= 0,
            hr >= 1,
    ;
}

/// An 8-bit value as the sheet holds it.
pub open spec fn widened(v: nat) -> nat {
    v * 257
}

/// A sheet's value as an 8-bit file holds it.
pub open spec fn narrowed_value(v: nat) -> nat {
    v / 257
}

/// Widen an 8-bit value to 16 bits; white stays white.
pub fn widen(v: u8) -> (r: u16)
    ensures
        r == widened(v as nat),
{
    v as u16 * 257
}

/// Narrow a sheet's value to 8 bits.
pub fn narrow(v: u16) -> (r: u8)
    ensures
        r == narrowed_value(v as nat),
{
    (v / 257) as u8
}

/// Narrowing gives back what was widened, so 8-bit data goes through a 16-bit
/// sheet unchanged.
pub proof fn eight_bit_data_round_trips(v: nat)
    requires
        v <= 255,
    ensures
        widened(v) <= 65535,
        narrowed_value(widened(v)) == v,
{
}

/// The little-endian number of `size` bytes from `at` on, for a size of one,
/// two or four.
pub open spec fn word_at(data: Seq<u8>, at: int, size: int) -> nat {
    if size == 1 {
        data[at] as nat
    } else if size == 2 {
        (data[at] + data[at + 1] * 0x100) as nat
    } else {
        bytes::le32_value(data.subrange(at, at + 4))
    }
}

/// Where the word that becomes value `k` of a tile stands in a buffer whose
/// rows start `padded` bytes apart.
pub open spec fn word_place(k: int, row_words: int, padded: int, size: int) -> int {
    (k / row_words) * padded + (k % row_words) * size
}

/// Whether a buffer holds `height` padded rows of `width` pixels of four words.
pub open spec fn holds_rows(data: Seq<u8>, padded: int, width: int, height: int, size: int) -> bool {
    &&& size == 1 || size == 2 || size == 4
    &&& width * 4 * size <= padded
    &&& padded * height <= data.len()
    &&& height * (width * 4) <= usize::MAX
}

/// Read the words of a padded buffer, row by row, without the padding.
fn read_words(data: &[u8], padded: u32, width: u32, height: u32, size: usize) -> (r: Vec<u32>)
    requires
        holds_rows(data@, padded as int, width as int, height as int, size as int),
    ensures
        r.len() == height * (width * 4),
        forall|k: int|
            0 <= k < r.len() ==> #[trigger] r@[k] == word_at(
                data@,
                word_place(k, width * 4, padded as int, size as int),
                size as int,
            ),
{
    let ghost n = width * 4;
    let mut r: Vec<u32> = Vec::new();
    let len: usize = data.len();
    let mut y: u32 = 0;
    assert(0 * n == 0) by (nonlinear_arith);
    while y < height
        invariant
            y <= height,
            n == width * 4,
            len == data@.len(),
            holds_rows(data@, padded as int, width as int, height as int, size as int),
            r.len() == y * n,
            forall|k: int|
                0 <= k < r.len() ==> #[trigger] r@[k] == word_at(
                    data@,
                    word_place(k, n, padded as int, size as int),
                    size as int,
                ),
        decreases height - y,
    {
        proof {
            let h = height as int;
            let p = padded as int;
            let yy = y as int;
            assert(yy * p + p <= p * h) by (nonlinear_arith)
                requires
                    0 <= yy < h,
                    0 <= p,
            ;
            assert(0 <= yy * p) by (nonlinear_arith)
                requires
                    0 <= yy,
                    0 <= p,
            ;
            assert(yy * n + n <= h * n) by (nonlinear_arith)
                requires
                    0 <= yy < h,
                    0 <= n,
            ;
            assert(0 <= n <= n * size) by (nonlinear_arith)
                requires
                    0 <= n,
                    size >= 1,
            ;
        }
        let base: usize = y as usize * padded as usize;
        let words: usize = width as usize * 4;
        let mut i: usize = 0;
        while i < words
            invariant
                y < height,
                n == width * 4,
                words == n,
                len == data@.len(),
                i <= words,
                base == y * padded,
                base + n * size <= data@.len(),
                holds_rows(data@, padded as int, width as int, height as int, size as int),
                r.len() == y * n + i,
                y * n + n <= usize::MAX,
                forall|k: int|
                    0 <= k < r.len() ==> #[trigger] r@[k] == word_at(
                        data@,
                        word_place(k, n, padded as int, size as int),
                        size as int,
                    ),
            decreases words - i,
        {
            proof {
                let a = i as int;
                let z = size as int;
                assert(0 <= a * z && a * z + z <= n * z) by (nonlinear_arith)
                    requires
                        0 <= a < n,
                        0 <= z,
                ;
                lemma_fundamental_div_mod_converse(y * n + i, n, y as int, i as int);
            }
            let at: usize = base + i * size;
            let w: u32 = if size == 1 {
                data[at] as u32
            } else if size == 2 {
                data[at] as u32 + data[at + 1] as u32 * 0x100
            } else {
                data[at + 3] as u32 * 0x100_0000 + data[at + 2] as u32 * 0x1_0000 + data[at + 1]
                    as u32 * 0x100 + data[at] as u32
            };
            assert(w == word_at(data@, at as int, size as int));
            r.push(w);
            i += 1;
        }
        assert((y + 1) * n == y * n + n) by (nonlinear_arith);
        y += 1;
    }
    r
}

/// A tile read back from an 8-bit target: every byte widened.
pub fn eight_bit_tile(data: &[u8], padded: u32, width: u32, height: u32) -> (r: Vec<u16>)
    requires
        holds_rows(data@, padded as int, width as int, height as int, 1),
    ensures
        r.len() == height * (width * 4),
        forall|k: int|
            0 <= k < r.len() ==> #[trigger] r@[k] == widened(
                word_at(data@, word_place(k, width * 4, padded as int, 1), 1),
            ),
{
    let words = read_words(data, padded, width, height, 1);
    let mut r: Vec<u16> = Vec::new();
    let mut i: usize = 0;
    while i < words.len()
        invariant
            i <= words.len(),
            r.len() == i,
            forall|k: int| 0 <= k < words.len() ==> #[trigger] words@[k] <= 255,
            forall|k: int| 0 <= k < i ==> #[trigger] r@[k] == widened(words@[k] as nat),
        decreases words.len() - i,
    {
        r.push(widen(words[i] as u8));
        i += 1;
    }
    r
}

/// The binary32 patterns of a half-float buffer.
pub fn half_texels(data: &[u8], padded: u32, width: u32, height: u32) -> (r: Vec<u32>)
    requires
        holds_rows(data@, padded as int, width as int, height as int, 2),
    ensures
        r.len() == height * (width * 4),
        forall|k: int|
            0 <= k < r.len() ==> #[trigger] r@[k] == half::decoded(
                word_at(data@, word_place(k, width * 4, padded as int, 2), 2),
            ),
{
    let words = read_words(data, padded, width, height, 2);
    let mut r: Vec<u32> = Vec::new();
    let mut i: usize = 0;
    while i < words.len()
        invariant
            i <= words.len(),
            r.len() == i,
            forall|k: int| 0 <= k < words.len() ==> #[trigger] words@[k] <= 65535,
            forall|k: int| 0 <= k < i ==> #[trigger] r@[k] == half::decoded(words@[k] as nat),
        decreases words.len() - i,
    {
        r.push(half::f16_to_f32(words[i] as u16));
        i += 1;
    }
    r
}

/// The binary32 patterns of a float buffer.
pub fn float_texels(data: &[u8], padded: u32, width: u32, height: u32) -> (r: Vec<u32>)
    requires
        holds_rows(data@, padded as int, width as int, height as int, 4),
    ensures
        r.len() == height * (width * 4),
        forall|k: int|
            0 <= k < r.len() ==> #[trigger] r@[k] == word_at(
                data@,
                word_place(k, width * 4, padded as int, 4),
                4,
            ),
{
    read_words(data, padded, width, height, 4)
}

/// The bytes of an 8-bit image of the sheet.
pub fn narrowed(sheet: &Vec<u16>) -> (r: Vec<u8>)
    ensures
        r.len() == sheet.len(),
        forall|k: int| 0 <= k < r.len() ==> #[trigger] r@[k] == narrowed_value(sheet@[k] as nat),
{
    let mut r: Vec<u8> = Vec::new();
    let mut i: usize = 0;
    while i < sheet.len()
        invariant
            i <= sheet.len(),
            r.len() == i,
            forall|k: int| 0 <= k < i ==> #[trigger] r@[k] == narrowed_value(sheet@[k] as nat),
        decreases sheet.len() - i,
    {
        r.push(narrow(sheet[i]));
        i += 1;
    }
    r
}

/// The bytes of a 16-bit image of the sheet: each value high byte first.
pub open spec fn big_endian_bytes(sheet: Seq<u16>) -> Seq<u8>
    decreases sheet.len(),
{
    if sheet.len() == 0 {
        Seq::empty()
    } else {
        big_endian_bytes(sheet.drop_last()) + bytes::be16(sheet.last() as nat)
    }
}

/// The bytes of a 16-bit image of the sheet.
pub fn big_endian(sheet: &Vec<u16>) -> (r: Vec<u8>)
    ensures
        r@ == big_endian_bytes(sheet@),
{
    let mut r: Vec<u8> = Vec::new();
    let mut i: usize = 0;
    while i < sheet.len()
        invariant
            i <= sheet.len(),
            r@ == big_endian_bytes(sheet@.take(i as int)),
        decreases sheet.len() - i,
    {
        assert(sheet@.take(i + 1).drop_last() =~= sheet@.take(i as int));
        bytes::push_be16(&mut r, sheet[i] as u64);
        i += 1;
    }
    assert(sheet@.take(i as int) =~= sheet@);
    r
}

/// The image data that a PNG of the given depth is written from.
pub open spec fn image_bytes(sheet: Seq<u16>, depth: BitDepth) -> Seq<u8> {
    match depth {
        BitDepth::Eight => Seq::new(
            sheet.len(),
            |k: int| narrowed_value(sheet[k] as nat) as u8,
        ),
        BitDepth::Sixteen => big_endian_bytes(sheet),
    }
}

/// The image data of a sheet at a depth.
pub fn image_data(sheet: &Vec<u16>, depth: BitDepth) -> (r: Vec<u8>)
    ensures
        r@ == image_bytes(sheet@, depth),
{
    match depth {
        BitDepth::Eight => {
            let r = narrowed(sheet);
            assert(r@ =~= image_bytes(sheet@, depth));
            r
        },
        BitDepth::Sixteen => big_endian(sheet),
    }
}

/// A pixel of a tile stands on the sheet where its tile does: so many whole
/// tiles to the right and down, and then where it stands on the tile, row by row
/// with four values to a pixel.
pub proof fn a_pixel_stands_where_its_tile_does(
    shape: SheetShape,
    col: int,
    row: int,
    x: int,
    y: int,
    channel: int,
)
    ensures
        shape.start(col, row, y) + 4 * x + channel == 4 * ((shape.width * shape.cols) * (row
            * shape.height + y) + (col * shape.width + x)) + channel,
{
    let (w, c) = (shape.width as int, shape.cols as int);
    let line = row * shape.height + y;
    let wide = w * c;
    assert(line * (wide * 4) == 4 * (wide * line)) by (nonlinear_arith);
    assert(w * c * 4 == wide * 4);
    assert(col * (w * 4) == 4 * (col * w)) by (nonlinear_arith);
}

/// A value of sixteen bits is written high byte first, and one of eight bits is
/// the value's share of 255, rounded down.
pub proof fn values_are_written_in_order(sheet: Seq<u16>, k: int)
    requires
        0 <= k < sheet.len(),
    ensures
        image_bytes(sheet, BitDepth::Sixteen).len() == 2 * sheet.len(),
        256 * image_bytes(sheet, BitDepth::Sixteen)[2 * k] + image_bytes(
            sheet,
            BitDepth::Sixteen,
        )[2 * k + 1] == sheet[k],
        image_bytes(sheet, BitDepth::Eight).len() == sheet.len(),
        257 * image_bytes(sheet, BitDepth::Eight)[k] <= sheet[k] < 257 * image_bytes(
            sheet,
            BitDepth::Eight,
        )[k] + 257,
    decreases sheet.len(),
{
    words_take_two_bytes(sheet);
    let front = sheet.drop_last();
    words_take_two_bytes(front);
    let (had, all) = (big_endian_bytes(front), big_endian_bytes(sheet));
    let last = bytes::be16(sheet.last() as nat);
    assert(all == had + last);
    if k < front.len() {
        values_are_written_in_order(front, k);
        assert(all[2 * k] == had[2 * k] && all[2 * k + 1] == had[2 * k + 1]);
        assert(front[k] == sheet[k]);
    } else {
        assert(all[2 * k] == last[0] && all[2 * k + 1] == last[1]);
    }
}

proof fn words_take_two_bytes(sheet: Seq<u16>)
    ensures
        big_endian_bytes(sheet).len() == 2 * sheet.len(),
    decreases sheet.len(),
{
    if sheet.len() > 0 {
        words_take_two_bytes(sheet.drop_last());
    }
}

/// A row is padded to the next whole 256 bytes and no further.
pub proof fn rows_are_padded_no_further(n: nat)
    ensures
        n <= padded256(n) < n + 256,
        padded256(n) % 256 == 0,
{
}

/// A value of a texel is read from its row, past the padding of the rows before,
/// low byte first.
pub proof fn texels_are_read_row_by_row(
    data: Seq<u8>,
    y: int,
    i: int,
    row_words: int,
    padded: int,
    size: int,
)
    requires
        0 <= i < row_words,
        0 <= y,
        size == 1 || size == 2 || size == 4,
        0 <= word_place(y * row_words + i, row_words, padded, size),
        word_place(y * row_words + i, row_words, padded, size) + size <= data.len(),
    ensures
        word_place(y * row_words + i, row_words, padded, size) == y * padded + i * size,
        ({
            let at = y * padded + i * size;
            let v = word_at(data, word_place(y * row_words + i, row_words, padded, size), size);
            &&& size == 1 ==> v == data[at]
            &&& size == 2 ==> v == data[at] + 256 * data[at + 1]
            &&& size == 4 ==> v == data[at] + 256 * (data[at + 1] + 256 * (data[at + 2] + 256
                * data[at + 3]))
        }),
{
    let k = y * row_words + i;
    assert(row_words * y == y * row_words) by (nonlinear_arith);
    vstd::arithmetic::div_mod::lemma_fundamental_div_mod_converse(k, row_words, y, i);
}

/// A sheet is cleared to its colour, channel by channel, all of it.
pub proof fn a_clear_sheet_is_one_colour(shape: SheetShape, color: Seq<u16>, pixel: int, channel: int)
    requires
        0 <= pixel,
        4 * pixel + channel < shape.values(),
        0 <= channel < 4,
    ensures
        shape.clear(color).len() == shape.values(),
        shape.clear(color)[4 * pixel + channel] == color[channel],
{
    assert((4 * pixel + channel) % 4 == channel);
}

} // verus!
