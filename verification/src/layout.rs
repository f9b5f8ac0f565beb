//! The page of a report: sections of rows, a keyword in a fixed gutter, and
//! columns that line up.

use crate::text;
use vstd::prelude::*;

verus! {

/// The hard right margin. An 80-column terminal is the floor, and a wrapped
/// row loses the alignment it was read by.
pub const WIDTH: usize = 78;

/// Width of the section-keyword gutter, with its trailing space.
pub const GUTTER: usize = 9;

/// The columns that are left for a row.
pub const ROOM: usize = 69;

/// What a cell reads: a label, a value, and whether it takes its column's
/// label width.
pub struct CellModel {
    pub label: Seq<char>,
    pub value: Seq<char>,
    pub columned: bool,
}

/// A stretch of text, and the codes that paint it.
pub struct SpanModel {
    pub open: Seq<char>,
    pub text: Seq<char>,
    pub close: Seq<char>,
}

/// What a row reads.
pub enum RowModel {
    Cells(Seq<CellModel>),
    Text(Seq<char>),
    /// Free text that wears paint in a coloured report.
    Painted(Seq<SpanModel>),
    /// Paint alone, under another row of a coloured report.
    Swatch(Seq<char>),
}

/// Text that wears no paint.
pub open spec fn unpainted(text: Seq<char>) -> SpanModel {
    SpanModel { open: Seq::empty(), text, close: Seq::empty() }
}

/// What stretches of text read without their paint.
pub open spec fn plain_of(spans: Seq<SpanModel>) -> Seq<char>
    decreases spans.len(),
{
    if spans.len() == 0 {
        Seq::empty()
    } else {
        plain_of(spans.drop_last()) + spans.last().text
    }
}

/// What stretches of text read with their paint.
pub open spec fn painted_of(spans: Seq<SpanModel>) -> Seq<char>
    decreases spans.len(),
{
    if spans.len() == 0 {
        Seq::empty()
    } else {
        painted_of(spans.drop_last()) + (spans.last().open + spans.last().text + spans.last().close)
    }
}

/// What a section reads.
pub struct SectionModel {
    pub key: Seq<char>,
    pub rows: Seq<RowModel>,
}

/// A value under its label.
pub open spec fn labelled(label: Seq<char>, value: Seq<char>) -> CellModel {
    CellModel { label, value, columned: true }
}

/// A value in a labelled column that has no label of its own.
pub open spec fn unlabelled(value: Seq<char>) -> CellModel {
    CellModel { label: Seq::empty(), value, columned: true }
}

/// Prose that qualifies the cell before it.
pub open spec fn remark(value: Seq<char>) -> CellModel {
    CellModel { label: Seq::empty(), value, columned: false }
}

/// A section without rows.
pub open spec fn section(key: Seq<char>) -> SectionModel {
    SectionModel { key, rows: Seq::empty() }
}

impl SectionModel {
    /// The section with a row of cells after its rows.
    pub open spec fn cells(self, cells: Seq<CellModel>) -> SectionModel {
        SectionModel { key: self.key, rows: self.rows.push(RowModel::Cells(cells)) }
    }

    /// The section with one labelled value after its rows.
    pub open spec fn pair(self, label: Seq<char>, value: Seq<char>) -> SectionModel {
        self.cells(seq![labelled(label, value)])
    }

    /// The section with a row of two cells after its rows.
    pub open spec fn two(self, a: CellModel, b: CellModel) -> SectionModel {
        self.cells(seq![a, b])
    }

    /// The section with a row of three cells after its rows.
    pub open spec fn three(self, a: CellModel, b: CellModel, c: CellModel) -> SectionModel {
        self.cells(seq![a, b, c])
    }

    /// The section with free text after its rows.
    pub open spec fn text(self, text: Seq<char>) -> SectionModel {
        SectionModel { key: self.key, rows: self.rows.push(RowModel::Text(text)) }
    }

    /// The section with text that wears paint after its rows.
    pub open spec fn painted(self, spans: Seq<SpanModel>) -> SectionModel {
        SectionModel { key: self.key, rows: self.rows.push(RowModel::Painted(spans)) }
    }

    /// The section with paint after its rows.
    pub open spec fn swatch(self, paint: Seq<char>) -> SectionModel {
        SectionModel { key: self.key, rows: self.rows.push(RowModel::Swatch(paint)) }
    }

    /// The section with several lines of free text after its rows.
    pub open spec fn texts(self, lines: Seq<Seq<char>>) -> SectionModel
        decreases lines.len(),
    {
        if lines.len() == 0 {
            self
        } else {
            self.texts(lines.drop_last()).text(lines.last())
        }
    }
}

/// The width that one row asks of the labels of column `c`.
pub open spec fn row_width(row: RowModel, c: int) -> nat {
    match row {
        RowModel::Cells(cells) => if 0 <= c < cells.len() && cells[c].columned {
            cells[c].label.len()
        } else {
            0
        },
        _ => 0,
    }
}

/// The width of the labels of column `c`: the longest of them.
pub open spec fn column_width(rows: Seq<RowModel>, c: int) -> nat
    decreases rows.len(),
{
    if rows.len() == 0 {
        0
    } else {
        let before = column_width(rows.drop_last(), c);
        let here = row_width(rows.last(), c);
        if before < here {
            here
        } else {
            before
        }
    }
}

/// What a cell adds to its line: three spaces after the cell before it, its
/// label in a column that has labels, and its value.
pub open spec fn cell_text(cell: CellModel, rows: Seq<RowModel>, c: int) -> Seq<char> {
    (if c > 0 {
        "   "@
    } else {
        Seq::empty()
    }) + (if cell.columned && column_width(rows, c) > 0 {
        text::padded_right(cell.label, column_width(rows, c)) + "  "@
    } else {
        Seq::empty()
    }) + cell.value
}

/// A row of cells as one line.
pub open spec fn cells_line(cells: Seq<CellModel>, rows: Seq<RowModel>) -> Seq<char>
    decreases cells.len(),
{
    if cells.len() == 0 {
        Seq::empty()
    } else {
        cells_line(cells.drop_last(), rows) + cell_text(cells.last(), rows, cells.len() - 1)
    }
}

/// A line broken wherever it reaches the margin.
pub open spec fn broken(t: Seq<char>) -> Seq<Seq<char>>
    decreases t.len(),
{
    if t.len() <= ROOM {
        seq![t]
    } else {
        seq![text::trimmed_end(t.take(ROOM as int))] + broken(t.skip(ROOM as int))
    }
}

/// The lines that a row prints behind the gutter, after `above` lines of its
/// section. A row that is too wide is broken and wears no paint.
pub open spec fn row_lines(row: RowModel, rows: Seq<RowModel>, above: nat, color: bool) -> Seq<
    Seq<char>,
> {
    match row {
        RowModel::Cells(cells) => broken(text::trimmed_end(cells_line(cells, rows))),
        RowModel::Text(t) => broken(text::trimmed_end(t)),
        RowModel::Painted(spans) => if color && text::trimmed_end(plain_of(spans)).len() <= ROOM {
            seq![text::trimmed_end(painted_of(spans))]
        } else {
            broken(text::trimmed_end(plain_of(spans)))
        },
        RowModel::Swatch(paint) => if color && above > 0 {
            seq![text::trimmed_end(paint)]
        } else {
            Seq::empty()
        },
    }
}

/// The lines that the first `n` rows print behind the gutter.
pub open spec fn printed(rows: Seq<RowModel>, n: nat, color: bool) -> Seq<Seq<char>>
    decreases n,
{
    if n == 0 {
        Seq::empty()
    } else {
        let above = printed(rows, (n - 1) as nat, color);
        above + row_lines(rows[n - 1], rows, above.len(), color)
    }
}

/// What stands in the gutter: the keyword on the first line of a section.
pub open spec fn gutter(key: Seq<char>, i: int) -> Seq<char> {
    if i == 0 {
        text::padded_right(key, GUTTER as nat)
    } else {
        text::repeated(' ', GUTTER as nat)
    }
}

/// Lines with their gutter, the keyword in front of the first.
pub open spec fn lines_text(key: Seq<char>, lines: Seq<Seq<char>>) -> Seq<char>
    decreases lines.len(),
{
    if lines.len() == 0 {
        Seq::empty()
    } else {
        lines_text(key, lines.drop_last()) + gutter(key, lines.len() - 1) + lines.last() + seq![
            '\n',
        ]
    }
}

/// A section as it prints.
pub open spec fn section_text(s: SectionModel, color: bool) -> Seq<char> {
    lines_text(s.key, printed(s.rows, s.rows.len(), color))
}

/// Sections as they print: one blank line between them.
pub open spec fn report_text(sections: Seq<SectionModel>, color: bool) -> Seq<char>
    decreases sections.len(),
{
    if sections.len() == 0 {
        Seq::empty()
    } else {
        report_text(sections.drop_last(), color) + (if sections.len() > 1 {
            seq!['\n']
        } else {
            Seq::empty()
        }) + section_text(sections.last(), color)
    }
}

/// A label and its value.
pub struct Cell {
    pub label: String,
    pub value: String,
    /// Whether the cell takes its column's label width. A value does; a
    /// remark trailing the value beside it does not.
    pub columned: bool,
}

impl View for Cell {
    type V = CellModel;

    open spec fn view(&self) -> CellModel {
        CellModel { label: self.label@, value: self.value@, columned: self.columned }
    }
}

/// What each of several cells reads.
pub open spec fn cell_views(cells: Seq<Cell>) -> Seq<CellModel> {
    Seq::new(cells.len(), |i: int| cells[i]@)
}

impl Cell {
    /// A value under its label.
    pub fn new(label: &str, value: String) -> (c: Cell)
        ensures
            c@ == labelled(label@, value@),
    {
        let mut l = String::new();
        l.append(label);
        assert(l@ =~= label@);
        Cell { label: l, value, columned: true }
    }

    /// A value in a labelled column that has nothing to say this row.
    pub fn bare(value: &str) -> (c: Cell)
        ensures
            c@ == unlabelled(value@),
    {
        let mut v = String::new();
        v.append(value);
        assert(v@ =~= value@);
        let label = String::new();
        assert(label@ =~= Seq::<char>::empty());
        Cell { label, value: v, columned: true }
    }

    /// Prose that qualifies the cell before it: a unit, a range, a caveat.
    pub fn note(value: String) -> (c: Cell)
        ensures
            c@ == remark(value@),
    {
        let label = String::new();
        assert(label@ =~= Seq::<char>::empty());
        Cell { label, value, columned: false }
    }
}

/// A stretch of text, and the codes that paint it.
pub struct Span {
    pub open: String,
    pub text: String,
    pub close: String,
}

impl View for Span {
    type V = SpanModel;

    open spec fn view(&self) -> SpanModel {
        SpanModel { open: self.open@, text: self.text@, close: self.close@ }
    }
}

/// What each of several stretches of text reads.
pub open spec fn span_views(spans: Seq<Span>) -> Seq<SpanModel> {
    Seq::new(spans.len(), |i: int| spans[i]@)
}

impl Span {
    /// Text that wears no paint.
    pub fn bare(text: String) -> (s: Span)
        ensures
            s@ == unpainted(text@),
    {
        let s = Span { open: String::new(), text, close: String::new() };
        assert(s.open@ =~= Seq::<char>::empty());
        assert(s.close@ =~= Seq::<char>::empty());
        s
    }
}

fn join_spans(spans: &Vec<Span>, color: bool) -> (s: String)
    ensures
        s@ == (if color {
            painted_of(span_views(spans@))
        } else {
            plain_of(span_views(spans@))
        }),
{
    let ghost all = span_views(spans@);
    let mut s = String::new();
    let mut i: usize = 0;
    assert(all.take(0) =~= Seq::empty());
    assert(s@ =~= Seq::empty());
    while i < spans.len()
        invariant
            i <= spans@.len(),
            all == span_views(spans@),
            s@ == (if color {
                painted_of(all.take(i as int))
            } else {
                plain_of(all.take(i as int))
            }),
        decreases spans@.len() - i,
    {
        let ghost before = s@;
        assert(all.take(i + 1).drop_last() =~= all.take(i as int));
        assert(all.take(i + 1).last() == spans@[i as int]@);
        if color {
            s.append(spans[i].open.as_str());
            s.append(spans[i].text.as_str());
            s.append(spans[i].close.as_str());
            assert(s@ =~= before + (spans@[i as int].open@ + spans@[i as int].text@
                + spans@[i as int].close@));
        } else {
            s.append(spans[i].text.as_str());
        }
        i += 1;
    }
    assert(all.take(i as int) =~= all);
    s
}

/// One row of a section.
pub enum Row {
    /// Columnised cells, indented into the gutter.
    Cells(Vec<Cell>),
    /// Free text, indented into the gutter.
    Text(String),
    /// Free text that wears paint in a coloured report.
    Painted(Vec<Span>),
    /// Paint alone, under another row of a coloured report.
    Swatch(String),
}

impl View for Row {
    type V = RowModel;

    open spec fn view(&self) -> RowModel {
        match self {
            Row::Cells(cells) => RowModel::Cells(cell_views(cells@)),
            Row::Text(t) => RowModel::Text(t@),
            Row::Painted(spans) => RowModel::Painted(span_views(spans@)),
            Row::Swatch(paint) => RowModel::Swatch(paint@),
        }
    }
}

/// What each of several rows reads.
pub open spec fn row_views(rows: Seq<Row>) -> Seq<RowModel> {
    Seq::new(rows.len(), |i: int| rows[i]@)
}

/// A keyword and the rows under it.
pub struct Section {
    pub key: &'static str,
    pub rows: Vec<Row>,
}

impl View for Section {
    type V = SectionModel;

    open spec fn view(&self) -> SectionModel {
        SectionModel { key: self.key@, rows: row_views(self.rows@) }
    }
}

/// What each of several sections reads.
pub open spec fn section_views(sections: Seq<Section>) -> Seq<SectionModel> {
    Seq::new(sections.len(), |i: int| sections[i]@)
}

impl Section {
    /// A section without rows.
    pub fn new(key: &'static str) -> (s: Section)
        ensures
            s@ == section(key@),
    {
        let s = Section { key, rows: Vec::new() };
        assert(s@.rows =~= Seq::empty());
        s
    }

    fn push(&mut self, row: Row)
        ensures
            final(self)@ == (SectionModel { key: old(self)@.key, rows: old(self)@.rows.push(row@) }),
    {
        self.rows.push(row);
        assert(self@.rows =~= old(self)@.rows.push(row@));
    }

    /// Add a row of cells.
    pub fn cells(&mut self, cells: Vec<Cell>)
        ensures
            final(self)@ == old(self)@.cells(cell_views(cells@)),
    {
        self.push(Row::Cells(cells));
    }

    /// Add one labelled value.
    pub fn pair(&mut self, label: &str, value: String)
        ensures
            final(self)@ == old(self)@.pair(label@, value@),
    {
        let mut cells: Vec<Cell> = Vec::new();
        cells.push(Cell::new(label, value));
        assert(cell_views(cells@) =~= seq![labelled(label@, value@)]);
        self.cells(cells);
    }

    /// Add a row of two cells.
    pub fn two(&mut self, a: Cell, b: Cell)
        ensures
            final(self)@ == old(self)@.two(a@, b@),
    {
        let mut cells: Vec<Cell> = Vec::new();
        cells.push(a);
        cells.push(b);
        assert(cell_views(cells@) =~= seq![a@, b@]);
        self.cells(cells);
    }

    /// Add a row of three cells.
    pub fn three(&mut self, a: Cell, b: Cell, c: Cell)
        ensures
            final(self)@ == old(self)@.three(a@, b@, c@),
    {
        let mut cells: Vec<Cell> = Vec::new();
        cells.push(a);
        cells.push(b);
        cells.push(c);
        assert(cell_views(cells@) =~= seq![a@, b@, c@]);
        self.cells(cells);
    }

    /// Add free text.
    pub fn text(&mut self, text: String)
        ensures
            final(self)@ == old(self)@.text(text@),
    {
        self.push(Row::Text(text));
    }

    /// Add text that wears paint.
    pub fn painted(&mut self, spans: Vec<Span>)
        ensures
            final(self)@ == old(self)@.painted(span_views(spans@)),
    {
        self.push(Row::Painted(spans));
    }

    /// Add paint.
    pub fn swatch(&mut self, paint: String)
        ensures
            final(self)@ == old(self)@.swatch(paint@),
    {
        self.push(Row::Swatch(paint));
    }

    /// Add a line of fixed text.
    pub fn line(&mut self, line: &str)
        ensures
            final(self)@ == old(self)@.text(line@),
    {
        let mut t = String::new();
        t.append(line);
        assert(t@ =~= line@);
        self.text(t);
    }

    /// Add several lines of free text.
    pub fn texts(&mut self, lines: Vec<String>)
        ensures
            final(self)@ == old(self)@.texts(text::views(lines@)),
    {
        let ghost all = text::views(lines@);
        let mut i: usize = 0;
        assert(all.take(0) =~= Seq::empty());
        while i < lines.len()
            invariant
                i <= lines.len(),
                all == text::views(lines@),
                self@ == old(self)@.texts(all.take(i as int)),
            decreases lines.len() - i,
        {
            assert(all.take(i + 1).drop_last() =~= all.take(i as int));
            self.line(lines[i].as_str());
            i += 1;
        }
        assert(all.take(i as int) =~= all);
    }

    /// The label width of column `c`, taken across every row of cells: one
    /// edge per column.
    fn width(&self, c: usize) -> (w: usize)
        ensures
            w == column_width(self@.rows, c as int),
    {
        let mut w: usize = 0;
        let mut i: usize = 0;
        assert(self@.rows.take(0) =~= Seq::empty());
        while i < self.rows.len()
            invariant
                i <= self.rows.len(),
                w == column_width(self@.rows.take(i as int), c as int),
            decreases self.rows.len() - i,
        {
            assert(self@.rows.take(i + 1).drop_last() =~= self@.rows.take(i as int));
            assert(self@.rows.take(i + 1).last() == self.rows[i as int]@);
            if let Row::Cells(cells) = &self.rows[i] {
                if c < cells.len() && cells[c].columned {
                    let n: usize = text::char_count(cells[c].label.as_str());
                    if w < n {
                        w = n;
                    }
                }
            }
            i += 1;
        }
        assert(self@.rows.take(i as int) =~= self@.rows);
        w
    }

    /// A row of cells as one line.
    fn joined(&self, cells: &Vec<Cell>) -> (line: String)
        ensures
            line@ == cells_line(cell_views(cells@), self@.rows),
    {
        let ghost all = cell_views(cells@);
        let mut line = String::new();
        let mut c: usize = 0;
        assert(all.take(0) =~= Seq::empty());
        assert(line@ =~= Seq::empty());
        while c < cells.len()
            invariant
                c <= cells.len(),
                all == cell_views(cells@),
                line@ == cells_line(all.take(c as int), self@.rows),
            decreases cells.len() - c,
        {
            let ghost before = line@;
            assert(all.take(c + 1).drop_last() =~= all.take(c as int));
            assert(all.take(c + 1).last() == cells[c as int]@);
            if c > 0 {
                line.append("   ");
            }
            if cells[c].columned {
                let w: usize = self.width(c);
                if w > 0 {
                    text::push_padded_right(&mut line, cells[c].label.as_str(), w);
                    line.append("  ");
                }
            }
            line.append(cells[c].value.as_str());
            assert(line@ =~= before + cell_text(cells[c as int]@, self@.rows, c as int));
            c += 1;
        }
        assert(all.take(c as int) =~= all);
        line
    }

    /// The lines that the section prints behind the gutter.
    fn lines(&self, color: bool) -> (lines: Vec<String>)
        ensures
            text::views(lines@) == printed(self@.rows, self@.rows.len(), color),
    {
        let mut lines: Vec<String> = Vec::new();
        let mut i: usize = 0;
        assert(text::views(lines@) =~= Seq::empty());
        while i < self.rows.len()
            invariant
                i <= self.rows.len(),
                text::views(lines@) == printed(self@.rows, i as nat, color),
            decreases self.rows.len() - i,
        {
            let ghost above = text::views(lines@);
            assert(self@.rows[i as int] == self.rows[i as int]@);
            assert(above.len() == lines@.len());
            match &self.rows[i] {
                Row::Text(t) => {
                    let line = text::trim_end(t.as_str());
                    push_broken(&mut lines, line.as_str());
                },
                Row::Cells(cells) => {
                    let joined = self.joined(cells);
                    let line = text::trim_end(joined.as_str());
                    push_broken(&mut lines, line.as_str());
                },
                Row::Painted(spans) => {
                    let plain = join_spans(spans, false);
                    let line = text::trim_end(plain.as_str());
                    if color && text::char_count(line.as_str()) <= ROOM {
                        let painted = join_spans(spans, true);
                        let shown = text::trim_end(painted.as_str());
                        let ghost it = shown@;
                        lines.push(shown);
                        assert(text::views(lines@) =~= above + seq![it]);
                    } else {
                        push_broken(&mut lines, line.as_str());
                    }
                },
                Row::Swatch(paint) => {
                    if color && lines.len() > 0 {
                        let shown = text::trim_end(paint.as_str());
                        let ghost it = shown@;
                        lines.push(shown);
                        assert(text::views(lines@) =~= above + seq![it]);
                    } else {
                        assert(above + Seq::<Seq<char>>::empty() =~= above);
                    }
                },
            }
            i += 1;
        }
        lines
    }

    /// Print the section.
    pub fn render(&self, out: &mut String, color: bool)
        ensures
            final(out)@ == old(out)@ + section_text(self@, color),
    {
        let lines = self.lines(color);
        let ghost all = text::views(lines@);
        let mut i: usize = 0;
        assert(all.take(0) =~= Seq::empty());
        assert(old(out)@ + lines_text(self@.key, Seq::empty()) =~= old(out)@);
        while i < lines.len()
            invariant
                i <= lines.len(),
                all == text::views(lines@),
                out@ == old(out)@ + lines_text(self@.key, all.take(i as int)),
            decreases lines.len() - i,
        {
            let ghost before = out@;
            assert(all.take(i + 1).drop_last() =~= all.take(i as int));
            assert(all.take(i + 1).last() == lines@[i as int]@);
            if i == 0 {
                text::push_padded_right(out, self.key, GUTTER);
            } else {
                text::push_repeated(out, ' ', GUTTER);
            }
            out.append(lines[i].as_str());
            out.push('\n');
            assert(out@ =~= before + gutter(self@.key, i as int) + lines@[i as int]@ + seq!['\n']);
            i += 1;
            assert(out@ =~= old(out)@ + lines_text(self@.key, all.take(i as int)));
        }
        assert(all.take(i as int) =~= all);
    }
}

/// Add a line, broken wherever it reaches the margin.
fn push_broken(lines: &mut Vec<String>, t: &str)
    ensures
        text::views(final(lines)@) == text::views(old(lines)@) + broken(t@),
{
    let v = text::chars_of(t);
    let n: usize = v.len();
    let ghost had = text::views(lines@);
    let mut i: usize = 0;
    assert(v@.skip(0) =~= t@);
    while n - i > ROOM
        invariant
            i <= n,
            n == v@.len(),
            had + broken(t@) == text::views(lines@) + broken(v@.skip(i as int)),
        decreases n - i,
    {
        let ghost before = text::views(lines@);
        let ghost rest = v@.skip(i as int);
        let part = text::string_of_range(&v, i, i + ROOM);
        assert(part@ =~= rest.take(ROOM as int));
        let line = text::trim_end(part.as_str());
        let ghost it = line@;
        lines.push(line);
        assert(text::views(lines@) =~= before.push(it));
        assert(rest.skip(ROOM as int) =~= v@.skip(i + ROOM));
        let ghost later = broken(v@.skip(i + ROOM));
        assert(before + (seq![it] + later) =~= before.push(it) + later);
        i = i + ROOM;
    }
    let ghost before = text::views(lines@);
    let last = text::string_of_range(&v, i, n);
    assert(last@ =~= v@.skip(i as int));
    let ghost it = last@;
    lines.push(last);
    assert(text::views(lines@) =~= before.push(it));
    assert(before + seq![it] =~= before.push(it));
}

/// Everything a report says, before it is text.
pub struct Report {
    pub sections: Vec<Section>,
}

impl Report {
    /// The page: exactly one blank line between sections.
    pub fn to_text(&self, color: bool) -> (out: String)
        ensures
            out@ == report_text(section_views(self.sections@), color),
    {
        let ghost all = section_views(self.sections@);
        let mut out = String::new();
        let mut i: usize = 0;
        assert(all.take(0) =~= Seq::empty());
        assert(out@ =~= Seq::empty());
        while i < self.sections.len()
            invariant
                i <= self.sections.len(),
                all == section_views(self.sections@),
                out@ == report_text(all.take(i as int), color),
            decreases self.sections.len() - i,
        {
            let ghost before = out@;
            assert(all.take(i + 1).drop_last() =~= all.take(i as int));
            assert(all.take(i + 1).last() == self.sections[i as int]@);
            if i > 0 {
                out.push('\n');
            }
            self.sections[i].render(&mut out, color);
            assert(out@ =~= before + (if i > 0 {
                seq!['\n']
            } else {
                Seq::empty()
            }) + section_text(self.sections[i as int]@, color));
            i += 1;
        }
        assert(all.take(i as int) =~= all);
        out
    }
}

/// Two things on one line, the second pushed to the right margin where there
/// is room for two spaces between them. Where there is not, the line is broken
/// at the margin when it is printed.
pub open spec fn spread_text(left: Seq<char>, right: Seq<char>) -> Seq<char> {
    let used = left.len() + right.len();
    if used + 2 <= ROOM {
        left + text::repeated(' ', (ROOM - used) as nat) + right
    } else {
        left + "  "@ + right
    }
}

/// Two things on one line.
pub fn spread(left: &str, right: &str) -> (s: String)
    ensures
        s@ == spread_text(left@, right@),
{
    let a: usize = text::char_count(left);
    let b: usize = text::char_count(right);
    let mut s = String::new();
    s.append(left);
    if a <= ROOM && b <= ROOM - a && ROOM - a - b >= 2 {
        text::push_repeated(&mut s, ' ', ROOM - a - b);
    } else {
        s.append("  ");
    }
    s.append(right);
    assert(s@ =~= spread_text(left@, right@));
    s
}

/// Words set one after another on lines that fit the margin: `line` is the
/// line so far, `empty` whether it has no word yet, and a line after it
/// starts with `hang` spaces.
pub open spec fn filled(line: Seq<char>, empty: bool, hang: nat, words: Seq<Seq<char>>) -> Seq<
    Seq<char>,
>
    decreases words.len(),
{
    if words.len() == 0 {
        seq![line]
    } else if !empty && line.len() + 1 + words[0].len() > ROOM {
        seq![line] + filled(
            text::repeated(' ', hang) + words[0],
            false,
            hang,
            words.drop_first(),
        )
    } else if empty {
        filled(line + words[0], false, hang, words.drop_first())
    } else {
        filled(line + seq![' '] + words[0], false, hang, words.drop_first())
    }
}

/// A text broken into lines that fit the margin: `first` in front of the
/// first line, `hang` spaces in front of the rest.
pub open spec fn wrapped(first: Seq<char>, hang: nat, t: Seq<char>) -> Seq<Seq<char>> {
    filled(first, true, hang, text::words(t))
}

/// Break a text into lines that fit the margin.
pub fn wrap(first: &str, hang: usize, t: &str) -> (lines: Vec<String>)
    ensures
        text::views(lines@) == wrapped(first@, hang as nat, t@),
{
    let v = text::chars_of(t);
    let n: usize = v.len();
    let mut lines: Vec<String> = Vec::new();
    let mut line = String::new();
    line.append(first);
    assert(line@ =~= first@);
    let mut empty = true;
    let mut i: usize = 0;
    assert(v@.skip(0) =~= t@);
    assert(text::views(lines@) =~= Seq::empty());
    assert(Seq::<Seq<char>>::empty() + filled(first@, true, hang as nat, text::words(t@))
        =~= wrapped(first@, hang as nat, t@));
    loop
        invariant_except_break
            i <= v.len(),
            n == v@.len(),
            text::views(lines@) + filled(
                line@,
                empty,
                hang as nat,
                text::words(v@.skip(i as int)),
            ) == wrapped(first@, hang as nat, t@),
        ensures
            text::views(lines@).push(line@) == wrapped(first@, hang as nat, t@),
        decreases n - i,
    {
        let ghost rest = v@.skip(i as int);
        let b: usize = text::trim_start_at(&v, i, n);
        assert(v@.subrange(i as int, n as int) =~= rest);
        assert(v@.subrange(b as int, n as int) =~= v@.skip(b as int));
        let ghost trimmed = v@.skip(b as int);
        if b == n {
            assert(trimmed.len() == 0);
            assert(text::words(rest) =~= Seq::empty());
            assert(filled(line@, empty, hang as nat, text::words(rest)) =~= seq![line@]);
            assert(text::views(lines@) + seq![line@] =~= text::views(lines@).push(line@));
            break;
        }
        let e: usize = text::word_stop(&v, b);
        proof {
            text::trimmed_start_shrinks(rest);
            assert(!text::is_space(v@[b as int])) by {
                assert(trimmed[0] == v@[b as int]);
            }
        }
        let word = text::string_of_range(&v, b, e);
        let ghost later = text::words(v@.skip(e as int));
        let ghost ahead = text::words(rest);
        proof {
            assert(trimmed.take(e - b) =~= word@);
            assert(trimmed.skip(e - b) =~= v@.skip(e as int));
            assert(ahead == seq![word@] + later);
            assert(ahead.drop_first() =~= later);
            assert(ahead[0] == word@);
        }
        let ghost lines_before = text::views(lines@);
        let used: usize = text::char_count(line.as_str());
        let more: usize = text::char_count(word.as_str());
        if !empty && (used >= ROOM || more >= ROOM || used + 1 + more > ROOM) {
            let mut next = String::new();
            text::push_repeated(&mut next, ' ', hang);
            next.append(word.as_str());
            assert(next@ =~= text::repeated(' ', hang as nat) + word@);
            let ghost done = line@;
            lines.push(line);
            line = next;
            assert(text::views(lines@) =~= lines_before.push(done));
            assert(lines_before.push(done) + filled(line@, false, hang as nat, later)
                =~= lines_before + (seq![done] + filled(line@, false, hang as nat, later)));
        } else {
            let ghost before = line@;
            if !empty {
                line.push(' ');
            }
            line.append(word.as_str());
            assert(line@ =~= if empty {
                before + word@
            } else {
                before + seq![' '] + word@
            });
        }
        empty = false;
        i = e;
    }
    let ghost before = text::views(lines@);
    let ghost last = line@;
    lines.push(line);
    assert(text::views(lines@) =~= before.push(last));
    lines
}

/// A word that is set at the start of a line fits, `ahead` columns into it.
pub open spec fn words_fit(words: Seq<Seq<char>>, ahead: nat) -> bool {
    forall|i: int| 0 <= i < words.len() ==> ahead + (#[trigger] words[i]).len() <= ROOM
}

/// No wrapped line runs past the margin, where what is in front of a line
/// leaves room for the longest word.
pub proof fn wrapped_lines_fit(first: Seq<char>, hang: nat, t: Seq<char>)
    requires
        first.len() <= ROOM,
        words_fit(text::words(t), first.len()),
        words_fit(text::words(t), hang),
    ensures
        forall|i: int|
            0 <= i < wrapped(first, hang, t).len() ==> (#[trigger] wrapped(first, hang, t)[i]).len()
                <= ROOM,
{
    filled_lines_fit(first, true, hang, text::words(t));
}

proof fn filled_lines_fit(line: Seq<char>, empty: bool, hang: nat, words: Seq<Seq<char>>)
    requires
        line.len() <= ROOM,
        empty ==> words_fit(words, line.len()),
        words_fit(words, hang),
    ensures
        forall|i: int|
            0 <= i < filled(line, empty, hang, words).len() ==> (#[trigger] filled(
                line,
                empty,
                hang,
                words,
            )[i]).len() <= ROOM,
    decreases words.len(),
{
    if words.len() > 0 {
        let rest = words.drop_first();
        assert(words_fit(rest, hang)) by {
            assert forall|i: int| 0 <= i < rest.len() implies hang + (#[trigger] rest[i]).len()
                <= ROOM by {
                assert(rest[i] == words[i + 1]);
            }
        }
        let w = words[0];
        if !empty && line.len() + 1 + w.len() > ROOM {
            let next = text::repeated(' ', hang) + w;
            filled_lines_fit(next, false, hang, rest);
            let all = filled(line, empty, hang, words);
            assert forall|i: int| 0 <= i < all.len() implies (#[trigger] all[i]).len() <= ROOM by {
                if i > 0 {
                    assert(all[i] == filled(next, false, hang, rest)[i - 1]);
                }
            }
        } else if empty {
            filled_lines_fit(line + w, false, hang, rest);
            assert(filled(line, empty, hang, words) == filled(line + w, false, hang, rest));
        } else {
            let next = line + seq![' '] + w;
            filled_lines_fit(next, false, hang, rest);
            assert(filled(line, empty, hang, words) == filled(next, false, hang, rest));
        }
    } else {
        assert(filled(line, empty, hang, words) == seq![line]);
    }
}

// ---- what holds of every page ---------------------------------------------

/// Whether no line of a text has more characters than the margin allows.
pub open spec fn lines_fit(t: Seq<char>) -> bool {
    forall|i: int, j: int|
        0 <= i <= j <= t.len() && #[trigger] is_one_line(t, i, j) ==> j - i <= WIDTH
}

/// Whether a stretch of a text is on one line.
pub open spec fn is_one_line(t: Seq<char>, i: int, j: int) -> bool {
    forall|k: int| i <= k < j ==> #[trigger] t[k] != '\n'
}

/// Whether a text ends with a line's end, or is empty.
pub open spec fn is_whole(t: Seq<char>) -> bool {
    t.len() == 0 || t.last() == '\n'
}

proof fn whole_lines_join(a: Seq<char>, b: Seq<char>)
    requires
        lines_fit(a),
        is_whole(a),
        lines_fit(b),
        is_whole(b),
    ensures
        lines_fit(a + b),
        is_whole(a + b),
{
    let t = a + b;
    assert forall|i: int, j: int| 0 <= i <= j <= t.len() && #[trigger] is_one_line(
        t,
        i,
        j,
    ) implies j - i <= WIDTH by {
        if j <= a.len() {
            assert(is_one_line(a, i, j)) by {
                assert forall|k: int| i <= k < j implies #[trigger] a[k] != '\n' by {
                    assert(t[k] == a[k]);
                }
            }
        } else if i < a.len() {
            assert(t[a.len() - 1] == a.last());
        } else {
            assert(is_one_line(b, i - a.len(), j - a.len())) by {
                assert forall|k: int| i - a.len() <= k < j - a.len() implies #[trigger] b[k]
                    != '\n' by {
                    assert(t[k + a.len()] == b[k]);
                }
            }
        }
    }
}

proof fn trimming_shrinks(s: Seq<char>)
    ensures
        text::trimmed_end(s).len() <= s.len(),
    decreases s.len(),
{
    if s.len() > 0 {
        trimming_shrinks(s.drop_last());
    }
}

proof fn broken_lines_fit(t: Seq<char>)
    ensures
        broken(t).len() > 0,
        forall|i: int| 0 <= i < broken(t).len() ==> (#[trigger] broken(t)[i]).len() <= ROOM,
    decreases t.len(),
{
    if t.len() > ROOM {
        trimming_shrinks(t.take(ROOM as int));
        broken_lines_fit(t.skip(ROOM as int));
    }
}

proof fn printed_lines_fit(rows: Seq<RowModel>, n: nat)
    ensures
        forall|i: int|
            0 <= i < printed(rows, n, false).len() ==> (#[trigger] printed(
                rows,
                n,
                false,
            )[i]).len() <= ROOM,
    decreases n,
{
    if n > 0 {
        printed_lines_fit(rows, (n - 1) as nat);
        match rows[n - 1] {
            RowModel::Cells(cells) => broken_lines_fit(
                text::trimmed_end(cells_line(cells, rows)),
            ),
            RowModel::Text(t) => broken_lines_fit(text::trimmed_end(t)),
            RowModel::Painted(spans) => broken_lines_fit(text::trimmed_end(plain_of(spans))),
            RowModel::Swatch(_) => {},
        }
        let above = printed(rows, (n - 1) as nat, false);
        let more = row_lines(rows[n - 1], rows, above.len(), false);
        let all = printed(rows, n, false);
        assert(all == above + more);
        assert forall|i: int| 0 <= i < all.len() implies (#[trigger] all[i]).len() <= ROOM by {
            if i < above.len() {
                assert(all[i] == above[i]);
            } else {
                assert(all[i] == more[i - above.len()]);
            }
        }
    }
}

proof fn gutters_fit(key: Seq<char>, lines: Seq<Seq<char>>)
    requires
        key.len() <= GUTTER,
        forall|i: int| 0 <= i < lines.len() ==> (#[trigger] lines[i]).len() <= ROOM,
    ensures
        lines_fit(lines_text(key, lines)),
        is_whole(lines_text(key, lines)),
    decreases lines.len(),
{
    if lines.len() > 0 {
        let front = lines.drop_last();
        assert forall|i: int| 0 <= i < front.len() implies (#[trigger] front[i]).len() <= ROOM by {
            assert(front[i] == lines[i]);
        }
        gutters_fit(key, front);
        let g = gutter(key, lines.len() - 1);
        assert(g.len() == GUTTER);
        let last = g + lines.last() + seq!['\n'];
        assert(lines_fit(last)) by {
            assert forall|i: int, j: int| 0 <= i <= j <= last.len() && #[trigger] is_one_line(
                last,
                i,
                j,
            ) implies j - i <= WIDTH by {
                if j == last.len() && i < j {
                    assert(last[j - 1] == '\n');
                }
            }
        }
        whole_lines_join(lines_text(key, front), last);
        assert(lines_text(key, lines) =~= lines_text(key, front) + last);
    }
}

/// The margin is hard: no line of a report without colour has more characters
/// than it allows, whatever the sections hold.
pub proof fn every_line_fits(sections: Seq<SectionModel>)
    requires
        forall|i: int| 0 <= i < sections.len() ==> (#[trigger] sections[i]).key.len() <= GUTTER,
    ensures
        lines_fit(report_text(sections, false)),
        is_whole(report_text(sections, false)),
    decreases sections.len(),
{
    if sections.len() > 0 {
        let front = sections.drop_last();
        let s = sections.last();
        assert forall|i: int| 0 <= i < front.len() implies (#[trigger] front[i]).key.len()
            <= GUTTER by {
            assert(front[i] == sections[i]);
        }
        every_line_fits(front);
        assert(sections[sections.len() - 1].key.len() <= GUTTER);
        printed_lines_fit(s.rows, s.rows.len());
        gutters_fit(s.key, printed(s.rows, s.rows.len(), false));
        let gap = if sections.len() > 1 {
            seq!['\n']
        } else {
            Seq::empty()
        };
        assert(lines_fit(gap));
        whole_lines_join(report_text(front, false), gap);
        whole_lines_join(report_text(front, false) + gap, section_text(s, false));
    }
}

/// Whether the characters of `a` stand in `b`, in order, with others between
/// them or not.
pub open spec fn is_within(a: Seq<char>, b: Seq<char>) -> bool
    decreases b.len(),
{
    if a.len() == 0 {
        true
    } else if b.len() == 0 {
        false
    } else if a.last() == b.last() {
        is_within(a.drop_last(), b.drop_last())
    } else {
        is_within(a, b.drop_last())
    }
}

proof fn less_is_within(a: Seq<char>, b: Seq<char>)
    requires
        is_within(a, b),
        a.len() > 0,
    ensures
        is_within(a.drop_last(), b),
    decreases b.len(),
{
    let c = a.drop_last();
    let d = b.drop_last();
    if a.last() != b.last() {
        less_is_within(a, d);
    }
    if c.len() > 0 {
        less_is_within(c, d);
    }
}

proof fn is_within_more(a: Seq<char>, b: Seq<char>, c: char)
    requires
        is_within(a, b),
    ensures
        is_within(a, b.push(c)),
{
    assert(b.push(c).drop_last() =~= b);
    if a.len() > 0 && a.last() == c {
        less_is_within(a, b);
    }
}

proof fn all_is_within(a: Seq<char>)
    ensures
        is_within(a, a),
    decreases a.len(),
{
    if a.len() > 0 {
        all_is_within(a.drop_last());
    }
}

proof fn parts_are_within(a: Seq<char>, b: Seq<char>, c: Seq<char>, d: Seq<char>)
    requires
        is_within(a, b),
        is_within(c, d),
    ensures
        is_within(a + c, b + d),
    decreases d.len(),
{
    if d.len() == 0 {
        assert(a + c =~= a);
        assert(b + d =~= b);
    } else {
        let e = d.drop_last();
        assert(b + d =~= (b + e).push(d.last()));
        assert((b + d).drop_last() =~= b + e);
        if c.len() == 0 {
            parts_are_within(a, b, c, e);
            assert(a + c =~= a);
            is_within_more(a, b + e, d.last());
        } else if c.last() == d.last() {
            parts_are_within(a, b, c.drop_last(), e);
            assert((a + c).drop_last() =~= a + c.drop_last());
        } else {
            parts_are_within(a, b, c, e);
            assert((a + c).last() == c.last());
        }
    }
}

proof fn trimming_keeps_within(a: Seq<char>, b: Seq<char>)
    requires
        is_within(a, b),
    ensures
        is_within(text::trimmed_end(a), text::trimmed_end(b)),
    decreases a.len() + b.len(),
{
    if a.len() > 0 && text::is_space(a.last()) {
        less_is_within(a, b);
        trimming_keeps_within(a.drop_last(), b);
    } else if b.len() > 0 && text::is_space(b.last()) {
        trimming_keeps_within(a, b.drop_last());
    }
}

proof fn paint_adds(spans: Seq<SpanModel>)
    ensures
        is_within(plain_of(spans), painted_of(spans)),
    decreases spans.len(),
{
    if spans.len() > 0 {
        paint_adds(spans.drop_last());
        let s = spans.last();
        let none = Seq::<char>::empty();
        all_is_within(s.text);
        parts_are_within(none, s.open, s.text, s.text);
        parts_are_within(none + s.text, s.open + s.text, none, s.close);
        assert(none + s.text + none =~= s.text);
        parts_are_within(
            plain_of(spans.drop_last()),
            painted_of(spans.drop_last()),
            s.text,
            s.open + s.text + s.close,
        );
    }
}

proof fn lines_join(key: Seq<char>, a: Seq<Seq<char>>, b: Seq<Seq<char>>)
    ensures
        b.len() > 0 ==> lines_text(key, a + b) == lines_text(key, a + b.drop_last()) + gutter(
            key,
            a.len() + b.len() - 1,
        ) + b.last() + seq!['\n'],
        b.len() == 0 ==> a + b == a,
{
    if b.len() > 0 {
        assert((a + b).drop_last() =~= a + b.drop_last());
        assert((a + b).last() == b.last());
    } else {
        assert(a + b =~= a);
    }
}

/// The same lines after what is within something else.
proof fn same_lines_add(key: Seq<char>, a: Seq<Seq<char>>, b: Seq<Seq<char>>, c: Seq<Seq<char>>)
    requires
        is_within(lines_text(key, a), lines_text(key, b)),
        a.len() == 0 <==> b.len() == 0,
    ensures
        is_within(lines_text(key, a + c), lines_text(key, b + c)),
    decreases c.len(),
{
    lines_join(key, a, c);
    lines_join(key, b, c);
    if c.len() > 0 {
        same_lines_add(key, a, b, c.drop_last());
        let g = gutter(key, a.len() + c.len() - 1);
        let end = g + c.last() + seq!['\n'];
        all_is_within(end);
        parts_are_within(
            lines_text(key, a + c.drop_last()),
            lines_text(key, b + c.drop_last()),
            end,
            end,
        );
        assert(lines_text(key, a + c) =~= lines_text(key, a + c.drop_last()) + end);
        assert(lines_text(key, b + c) =~= lines_text(key, b + c.drop_last()) + end);
    }
}

proof fn colour_adds_to_rows(key: Seq<char>, rows: Seq<RowModel>, n: nat)
    ensures
        is_within(
            lines_text(key, printed(rows, n, false)),
            lines_text(key, printed(rows, n, true)),
        ),
        printed(rows, n, false).len() == 0 <==> printed(rows, n, true).len() == 0,
    decreases n,
{
    if n > 0 {
        let m = (n - 1) as nat;
        colour_adds_to_rows(key, rows, m);
        let (a, b) = (printed(rows, m, false), printed(rows, m, true));
        match rows[n - 1] {
            RowModel::Cells(cells) => {
                let c = broken(text::trimmed_end(cells_line(cells, rows)));
                broken_lines_fit(text::trimmed_end(cells_line(cells, rows)));
                same_lines_add(key, a, b, c);
            },
            RowModel::Text(t) => {
                broken_lines_fit(text::trimmed_end(t));
                same_lines_add(key, a, b, broken(text::trimmed_end(t)));
            },
            RowModel::Painted(spans) => {
                let plain = text::trimmed_end(plain_of(spans));
                broken_lines_fit(plain);
                if plain.len() <= ROOM {
                    let painted = text::trimmed_end(painted_of(spans));
                    paint_adds(spans);
                    trimming_keeps_within(plain_of(spans), painted_of(spans));
                    lines_join(key, a, seq![plain]);
                    lines_join(key, b, seq![painted]);
                    assert(seq![plain].drop_last() =~= Seq::<Seq<char>>::empty());
                    assert(seq![painted].drop_last() =~= Seq::<Seq<char>>::empty());
                    assert(a + Seq::<Seq<char>>::empty() =~= a);
                    assert(b + Seq::<Seq<char>>::empty() =~= b);
                    let g = gutter(key, a.len() as int);
                    assert(g == gutter(key, b.len() as int));
                    let end = seq!['\n'];
                    all_is_within(g);
                    all_is_within(end);
                    parts_are_within(lines_text(key, a), lines_text(key, b), g, g);
                    parts_are_within(lines_text(key, a) + g, lines_text(key, b) + g, plain, painted);
                    parts_are_within(
                        lines_text(key, a) + g + plain,
                        lines_text(key, b) + g + painted,
                        end,
                        end,
                    );
                } else {
                    same_lines_add(key, a, b, broken(plain));
                }
            },
            RowModel::Swatch(paint) => {
                assert(a + Seq::<Seq<char>>::empty() =~= a);
                assert(b + Seq::<Seq<char>>::empty() =~= b);
                if b.len() > 0 {
                    let line = text::trimmed_end(paint);
                    lines_join(key, b, seq![line]);
                    assert(seq![line].drop_last() =~= Seq::<Seq<char>>::empty());
                    let more = gutter(key, b.len() as int) + line + seq!['\n'];
                    let none = Seq::<char>::empty();
                    parts_are_within(lines_text(key, a), lines_text(key, b), none, more);
                    assert(lines_text(key, a) + none =~= lines_text(key, a));
                    assert(lines_text(key, b + seq![line]) =~= lines_text(key, b) + more);
                }
            },
        }
    }
}

/// Colour only adds: everything that a report prints without it stands in the
/// coloured report too, in the same order, whatever the sections hold.
pub proof fn colour_only_adds(sections: Seq<SectionModel>)
    ensures
        is_within(report_text(sections, false), report_text(sections, true)),
    decreases sections.len(),
{
    if sections.len() > 0 {
        let front = sections.drop_last();
        let s = sections.last();
        colour_only_adds(front);
        colour_adds_to_rows(s.key, s.rows, s.rows.len());
        let gap = if sections.len() > 1 {
            seq!['\n']
        } else {
            Seq::empty()
        };
        all_is_within(gap);
        parts_are_within(report_text(front, false), report_text(front, true), gap, gap);
        parts_are_within(
            report_text(front, false) + gap,
            report_text(front, true) + gap,
            section_text(s, false),
            section_text(s, true),
        );
    }
}

/// Two texts on one line stand at its two ends where there is room for two
/// blanks between them, and two blanks apart where there is not.
pub proof fn spread_texts_stand_at_both_ends(left: Seq<char>, right: Seq<char>)
    ensures
        ({
            let s = spread_text(left, right);
            let gap = s.len() - left.len() - right.len();
            &&& gap >= 2
            &&& left.len() + right.len() <= 67 ==> s.len() == 69
            &&& left.len() + right.len() > 67 ==> gap == 2
            &&& s.take(left.len() as int) == left && s.skip(left.len() + gap) == right
            &&& forall|i: int| left.len() <= i < left.len() + gap ==> (#[trigger] s[i]) == ' '
        }),
{
    reveal_strlit("  ");
    let s = spread_text(left, right);
    let gap = s.len() - left.len() - right.len();
    assert(s.take(left.len() as int) =~= left);
    assert(s.skip(left.len() + gap) =~= right);
}

/// A column is as wide as the longest label in it, and no wider.
pub proof fn a_column_is_as_wide_as_its_labels(rows: Seq<RowModel>, c: int)
    ensures
        forall|i: int| 0 <= i < rows.len() ==> row_width(#[trigger] rows[i], c) <= column_width(rows, c),
        column_width(rows, c) > 0 ==> exists|i: int|
            0 <= i < rows.len() && row_width(#[trigger] rows[i], c) == column_width(rows, c),
    decreases rows.len(),
{
    if rows.len() > 0 {
        let front = rows.drop_last();
        a_column_is_as_wide_as_its_labels(front, c);
        assert forall|i: int| 0 <= i < rows.len() implies row_width(#[trigger] rows[i], c)
            <= column_width(rows, c) by {
            if i < front.len() {
                assert(front[i] == rows[i]);
            }
        }
        if column_width(rows, c) == row_width(rows.last(), c) {
            assert(row_width(rows[rows.len() - 1], c) == column_width(rows, c));
        } else {
            let i = choose|i: int|
                0 <= i < front.len() && row_width(#[trigger] front[i], c) == column_width(front, c);
            assert(rows[i] == front[i]);
        }
    }
}

/// A long text is broken every 69 characters, and nothing of it is lost but
/// blanks at the ends of lines.
pub proof fn a_long_text_is_broken_at_the_margin(t: Seq<char>, k: int)
    requires
        0 <= k < broken(t).len(),
    ensures
        ({
            let from = 69 * k;
            &&& from <= t.len()
            &&& k + 1 < broken(t).len() ==> from + 69 < t.len() && broken(t)[k]
                == text::trimmed_end(t.subrange(from, from + 69))
            &&& k + 1 == broken(t).len() ==> t.len() <= from + 69 && broken(t)[k] == t.skip(from)
        }),
    decreases t.len(),
{
    if t.len() > ROOM {
        let rest = t.skip(69);
        let all = broken(t);
        assert(all == seq![text::trimmed_end(t.take(69))] + broken(rest));
        at_least_one_line(rest);
        if k > 0 {
            a_long_text_is_broken_at_the_margin(rest, k - 1);
            assert(all[k] == broken(rest)[k - 1]);
            let from = 69 * (k - 1);
            if k + 1 < all.len() {
                assert(rest.subrange(from, from + 69) =~= t.subrange(from + 69, from + 138));
            } else {
                assert(rest.skip(from) =~= t.skip(from + 69));
            }
        } else {
            assert(t.take(69) =~= t.subrange(0, 69));
        }
    } else {
        assert(t.skip(0) =~= t);
    }
}

proof fn at_least_one_line(t: Seq<char>)
    ensures
        broken(t).len() > 0,
{
}

/// The first line of a section has its key before it and the others have blanks,
/// as far as nine characters go.
pub proof fn a_key_stands_before_the_first_line(key: Seq<char>, i: int)
    requires
        key.len() <= 9,
    ensures
        gutter(key, i).len() == 9,
        i == 0 ==> gutter(key, i).take(key.len() as int) == key,
        forall|k: int|
            (if i == 0 {
                key.len() as int
            } else {
                0
            }) <= k < 9 ==> (#[trigger] gutter(key, i)[k]) == ' ',
{
    text::padding_keeps_the_text(key, 9);
    if key.len() == 9 {
        assert(key.take(9) =~= key);
    }
}

/// A word goes on the line where it still fits with a blank before it, up to 69
/// characters, and begins the next line, behind the hang, only where it does not.
pub proof fn a_word_goes_on_where_it_fits(
    line: Seq<char>,
    hang: nat,
    word: Seq<char>,
    rest: Seq<Seq<char>>,
)
    ensures
        filled(line, false, hang, Seq::empty()) == seq![line],
        line.len() + word.len() <= 68 ==> filled(line, false, hang, seq![word] + rest) == filled(
            line + seq![' '] + word,
            false,
            hang,
            rest,
        ),
        line.len() + word.len() > 68 ==> filled(line, false, hang, seq![word] + rest)
            == seq![line] + filled(text::repeated(' ', hang) + word, false, hang, rest),
        filled(line, true, hang, seq![word] + rest) == filled(line + word, false, hang, rest),
{
    let words = seq![word] + rest;
    assert(words[0] == word);
    assert(words.drop_first() =~= rest);
}

} // verus!
