//! What paint does to the page of a report: without colour there is no escape
//! on it, and with colour every line of it is still there.

use crate::layout::{
    broken, cell_text, cells_line, column_width, gutter, lines_text, painted_of, plain_of, printed,
    report_text, row_lines, section_text, CellModel, RowModel, SectionModel, SpanModel, ROOM,
};
use crate::text;
use vstd::prelude::*;

verus! {

/// The character that an escape sequence begins with.
pub const ESCAPE: char = '\u{1b}';

/// Whether a text holds no escape.
pub open spec fn clean(t: Seq<char>) -> bool {
    forall|k: int| 0 <= k < t.len() ==> #[trigger] t[k] != ESCAPE
}

/// A text with its escape sequences cut out: each goes from its escape to the
/// next `m`.
pub open spec fn cut(t: Seq<char>) -> Seq<char>
    decreases t.len(),
{
    if t.len() == 0 {
        t
    } else if t[0] == ESCAPE {
        proof {
            text::index_of_finds(t, 'm');
        }
        let i = text::index_of(t, 'm');
        if 0 <= i < t.len() {
            cut(t.skip(i + 1))
        } else {
            Seq::empty()
        }
    } else {
        seq![t[0]] + cut(t.drop_first())
    }
}

/// Whether a text is nothing but escape sequences.
pub open spec fn are_codes(t: Seq<char>) -> bool
    decreases t.len(),
{
    t.len() > 0 ==> {
        let i = text::index_of(t, 'm');
        &&& t[0] == ESCAPE
        &&& 0 <= i < t.len()
        &&& are_codes(t.skip(i + 1))
    }
}

/// One escape sequence: from an escape to the only `m`.
pub proof fn one_code(t: Seq<char>)
    requires
        t.len() > 0,
        t[0] == ESCAPE,
        t.last() == 'm',
        forall|k: int| 0 <= k < t.len() - 1 ==> #[trigger] t[k] != 'm',
    ensures
        are_codes(t),
{
    text::index_of_is(t, 'm', t.len() - 1);
    let rest = t.skip(t.len() as int);
    assert(rest.len() == 0);
    assert(are_codes(rest));
}

/// Escape sequences one after another.
pub proof fn codes_add(a: Seq<char>, b: Seq<char>)
    requires
        are_codes(a),
        are_codes(b),
    ensures
        are_codes(a + b),
    decreases a.len(),
{
    if a.len() == 0 {
        assert(a + b =~= b);
    } else {
        let i = text::index_of(a, 'm');
        text::index_of_finds(a, 'm');
        let t = a + b;
        assert forall|k: int| 0 <= k < i implies #[trigger] t[k] != 'm' by {
            assert(t[k] == a[k]);
        }
        assert(t[i] == a[i]);
        text::index_of_is(t, 'm', i);
        codes_add(a.skip(i + 1), b);
        assert(t.skip(i + 1) =~= a.skip(i + 1) + b);
    }
}

proof fn codes_end(t: Seq<char>)
    requires
        are_codes(t),
        t.len() > 0,
    ensures
        t.last() == 'm',
    decreases t.len(),
{
    let i = text::index_of(t, 'm');
    text::index_of_finds(t, 'm');
    let rest = t.skip(i + 1);
    if rest.len() > 0 {
        codes_end(rest);
        assert(rest.last() == t.last());
    }
}

/// Nothing is cut out of a text that holds no escape, whatever follows it.
pub proof fn clean_text_stays(t: Seq<char>, rest: Seq<char>)
    requires
        clean(t),
    ensures
        cut(t + rest) == t + cut(rest),
    decreases t.len(),
{
    if t.len() == 0 {
        assert(t + rest =~= rest);
        assert(t + cut(rest) =~= cut(rest));
    } else {
        let u = t.drop_first();
        assert forall|k: int| 0 <= k < u.len() implies #[trigger] u[k] != ESCAPE by {
            assert(u[k] == t[k + 1]);
        }
        clean_text_stays(u, rest);
        assert(t[0] != ESCAPE);
        assert((t + rest)[0] == t[0]);
        assert((t + rest).drop_first() =~= u + rest);
        assert(seq![t[0]] + (u + cut(rest)) =~= t + cut(rest));
    }
}

proof fn codes_go(c: Seq<char>, rest: Seq<char>)
    requires
        are_codes(c),
    ensures
        cut(c + rest) == cut(rest),
    decreases c.len(),
{
    if c.len() == 0 {
        assert(c + rest =~= rest);
    } else {
        let t = c + rest;
        let i = text::index_of(c, 'm');
        text::index_of_finds(c, 'm');
        assert(t[0] == ESCAPE);
        assert(t[i] == 'm');
        assert forall|k: int| 0 <= k < i implies #[trigger] t[k] != 'm' by {
            assert(t[k] == c[k]);
        }
        text::index_of_is(t, 'm', i);
        codes_go(c.skip(i + 1), rest);
        assert(t.skip(i + 1) =~= c.skip(i + 1) + rest);
    }
}

/// Whether stretches of text wear escape sequences, and read without any and
/// without blanks at their end.
pub open spec fn is_neat(spans: Seq<SpanModel>) -> bool {
    &&& forall|i: int|
        0 <= i < spans.len() ==> are_codes((#[trigger] spans[i]).open) && clean(spans[i].text)
            && are_codes(spans[i].close)
    &&& plain_of(spans).len() > 0 ==> !text::is_space(plain_of(spans).last())
}

proof fn paint_is_cut(spans: Seq<SpanModel>, rest: Seq<char>)
    requires
        forall|i: int|
            0 <= i < spans.len() ==> are_codes((#[trigger] spans[i]).open) && clean(spans[i].text)
                && are_codes(spans[i].close),
    ensures
        cut(painted_of(spans) + rest) == plain_of(spans) + cut(rest),
    decreases spans.len(),
{
    if spans.len() == 0 {
        assert(painted_of(spans) + rest =~= rest);
        assert(plain_of(spans) + cut(rest) =~= cut(rest));
    } else {
        let front = spans.drop_last();
        assert(are_codes(spans[spans.len() - 1].open));
        let s = spans.last();
        assert forall|i: int| 0 <= i < front.len() implies are_codes((#[trigger] front[i]).open)
            && clean(front[i].text) && are_codes(front[i].close) by {
            assert(front[i] == spans[i]);
        }
        let after = s.open + (s.text + (s.close + rest));
        paint_is_cut(front, after);
        codes_go(s.open, s.text + (s.close + rest));
        clean_text_stays(s.text, s.close + rest);
        codes_go(s.close, rest);
        assert(painted_of(spans) + rest =~= painted_of(front) + after);
        assert(plain_of(spans) + cut(rest) =~= plain_of(front) + (s.text + cut(rest)));
    }
}

/// Painted text ends in a code, or as the text does.
proof fn paint_ends(spans: Seq<SpanModel>)
    requires
        is_neat(spans),
    ensures
        painted_of(spans).len() > 0 ==> !text::is_space(painted_of(spans).last()),
    decreases spans.len(),
{
    if spans.len() > 0 {
        let front = spans.drop_last();
        assert(are_codes(spans[spans.len() - 1].open));
        let s = spans.last();
        let t = painted_of(spans);
        if s.close.len() > 0 {
            codes_end(s.close);
            assert(t.last() == s.close.last());
        } else if s.text.len() > 0 {
            assert(t.last() == s.text.last());
            assert(plain_of(spans).last() == s.text.last());
        } else if s.open.len() > 0 {
            codes_end(s.open);
            assert(t.last() == s.open.last());
        } else {
            assert(t =~= painted_of(front));
            assert(plain_of(spans) =~= plain_of(front));
            assert forall|i: int| 0 <= i < front.len() implies are_codes((#[trigger] front[i]).open)
                && clean(front[i].text) && are_codes(front[i].close) by {
                assert(front[i] == spans[i]);
            }
            paint_ends(front);
        }
    }
}

// ---- lines -----------------------------------------------------------------

/// Lines behind their gutter.
pub open spec fn full_lines(key: Seq<char>, lines: Seq<Seq<char>>) -> Seq<Seq<char>> {
    Seq::new(lines.len(), |i: int| gutter(key, i) + lines[i])
}

/// The lines of a page: those of its sections, with one that is blank between
/// them.
pub open spec fn page_lines(sections: Seq<SectionModel>, color: bool) -> Seq<Seq<char>>
    decreases sections.len(),
{
    if sections.len() == 0 {
        Seq::empty()
    } else {
        let s = sections.last();
        page_lines(sections.drop_last(), color) + (if sections.len() > 1 {
            seq![Seq::<char>::empty()]
        } else {
            Seq::empty()
        }) + full_lines(s.key, printed(s.rows, s.rows.len(), color))
    }
}

/// Lines one below the other.
pub open spec fn joined(lines: Seq<Seq<char>>) -> Seq<char>
    decreases lines.len(),
{
    if lines.len() == 0 {
        Seq::empty()
    } else {
        joined(lines.drop_last()) + lines.last() + seq!['\n']
    }
}

proof fn joined_adds(a: Seq<Seq<char>>, b: Seq<Seq<char>>)
    ensures
        joined(a + b) == joined(a) + joined(b),
    decreases b.len(),
{
    if b.len() == 0 {
        assert(a + b =~= a);
        assert(joined(a) + joined(b) =~= joined(a));
    } else {
        joined_adds(a, b.drop_last());
        assert((a + b).drop_last() =~= a + b.drop_last());
        assert((a + b).last() == b.last());
        assert(joined(a) + joined(b) =~= joined(a) + joined(b.drop_last()) + b.last() + seq!['\n']);
    }
}

proof fn section_is_its_lines(key: Seq<char>, lines: Seq<Seq<char>>)
    ensures
        lines_text(key, lines) == joined(full_lines(key, lines)),
    decreases lines.len(),
{
    let all = full_lines(key, lines);
    if lines.len() > 0 {
        section_is_its_lines(key, lines.drop_last());
        assert(all.drop_last() =~= full_lines(key, lines.drop_last()));
        assert(lines_text(key, lines) =~= joined(all.drop_last()) + all.last() + seq!['\n']);
    }
}

/// A page is its lines.
pub proof fn a_page_is_its_lines(sections: Seq<SectionModel>, color: bool)
    ensures
        report_text(sections, color) == joined(page_lines(sections, color)),
    decreases sections.len(),
{
    if sections.len() > 0 {
        let front = sections.drop_last();
        let s = sections.last();
        a_page_is_its_lines(front, color);
        let lines = printed(s.rows, s.rows.len(), color);
        section_is_its_lines(s.key, lines);
        let gap = if sections.len() > 1 {
            seq![Seq::<char>::empty()]
        } else {
            Seq::empty()
        };
        joined_adds(page_lines(front, color), gap);
        joined_adds(page_lines(front, color) + gap, full_lines(s.key, lines));
        if sections.len() > 1 {
            assert(gap.drop_last() =~= Seq::<Seq<char>>::empty());
            assert(joined(gap.drop_last()) =~= Seq::<char>::empty());
            assert(joined(gap) =~= seq!['\n']);
        } else {
            assert(joined(gap) =~= Seq::<char>::empty());
        }
    }
}

/// Lines with their escape sequences cut out.
pub open spec fn cut_lines(lines: Seq<Seq<char>>) -> Seq<Seq<char>> {
    Seq::new(lines.len(), |i: int| cut(lines[i]))
}

/// Whether the lines of `a` stand among those of `b`, whole and in order.
pub open spec fn lines_within(a: Seq<Seq<char>>, b: Seq<Seq<char>>) -> bool
    decreases b.len(),
{
    if a.len() == 0 {
        true
    } else if b.len() == 0 {
        false
    } else {
        (a.last() == b.last() && lines_within(a.drop_last(), b.drop_last())) || lines_within(
            a,
            b.drop_last(),
        )
    }
}

proof fn same_line_adds(a: Seq<Seq<char>>, b: Seq<Seq<char>>, line: Seq<char>)
    requires
        lines_within(a, b),
    ensures
        lines_within(a.push(line), b.push(line)),
{
    assert(a.push(line).drop_last() =~= a);
    assert(b.push(line).drop_last() =~= b);
}

proof fn more_lines_add(a: Seq<Seq<char>>, b: Seq<Seq<char>>, line: Seq<char>)
    requires
        lines_within(a, b),
    ensures
        lines_within(a, b.push(line)),
{
    assert(b.push(line).drop_last() =~= b);
}

proof fn pages_add(a: Seq<Seq<char>>, b: Seq<Seq<char>>, c: Seq<Seq<char>>, d: Seq<Seq<char>>)
    requires
        lines_within(a, b),
        lines_within(c, d),
    ensures
        lines_within(a + c, b + d),
    decreases d.len(),
{
    if d.len() == 0 {
        assert(a + c =~= a);
        assert(b + d =~= b);
    } else {
        let e = d.drop_last();
        assert(b + d =~= (b + e).push(d.last()));
        if c.len() == 0 {
            pages_add(a, b, c, e);
            more_lines_add(a + c, b + e, d.last());
        } else if c.last() == d.last() && lines_within(c.drop_last(), e) {
            pages_add(a, b, c.drop_last(), e);
            same_line_adds(a + c.drop_last(), b + e, d.last());
            assert(a + c =~= (a + c.drop_last()).push(c.last()));
        } else {
            pages_add(a, b, c, e);
            more_lines_add(a + c, b + e, d.last());
        }
    }
}

proof fn cut_lines_add(a: Seq<Seq<char>>, b: Seq<Seq<char>>)
    ensures
        cut_lines(a + b) == cut_lines(a) + cut_lines(b),
{
    assert(cut_lines(a + b) =~= cut_lines(a) + cut_lines(b));
}

/// Whether a row's paint is neat.
pub open spec fn wears_codes(row: RowModel) -> bool {
    row matches RowModel::Painted(spans) ==> is_neat(spans)
}

/// Lines that come after others, behind the gutter.
spec fn further(key: Seq<char>, above: nat, lines: Seq<Seq<char>>) -> Seq<Seq<char>> {
    Seq::new(lines.len(), |i: int| gutter(key, above + i) + lines[i])
}

proof fn further_lines_add(key: Seq<char>, above: Seq<Seq<char>>, lines: Seq<Seq<char>>)
    ensures
        full_lines(key, above + lines) == full_lines(key, above) + further(
            key,
            above.len(),
            lines,
        ),
{
    assert(full_lines(key, above + lines) =~= full_lines(key, above) + further(
        key,
        above.len(),
        lines,
    ));
}

proof fn all_lines_within(a: Seq<Seq<char>>)
    ensures
        lines_within(a, a),
    decreases a.len(),
{
    if a.len() > 0 {
        all_lines_within(a.drop_last());
    }
}

proof fn a_row_has_lines(t: Seq<char>)
    ensures
        broken(t).len() > 0,
{
}

proof fn rows_survive(key: Seq<char>, rows: Seq<RowModel>, n: nat)
    requires
        n <= rows.len(),
        clean(key),
        forall|i: int| 0 <= i < rows.len() ==> wears_codes(#[trigger] rows[i]),
    ensures
        lines_within(
            cut_lines(full_lines(key, printed(rows, n, false))),
            cut_lines(full_lines(key, printed(rows, n, true))),
        ),
        printed(rows, n, false).len() == 0 <==> printed(rows, n, true).len() == 0,
    decreases n,
{
    if n > 0 {
        let m = (n - 1) as nat;
        rows_survive(key, rows, m);
        let (a, b) = (printed(rows, m, false), printed(rows, m, true));
        let row = rows[n - 1];
        assert(wears_codes(rows[m as int]));
        let c = row_lines(row, rows, a.len(), false);
        let d = row_lines(row, rows, b.len(), true);
        let (fa, fb) = (full_lines(key, a), full_lines(key, b));
        let (fc, fd) = (further(key, a.len(), c), further(key, b.len(), d));
        further_lines_add(key, a, c);
        further_lines_add(key, b, d);
        cut_lines_add(fa, fc);
        cut_lines_add(fb, fd);
        match row {
            RowModel::Cells(cells) => {
                a_row_has_lines(text::trimmed_end(cells_line(cells, rows)));
                assert(fc =~= fd);
                all_lines_within(cut_lines(fc));
            },
            RowModel::Text(t) => {
                a_row_has_lines(text::trimmed_end(t));
                assert(fc =~= fd);
                all_lines_within(cut_lines(fc));
            },
            RowModel::Painted(spans) => {
                a_row_has_lines(text::trimmed_end(plain_of(spans)));
                if text::trimmed_end(plain_of(spans)).len() <= ROOM {
                    paint_ends(spans);
                    let plain = plain_of(spans);
                    let painted = painted_of(spans);
                    assert(text::trimmed_end(plain) == plain);
                    assert(text::trimmed_end(painted) == painted);
                    assert(c =~= seq![plain]);
                    assert(d =~= seq![painted]);
                    let g = gutter(key, a.len() as int);
                    assert(g == gutter(key, b.len() as int));
                    let none = Seq::<char>::empty();
                    assert(clean(g));
                    clean_text_stays(g, painted);
                    clean_text_stays(g, plain);
                    paint_is_cut(spans, none);
                    assert(painted + none =~= painted);
                    assert(plain + none =~= plain);
                    clean_spans(spans);
                    clean_text_stays(plain, none);
                    assert(fc[0] == g + plain);
                    assert(fd[0] == g + painted);
                    assert(cut_lines(fc) =~= cut_lines(fd));
                } else {
                    assert(fc =~= fd);
                }
                all_lines_within(cut_lines(fc));
            },
            RowModel::Swatch(_) => {},
        }
        pages_add(cut_lines(fa), cut_lines(fb), cut_lines(fc), cut_lines(fd));
    }
}

proof fn clean_spans(spans: Seq<SpanModel>)
    requires
        forall|i: int| 0 <= i < spans.len() ==> clean((#[trigger] spans[i]).text),
    ensures
        clean(plain_of(spans)),
    decreases spans.len(),
{
    if spans.len() > 0 {
        let front = spans.drop_last();
        assert(clean(spans[spans.len() - 1].text));
        assert forall|i: int| 0 <= i < front.len() implies clean((#[trigger] front[i]).text) by {
            assert(front[i] == spans[i]);
        }
        clean_spans(front);
    }
}

/// Whether a section's keyword holds no escape and its paint is neat.
pub open spec fn is_paintable(s: SectionModel) -> bool {
    &&& clean(s.key)
    &&& forall|i: int| 0 <= i < s.rows.len() ==> wears_codes(#[trigger] s.rows[i])
}

/// Whole lines survive colour: once the escape sequences are cut out, the lines
/// of a coloured page are those of the plain one, in the same order, with
/// others between them or not.
pub proof fn whole_lines_survive(sections: Seq<SectionModel>)
    requires
        forall|i: int| 0 <= i < sections.len() ==> is_paintable(#[trigger] sections[i]),
    ensures
        lines_within(
            cut_lines(page_lines(sections, false)),
            cut_lines(page_lines(sections, true)),
        ),
    decreases sections.len(),
{
    if sections.len() > 0 {
        let front = sections.drop_last();
        assert(is_paintable(sections[sections.len() - 1]));
        let s = sections.last();
        assert forall|i: int| 0 <= i < front.len() implies is_paintable(#[trigger] front[i]) by {
            assert(front[i] == sections[i]);
        }
        whole_lines_survive(front);
        rows_survive(s.key, s.rows, s.rows.len());
        let gap = if sections.len() > 1 {
            seq![Seq::<char>::empty()]
        } else {
            Seq::empty()
        };
        let (a, b) = (page_lines(front, false), page_lines(front, true));
        let c = full_lines(s.key, printed(s.rows, s.rows.len(), false));
        let d = full_lines(s.key, printed(s.rows, s.rows.len(), true));
        cut_lines_add(a, gap);
        cut_lines_add(b, gap);
        cut_lines_add(a + gap, c);
        cut_lines_add(b + gap, d);
        all_lines_within(cut_lines(gap));
        pages_add(cut_lines(a), cut_lines(b), cut_lines(gap), cut_lines(gap));
        pages_add(cut_lines(a + gap), cut_lines(b + gap), cut_lines(c), cut_lines(d));
    }
}

// ---- a page with colour ----------------------------------------------------

proof fn the_first_row_prints(rows: Seq<RowModel>, n: nat)
    requires
        0 < n <= rows.len(),
        rows[0] !is Swatch,
    ensures
        printed(rows, n, true).len() > 0,
    decreases n,
{
    let m = (n - 1) as nat;
    if m > 0 {
        the_first_row_prints(rows, m);
    } else {
        match rows[0] {
            RowModel::Cells(cells) => a_row_has_lines(text::trimmed_end(cells_line(cells, rows))),
            RowModel::Text(t) => a_row_has_lines(text::trimmed_end(t)),
            RowModel::Painted(spans) => a_row_has_lines(text::trimmed_end(plain_of(spans))),
            RowModel::Swatch(_) => {},
        }
        assert(printed(rows, 0, true).len() == 0);
        assert(row_lines(rows[0], rows, 0, true).len() > 0);
    }
}

/// Whether a row shows colours that are not blank.
pub open spec fn shows_colours(row: RowModel) -> bool {
    row matches RowModel::Swatch(p) && !clean(text::trimmed_end(p))
}

proof fn a_swatch_is_printed(rows: Seq<RowModel>, n: nat, k: int)
    requires
        0 < k < n <= rows.len(),
        rows[0] !is Swatch,
        shows_colours(rows[k]),
    ensures
        exists|i: int|
            0 <= i < printed(rows, n, true).len() && !clean(#[trigger] printed(rows, n, true)[i]),
    decreases n,
{
    let m = (n - 1) as nat;
    let above = printed(rows, m, true);
    let more = row_lines(rows[n - 1], rows, above.len(), true);
    let all = printed(rows, n, true);
    if k < m {
        a_swatch_is_printed(rows, m, k);
        let i = choose|i: int| 0 <= i < above.len() && !clean(#[trigger] above[i]);
        assert(all[i] == above[i]);
    } else {
        the_first_row_prints(rows, m);
        assert(more =~= seq![text::trimmed_end(rows[k]->Swatch_0)]);
        assert(all[above.len() as int] == more[0]);
    }
}

proof fn a_part_is_clean(a: Seq<char>, b: Seq<char>)
    requires
        clean(a + b),
    ensures
        clean(a),
        clean(b),
{
    let t = a + b;
    assert forall|k: int| 0 <= k < a.len() implies #[trigger] a[k] != ESCAPE by {
        assert(t[k] == a[k]);
    }
    assert forall|k: int| 0 <= k < b.len() implies #[trigger] b[k] != ESCAPE by {
        assert(t[a.len() + k] == b[k]);
    }
}

proof fn clean_lines(lines: Seq<Seq<char>>, i: int)
    requires
        clean(joined(lines)),
        0 <= i < lines.len(),
    ensures
        clean(lines[i]),
    decreases lines.len(),
{
    let front = lines.drop_last();
    a_part_is_clean(joined(front) + lines.last(), seq!['\n']);
    a_part_is_clean(joined(front), lines.last());
    if i < front.len() {
        clean_lines(front, i);
        assert(front[i] == lines[i]);
    }
}

/// A page with colour holds an escape where a section shows its colours below
/// its first row.
pub proof fn a_coloured_page_has_escapes(sections: Seq<SectionModel>, j: int, k: int)
    requires
        0 <= j < sections.len(),
        0 < k < sections[j].rows.len(),
        sections[j].rows[0] !is Swatch,
        shows_colours(sections[j].rows[k]),
    ensures
        !clean(report_text(sections, true)),
    decreases sections.len(),
{
    if clean(report_text(sections, true)) {
        let front = sections.drop_last();
        let s = sections.last();
        let gap = if sections.len() > 1 {
            seq!['\n']
        } else {
            Seq::empty()
        };
        a_part_is_clean(report_text(front, true) + gap, section_text(s, true));
        a_part_is_clean(report_text(front, true), gap);
        if j < front.len() {
            assert(front[j] == sections[j]);
            a_coloured_page_has_escapes(front, j, k);
        } else {
            a_swatch_is_printed(s.rows, s.rows.len(), k);
            let lines = printed(s.rows, s.rows.len(), true);
            let i = choose|i: int| 0 <= i < lines.len() && !clean(#[trigger] lines[i]);
            section_is_its_lines(s.key, lines);
            clean_lines(full_lines(s.key, lines), i);
            a_part_is_clean(gutter(s.key, i), lines[i]);
        }
    }
}

// ---- a page without colour -------------------------------------------------

/// Whether a row's text holds no escape.
pub open spec fn is_clean_row(row: RowModel) -> bool {
    match row {
        RowModel::Cells(cells) => forall|i: int|
            0 <= i < cells.len() ==> clean((#[trigger] cells[i]).label) && clean(cells[i].value),
        RowModel::Text(t) => clean(t),
        RowModel::Painted(spans) => forall|i: int|
            0 <= i < spans.len() ==> clean((#[trigger] spans[i]).text),
        RowModel::Swatch(_) => true,
    }
}

/// Whether nothing that a section says holds an escape.
pub open spec fn is_clean_section(s: SectionModel) -> bool {
    &&& clean(s.key)
    &&& forall|i: int| 0 <= i < s.rows.len() ==> is_clean_row(#[trigger] s.rows[i])
}

proof fn trimming_keeps_clean(t: Seq<char>)
    requires
        clean(t),
    ensures
        clean(text::trimmed_end(t)),
    decreases t.len(),
{
    if t.len() > 0 && text::is_space(t.last()) {
        let u = t.drop_last();
        assert forall|k: int| 0 <= k < u.len() implies #[trigger] u[k] != ESCAPE by {
            assert(u[k] == t[k]);
        }
        trimming_keeps_clean(u);
    }
}

proof fn breaking_keeps_clean(t: Seq<char>)
    requires
        clean(t),
    ensures
        forall|i: int| 0 <= i < broken(t).len() ==> clean(#[trigger] broken(t)[i]),
    decreases t.len(),
{
    if t.len() > ROOM {
        let a = t.take(ROOM as int);
        let b = t.skip(ROOM as int);
        assert(clean(a)) by {
            assert forall|k: int| 0 <= k < a.len() implies #[trigger] a[k] != ESCAPE by {
                assert(a[k] == t[k]);
            }
        }
        assert(clean(b)) by {
            assert forall|k: int| 0 <= k < b.len() implies #[trigger] b[k] != ESCAPE by {
                assert(b[k] == t[k + ROOM]);
            }
        }
        trimming_keeps_clean(a);
        breaking_keeps_clean(b);
        let all = broken(t);
        assert forall|i: int| 0 <= i < all.len() implies clean(#[trigger] all[i]) by {
            if i > 0 {
                assert(all[i] == broken(b)[i - 1]);
            }
        }
    }
}

proof fn cells_keep_clean(cells: Seq<CellModel>, rows: Seq<RowModel>)
    requires
        forall|i: int|
            0 <= i < cells.len() ==> clean((#[trigger] cells[i]).label) && clean(cells[i].value),
    ensures
        clean(cells_line(cells, rows)),
    decreases cells.len(),
{
    if cells.len() > 0 {
        let front = cells.drop_last();
        assert(clean(cells[cells.len() - 1].label));
        assert forall|i: int| 0 <= i < front.len() implies clean((#[trigger] front[i]).label)
            && clean(front[i].value) by {
            assert(front[i] == cells[i]);
        }
        cells_keep_clean(front, rows);
        reveal_strlit("   ");
        reveal_strlit("  ");
        let c = cells.len() - 1;
        let cell = cells.last();
        let label = text::padded_right(cell.label, column_width(rows, c));
        assert(clean(label));
        assert(clean(cell_text(cell, rows, c)));
    }
}

proof fn printed_lines_are_clean(rows: Seq<RowModel>, n: nat)
    requires
        n <= rows.len(),
        forall|i: int| 0 <= i < rows.len() ==> is_clean_row(#[trigger] rows[i]),
    ensures
        forall|i: int|
            0 <= i < printed(rows, n, false).len() ==> clean(#[trigger] printed(rows, n, false)[i]),
    decreases n,
{
    if n > 0 {
        let m = (n - 1) as nat;
        printed_lines_are_clean(rows, m);
        assert(is_clean_row(rows[m as int]));
        match rows[n - 1] {
            RowModel::Cells(cells) => {
                cells_keep_clean(cells, rows);
                trimming_keeps_clean(cells_line(cells, rows));
                breaking_keeps_clean(text::trimmed_end(cells_line(cells, rows)));
            },
            RowModel::Text(t) => {
                trimming_keeps_clean(t);
                breaking_keeps_clean(text::trimmed_end(t));
            },
            RowModel::Painted(spans) => {
                clean_spans(spans);
                trimming_keeps_clean(plain_of(spans));
                breaking_keeps_clean(text::trimmed_end(plain_of(spans)));
            },
            RowModel::Swatch(_) => {},
        }
        let above = printed(rows, m, false);
        let more = row_lines(rows[n - 1], rows, above.len(), false);
        let all = printed(rows, n, false);
        assert forall|i: int| 0 <= i < all.len() implies clean(#[trigger] all[i]) by {
            if i < above.len() {
                assert(all[i] == above[i]);
            } else {
                assert(all[i] == more[i - above.len()]);
            }
        }
    }
}

/// A page without colour holds no escape, and nothing would be cut out of its
/// lines, as long as nothing that it says holds one.
pub proof fn a_plain_page_has_no_escape(sections: Seq<SectionModel>)
    requires
        forall|i: int| 0 <= i < sections.len() ==> is_clean_section(#[trigger] sections[i]),
    ensures
        clean(report_text(sections, false)),
        cut_lines(page_lines(sections, false)) == page_lines(sections, false),
    decreases sections.len(),
{
    if sections.len() > 0 {
        let front = sections.drop_last();
        assert(is_clean_section(sections[sections.len() - 1]));
        let s = sections.last();
        assert forall|i: int| 0 <= i < front.len() implies is_clean_section(#[trigger] front[i]) by {
            assert(front[i] == sections[i]);
        }
        a_plain_page_has_no_escape(front);
        let lines = printed(s.rows, s.rows.len(), false);
        printed_lines_are_clean(s.rows, s.rows.len());
        let all = full_lines(s.key, lines);
        assert forall|i: int| 0 <= i < all.len() implies clean(#[trigger] all[i]) && cut(all[i])
            == all[i] by {
            assert(clean(lines[i]));
            assert(clean(gutter(s.key, i)));
            clean_text_stays(all[i], Seq::empty());
            assert(all[i] + Seq::<char>::empty() =~= all[i]);
        }
        section_is_its_lines(s.key, lines);
        joined_is_clean(all);
        assert(cut_lines(all) =~= all);
        let gap = if sections.len() > 1 {
            seq![Seq::<char>::empty()]
        } else {
            Seq::empty()
        };
        assert(cut_lines(gap) =~= gap);
        cut_lines_add(page_lines(front, false), gap);
        cut_lines_add(page_lines(front, false) + gap, all);
        assert(clean(section_text(s, false)));
    } else {
        assert(cut_lines(page_lines(sections, false)) =~= page_lines(sections, false));
    }
}

proof fn joined_is_clean(lines: Seq<Seq<char>>)
    requires
        forall|i: int| 0 <= i < lines.len() ==> clean(#[trigger] lines[i]),
    ensures
        clean(joined(lines)),
    decreases lines.len(),
{
    if lines.len() > 0 {
        let front = lines.drop_last();
        assert(clean(lines[lines.len() - 1]));
        assert forall|i: int| 0 <= i < front.len() implies clean(#[trigger] front[i]) by {
            assert(front[i] == lines[i]);
        }
        joined_is_clean(front);
    }
}

} // verus!
