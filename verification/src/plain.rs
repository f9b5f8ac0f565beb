//! What keeps a report free of escapes: texts, cells, notes and sections that
//! hold none, and how each is made of others.

use crate::info::NoteModel;
use crate::layout;
use crate::layout::{CellModel, SectionModel, SpanModel, ROOM};
use crate::num;
use crate::paint::{are_codes, clean, codes_add, is_clean_section, is_neat, is_paintable, one_code, ESCAPE};
use crate::quantity;
use crate::quantity::{Color, Point};
use crate::text;
use vstd::prelude::*;

verus! {

/// Whether a text holds no escape.
#[verifier::opaque]
pub open spec fn plain(t: Seq<char>) -> bool {
    clean(t)
}

/// Whether none of these texts holds an escape.
#[verifier::opaque]
pub open spec fn all_plain(ts: Seq<Seq<char>>) -> bool {
    forall|i: int| 0 <= i < ts.len() ==> plain(#[trigger] ts[i])
}

/// Whether a cell holds no escape.
#[verifier::opaque]
pub open spec fn plain_cell(c: CellModel) -> bool {
    plain(c.label) && plain(c.value)
}

/// Whether none of these notes holds an escape.
#[verifier::opaque]
pub open spec fn plain_notes(notes: Seq<NoteModel>) -> bool {
    forall|i: int| 0 <= i < notes.len() ==> plain((#[trigger] notes[i]).tag) && plain(notes[i].text)
}

/// Whether a section says nothing with an escape in it, and wears its paint
/// neatly.
#[verifier::opaque]
pub open spec fn plain_section(s: SectionModel) -> bool {
    is_clean_section(s) && is_paintable(s)
}

// ---- texts -----------------------------------------------------------------

pub broadcast proof fn plain_add(a: Seq<char>, b: Seq<char>)
    requires
        plain(a),
        plain(b),
    ensures
        #[trigger] plain(a + b),
{
    reveal(plain);
}

pub broadcast proof fn plain_empty()
    ensures
        #[trigger] plain(Seq::<char>::empty()),
{
    reveal(plain);
}

/// The characters of a number in decimal are digits.
pub proof fn digits_are_digits(n: nat)
    ensures
        text::decimal(n).len() > 0,
        forall|k: int| 0 <= k < text::decimal(n).len() ==> '0' <= #[trigger] text::decimal(n)[k] <= '9',
    decreases n,
{
    if n >= 10 {
        digits_are_digits(n / 10);
    }
}

proof fn padded_digits_are_digits(n: nat, width: nat)
    ensures
        text::digits_padded(n, width).len() == width,
        forall|k: int|
            0 <= k < width ==> '0' <= #[trigger] text::digits_padded(n, width)[k] <= '9',
    decreases width,
{
    if width > 0 {
        padded_digits_are_digits(n / 10, (width - 1) as nat);
    }
}

pub broadcast proof fn plain_decimal(n: nat)
    ensures
        #[trigger] plain(text::decimal(n)),
{
    reveal(plain);
    digits_are_digits(n);
}

/// A quotient in decimal ends in a digit.
proof fn ratio_ends(num: nat, den: nat, decimals: nat)
    ensures
        plain(text::ratio_text(num, den, decimals)),
        text::ratio_text(num, den, decimals).len() > 0,
        '0' <= text::ratio_text(num, den, decimals).last() <= '9',
{
    reveal(plain);
    let units = text::round_half_even(num * text::pow10(decimals), den);
    digits_are_digits(units);
    digits_are_digits(units / text::pow10(decimals));
    padded_digits_are_digits(units, decimals);
}

pub broadcast proof fn plain_ratio(num: nat, den: nat, decimals: nat)
    ensures
        #[trigger] plain(text::ratio_text(num, den, decimals)),
{
    ratio_ends(num, den, decimals);
}

pub broadcast proof fn plain_signed_ratio(v: int, den: nat, decimals: nat)
    ensures
        #[trigger] plain(text::signed_ratio_text(v, den, decimals)),
{
    ratio_ends(text::magnitude_of(v), den, decimals);
    reveal(plain);
}

/// A number ends in a digit.
pub proof fn a_number_ends(v: int, decimals: nat)
    ensures
        plain(quantity::plain_text(v, decimals)),
        quantity::plain_text(v, decimals).len() > 0,
        '0' <= quantity::plain_text(v, decimals).last() <= '9',
{
    let f = num::single(text::magnitude_of(v), crate::offline::UNIT as nat);
    ratio_ends(f.0, f.1, decimals);
    reveal(plain);
}

pub broadcast proof fn plain_number(v: int, decimals: nat)
    ensures
        #[trigger] plain(quantity::plain_text(v, decimals)),
{
    a_number_ends(v, decimals);
}

pub broadcast proof fn plain_padded_left(t: Seq<char>, width: nat)
    requires
        plain(t),
    ensures
        #[trigger] plain(text::padded_left(t, width)),
{
    reveal(plain);
}

pub broadcast proof fn plain_padded_right(t: Seq<char>, width: nat)
    requires
        plain(t),
    ensures
        #[trigger] plain(text::padded_right(t, width)),
{
    reveal(plain);
}

pub broadcast proof fn plain_fixed(v: int, decimals: nat, width: nat)
    ensures
        #[trigger] plain(quantity::fixed_text(v, decimals, width)),
{
    plain_number(v, decimals);
    plain_padded_left(quantity::plain_text(v, decimals), width);
}

pub broadcast proof fn plain_point(p: Point)
    ensures
        #[trigger] plain(quantity::point_text(p)),
{
    plain_fixed(p.x as int, 3, 6);
    plain_fixed(p.y as int, 3, 6);
    plain_fixed(p.z as int, 3, 6);
    reveal_strlit("(");
    reveal_strlit(", ");
    reveal_strlit(")");
    reveal(plain);
}

pub broadcast proof fn plain_degrees(radians: int, decimals: nat, width: nat)
    ensures
        #[trigger] plain(quantity::degrees_text(radians, decimals, width)),
{
    let t = text::signed_ratio_text(
        quantity::degrees_of(radians),
        quantity::DEGREE_UNIT as nat,
        decimals,
    );
    plain_signed_ratio(
        quantity::degrees_of(radians),
        quantity::DEGREE_UNIT as nat,
        decimals,
    );
    plain_padded_left(t, width);
}

pub broadcast proof fn plain_angle(radians: int)
    ensures
        #[trigger] plain(quantity::angle_text(radians)),
{
    let r = quantity::snapped(radians, 50_000);
    plain_fixed(r, 4, 8);
    plain_degrees(r, 1, 6);
    reveal_strlit(" rad (");
    reveal_strlit("\u{b0})");
    reveal(plain);
}

pub broadcast proof fn plain_magnitude(n: nat)
    ensures
        #[trigger] plain(quantity::magnitude_text(n)),
{
    let f = num::nearest(num::held(n, num::DOUBLE as nat), 1_000_000, num::DOUBLE as nat);
    plain_ratio(f.0, f.1, 1);
    plain_decimal(n / 1000);
    plain_decimal(n);
    reveal_strlit("M");
    reveal_strlit("k");
    reveal(plain);
}

pub broadcast proof fn plain_count(n: nat)
    ensures
        #[trigger] plain(quantity::count_text(n)),
{
    plain_decimal(n);
    plain_padded_left(text::decimal(n), 8);
}

pub broadcast proof fn plain_optional(v: Option<i64>)
    ensures
        #[trigger] plain(quantity::optional_text(v)),
{
    match v {
        Some(x) => plain_fixed(x as int, 2, 8),
        None => {
            reveal_strlit("unset");
            assert(plain("unset"@)) by {
                reveal(plain);
            }
            plain_padded_left("unset"@, 8);
        },
    }
}

pub broadcast proof fn plain_spread(left: Seq<char>, right: Seq<char>)
    requires
        plain(left),
        plain(right),
    ensures
        #[trigger] plain(layout::spread_text(left, right)),
{
    reveal_strlit("  ");
    reveal(plain);
}

pub broadcast proof fn plain_joined(parts: Seq<Seq<char>>, sep: Seq<char>)
    requires
        all_plain(parts),
        plain(sep),
    ensures
        #[trigger] plain(text::joined(parts, sep)),
    decreases parts.len(),
{
    reveal(all_plain);
    if parts.len() == 0 {
        assert(plain(Seq::<char>::empty())) by {
            reveal(plain);
        }
    } else if parts.len() > 1 {
        let front = parts.drop_last();
        assert forall|i: int| 0 <= i < front.len() implies plain(#[trigger] front[i]) by {
            assert(front[i] == parts[i]);
        }
        plain_joined(front, sep);
        assert(plain(parts[parts.len() - 1]));
        plain_add(text::joined(front, sep), sep);
        plain_add(text::joined(front, sep) + sep, parts.last());
    } else {
        assert(plain(parts[0]));
    }
}

// ---- words and lines -------------------------------------------------------

proof fn a_word_ends_within(t: Seq<char>)
    ensures
        0 <= text::word_end(t) <= t.len(),
        t.len() > 0 && !text::is_space(t[0]) ==> text::word_end(t) > 0,
    decreases t.len(),
{
    if t.len() > 0 && !text::is_space(t[0]) {
        a_word_ends_within(t.drop_first());
    }
}

/// The start and the rest of a text without escapes hold none.
pub proof fn pieces_are_plain(t: Seq<char>, n: int)
    requires
        plain(t),
        0 <= n <= t.len(),
    ensures
        plain(t.take(n)),
        plain(t.skip(n)),
{
    reveal(plain);
    let (a, b) = (t.take(n), t.skip(n));
    assert forall|k: int| 0 <= k < a.len() implies #[trigger] a[k] != ESCAPE by {
        assert(a[k] == t[k]);
    }
    assert forall|k: int| 0 <= k < b.len() implies #[trigger] b[k] != ESCAPE by {
        assert(b[k] == t[k + n]);
    }
}

proof fn trimming_keeps_plain(t: Seq<char>)
    requires
        plain(t),
    ensures
        plain(text::trimmed_start(t)),
        text::trimmed_start(t).len() <= t.len(),
        text::trimmed_start(t).len() > 0 ==> !text::is_space(text::trimmed_start(t)[0]),
    decreases t.len(),
{
    if t.len() > 0 && text::is_space(t[0]) {
        pieces_are_plain(t, 1);
        assert(t.drop_first() =~= t.skip(1));
        trimming_keeps_plain(t.drop_first());
    }
}

proof fn words_are_plain(s: Seq<char>)
    requires
        plain(s),
    ensures
        all_plain(text::words(s)),
    decreases s.len(),
{
    reveal(all_plain);
    trimming_keeps_plain(s);
    let t = text::trimmed_start(s);
    if t.len() > 0 {
        a_word_ends_within(t);
        let e = text::word_end(t);
        pieces_are_plain(t, e);
        words_are_plain(t.skip(e));
        let (all, rest) = (text::words(s), text::words(t.skip(e)));
        assert(all == seq![t.take(e)] + rest);
        assert forall|i: int| 0 <= i < all.len() implies plain(#[trigger] all[i]) by {
            if i > 0 {
                assert(all[i] == rest[i - 1]);
            }
        }
    }
}

proof fn filling_is_plain(line: Seq<char>, empty: bool, hang: nat, words: Seq<Seq<char>>)
    requires
        plain(line),
        all_plain(words),
    ensures
        all_plain(layout::filled(line, empty, hang, words)),
    decreases words.len(),
{
    reveal(all_plain);
    if words.len() > 0 {
        let rest = words.drop_first();
        assert forall|i: int| 0 <= i < rest.len() implies plain(#[trigger] rest[i]) by {
            assert(rest[i] == words[i + 1]);
        }
        let word = words[0];
        assert(plain(word));
        if !empty && line.len() + 1 + word.len() > ROOM {
            let next = text::repeated(' ', hang) + word;
            assert(plain(next)) by {
                reveal(plain);
            }
            filling_is_plain(next, false, hang, rest);
            let (all, more) = (
                layout::filled(line, empty, hang, words),
                layout::filled(next, false, hang, rest),
            );
            assert(all == seq![line] + more);
            assert forall|i: int| 0 <= i < all.len() implies plain(#[trigger] all[i]) by {
                if i > 0 {
                    assert(all[i] == more[i - 1]);
                }
            }
        } else if empty {
            plain_add(line, word);
            filling_is_plain(line + word, false, hang, rest);
        } else {
            assert(plain(line + seq![' '] + word)) by {
                reveal(plain);
            }
            filling_is_plain(line + seq![' '] + word, false, hang, rest);
        }
    }
}

pub broadcast proof fn plain_wrapped(first: Seq<char>, hang: nat, t: Seq<char>)
    requires
        plain(first),
        plain(t),
    ensures
        #[trigger] all_plain(layout::wrapped(first, hang, t)),
{
    words_are_plain(t);
    filling_is_plain(first, true, hang, text::words(t));
}

pub broadcast proof fn all_plain_none()
    ensures
        #[trigger] all_plain(Seq::<Seq<char>>::empty()),
{
    reveal(all_plain);
}

pub broadcast proof fn all_plain_add(a: Seq<Seq<char>>, b: Seq<Seq<char>>)
    requires
        all_plain(a),
        all_plain(b),
    ensures
        #[trigger] all_plain(a + b),
{
    reveal(all_plain);
}

pub broadcast proof fn all_plain_push(a: Seq<Seq<char>>, t: Seq<char>)
    requires
        all_plain(a),
        plain(t),
    ensures
        #[trigger] all_plain(a.push(t)),
{
    reveal(all_plain);
}

// ---- notes -----------------------------------------------------------------

pub broadcast proof fn plain_note(tag: Seq<char>, t: Seq<char>)
    requires
        plain(tag),
        plain(t),
    ensures
        #[trigger] plain_notes(crate::info::note(tag, t)),
{
    reveal(plain_notes);
}

pub broadcast proof fn plain_no_notes()
    ensures
        #[trigger] plain_notes(crate::info::no_notes()),
{
    reveal(plain_notes);
}

pub broadcast proof fn plain_notes_add(a: Seq<NoteModel>, b: Seq<NoteModel>)
    requires
        plain_notes(a),
        plain_notes(b),
    ensures
        #[trigger] plain_notes(a + b),
{
    reveal(plain_notes);
}

// ---- cells and rows --------------------------------------------------------

pub broadcast proof fn plain_labelled(label: Seq<char>, value: Seq<char>)
    requires
        plain(label),
        plain(value),
    ensures
        #[trigger] plain_cell(layout::labelled(label, value)),
{
    reveal(plain_cell);
}

pub broadcast proof fn plain_unlabelled(value: Seq<char>)
    requires
        plain(value),
    ensures
        #[trigger] plain_cell(layout::unlabelled(value)),
{
    reveal(plain_cell);
    assert(plain(Seq::<char>::empty())) by {
            reveal(plain);
        }
}

pub broadcast proof fn plain_remark(value: Seq<char>)
    requires
        plain(value),
    ensures
        #[trigger] plain_cell(layout::remark(value)),
{
    reveal(plain_cell);
    assert(plain(Seq::<char>::empty())) by {
            reveal(plain);
        }
}

pub broadcast proof fn plain_keyword(key: Seq<char>)
    requires
        plain(key),
    ensures
        #[trigger] plain_section(layout::section(key)),
{
    reveal(plain);
    reveal(plain_section);
}

pub broadcast proof fn plain_with_text(s: SectionModel, t: Seq<char>)
    requires
        plain_section(s),
        plain(t),
    ensures
        #[trigger] plain_section(s.text(t)),
{
    reveal(plain);
    reveal(plain_section);
}

pub broadcast proof fn plain_with_texts(s: SectionModel, ts: Seq<Seq<char>>)
    requires
        plain_section(s),
        all_plain(ts),
    ensures
        #[trigger] plain_section(s.texts(ts)),
    decreases ts.len(),
{
    reveal(all_plain);
    if ts.len() > 0 {
        let front = ts.drop_last();
        assert forall|i: int| 0 <= i < front.len() implies plain(#[trigger] front[i]) by {
            assert(front[i] == ts[i]);
        }
        assert(plain(ts[ts.len() - 1]));
        plain_with_texts(s, front);
        plain_with_text(s.texts(front), ts.last());
    }
}

proof fn cells_are_plain(s: SectionModel, cells: Seq<CellModel>)
    requires
        plain_section(s),
        forall|i: int| 0 <= i < cells.len() ==> plain_cell(#[trigger] cells[i]),
    ensures
        plain_section(s.cells(cells)),
{
    reveal(plain_section);
    assert forall|i: int| 0 <= i < cells.len() implies clean((#[trigger] cells[i]).label) && clean(
        cells[i].value,
    ) by {
        assert(plain_cell(cells[i]));
        reveal(plain);
        reveal(plain_cell);
    }
}

pub broadcast proof fn plain_with_pair(s: SectionModel, label: Seq<char>, value: Seq<char>)
    requires
        plain_section(s),
        plain(label),
        plain(value),
    ensures
        #[trigger] plain_section(s.pair(label, value)),
{
    plain_labelled(label, value);
    cells_are_plain(s, seq![layout::labelled(label, value)]);
}

pub broadcast proof fn plain_with_two(s: SectionModel, a: CellModel, b: CellModel)
    requires
        plain_section(s),
        plain_cell(a),
        plain_cell(b),
    ensures
        #[trigger] plain_section(s.two(a, b)),
{
    cells_are_plain(s, seq![a, b]);
}

pub broadcast proof fn plain_with_three(s: SectionModel, a: CellModel, b: CellModel, c: CellModel)
    requires
        plain_section(s),
        plain_cell(a),
        plain_cell(b),
        plain_cell(c),
    ensures
        #[trigger] plain_section(s.three(a, b, c)),
{
    cells_are_plain(s, seq![a, b, c]);
}

pub broadcast proof fn plain_with_swatch(s: SectionModel, paint: Seq<char>)
    requires
        plain_section(s),
    ensures
        #[trigger] plain_section(s.swatch(paint)),
{
    reveal(plain_section);
}

// ---- paint -----------------------------------------------------------------

/// Whether a stretch of text wears escape sequences and says nothing with an
/// escape in it.
pub open spec fn is_neat_span(s: SpanModel) -> bool {
    are_codes(s.open) && plain(s.text) && are_codes(s.close)
}

/// Neat stretches of text, the last of which ends in something to see, are a
/// neat row.
pub proof fn a_neat_row(s: SectionModel, spans: Seq<SpanModel>)
    requires
        plain_section(s),
        spans.len() > 0,
        forall|i: int| 0 <= i < spans.len() ==> is_neat_span(#[trigger] spans[i]),
        spans.last().text.len() > 0,
        !text::is_space(spans.last().text.last()),
    ensures
        plain_section(s.painted(spans)),
{
    reveal(plain_section);
    assert forall|i: int| 0 <= i < spans.len() implies are_codes((#[trigger] spans[i]).open)
        && clean(spans[i].text) && are_codes(spans[i].close) by {
        assert(is_neat_span(spans[i]));
        reveal(plain);
    }
    assert(layout::plain_of(spans).last() == spans.last().text.last());
    assert(is_neat(spans));
}

/// Text without paint is neat.
pub proof fn unpainted_is_neat(t: Seq<char>)
    requires
        plain(t),
    ensures
        is_neat_span(layout::unpainted(t)),
{
}

proof fn a_color_is_a_code(head: Seq<char>, a: nat, b: nat, c: nat)
    requires
        head.len() > 0,
        head[0] == ESCAPE,
        forall|k: int| 0 <= k < head.len() ==> #[trigger] head[k] != 'm',
    ensures
        are_codes(
            head + text::decimal(a) + ";"@ + text::decimal(b) + ";"@ + text::decimal(c) + "m"@,
        ),
{
    reveal_strlit(";");
    reveal_strlit("m");
    digits_are_digits(a);
    digits_are_digits(b);
    digits_are_digits(c);
    let t = head + text::decimal(a) + ";"@ + text::decimal(b) + ";"@ + text::decimal(c);
    assert(forall|k: int| 0 <= k < t.len() ==> #[trigger] t[k] != 'm');
    let whole = t + "m"@;
    assert forall|k: int| 0 <= k < whole.len() - 1 implies #[trigger] whole[k] != 'm' by {
        assert(whole[k] == t[k]);
    }
    one_code(whole);
}

/// A tint is escape sequences.
proof fn a_tint_is_codes(c: Color)
    ensures
        are_codes(quantity::tint_text(c)),
{
    reveal_strlit("\u{1b}[48;2;");
    reveal_strlit("\u{1b}[38;2;");
    let ink = quantity::ink_of(c);
    a_color_is_a_code("\u{1b}[48;2;"@, c.red as nat, c.green as nat, c.blue as nat);
    a_color_is_a_code("\u{1b}[38;2;"@, ink, ink, ink);
    let i = text::decimal(ink);
    let second = "\u{1b}[38;2;"@ + i + ";"@ + i + ";"@ + i + "m"@;
    codes_add(quantity::paint_text(c), second);
    assert(quantity::tint_text(c) =~= quantity::paint_text(c) + second);
}

/// A colour by its name is neat, and ends in something to see.
pub proof fn tinted_is_neat(c: Color)
    ensures
        is_neat_span(crate::info::tinted(c)),
        crate::info::tinted(c).text.len() > 0,
        !text::is_space(crate::info::tinted(c).text.last()),
{
    a_tint_is_codes(c);
    reveal_strlit("\u{1b}[0m");
    one_code("\u{1b}[0m"@);
    reveal_strlit("#");
    reveal(plain);
}

pub broadcast group group_plain {
    plain_add,
    plain_empty,
    plain_decimal,
    plain_ratio,
    plain_signed_ratio,
    plain_number,
    plain_padded_left,
    plain_padded_right,
    plain_fixed,
    plain_point,
    plain_degrees,
    plain_angle,
    plain_magnitude,
    plain_count,
    plain_optional,
    plain_spread,
    plain_joined,
    plain_wrapped,
    all_plain_none,
    all_plain_add,
    all_plain_push,
    plain_note,
    plain_no_notes,
    plain_notes_add,
    plain_labelled,
    plain_unlabelled,
    plain_remark,
    plain_keyword,
    plain_with_text,
    plain_with_texts,
    plain_with_pair,
    plain_with_two,
    plain_with_three,
    plain_with_swatch,
}

} // verus!
