//! Reading gradients written by other tools.
//!
//! Two text formats hold them: one lists named gradients of packed colours at
//! whole positions, the other is a markup element with a run of hex digits.

use super::def;
use super::def::PaletteDef;
use super::{Ink, Palette, PaletteModel, Stop};
use crate::filename;
use crate::number;
use crate::offline::UNIT;
use crate::text;
use vstd::prelude::*;

verus! {

// ---- stops from positions --------------------------------------------------

/// Stops without any at a position where one stands already.
pub open spec fn deduped(s: Seq<Stop>) -> Seq<Stop>
    decreases s.len(),
{
    if s.len() == 0 {
        s
    } else {
        let t = deduped(s.drop_last());
        if t.len() > 0 && t.last().at == s.last().at {
            t
        } else {
            t.push(s.last())
        }
    }
}

/// Where a position that is a whole number lies on a gradient, so many units
/// to a step, and not past the end.
pub open spec fn placed(at: i64, step: int) -> i64 {
    if at * step > UNIT {
        UNIT as i64
    } else {
        (at * step) as i64
    }
}

/// Stops at whole positions, on the gradient.
pub open spec fn scaled(s: Seq<Stop>, step: int) -> Seq<Stop> {
    Seq::new(s.len(), |i: int| Stop { at: placed(s[i].at, step), color: s[i].color })
}

/// The gradient of stops at whole positions, under a name.
pub open spec fn gradient(s: Seq<Stop>, step: int, name: Seq<char>) -> PaletteModel {
    PaletteModel {
        name: Some(name),
        ..super::plain(super::BodyModel::Stops(super::sorted(scaled(s, step))))
    }
}

/// A position that a file can give.
pub open spec fn whole_positions(s: Seq<Stop>) -> bool {
    forall|i: int| 0 <= i < s.len() ==> 0 <= (#[trigger] s[i]).at <= u32::MAX
}

/// Being in order does not change which positions there are.
proof fn inserted_keeps_positions(s: Seq<Stop>, x: Stop)
    requires
        whole_positions(s),
        0 <= x.at <= u32::MAX,
    ensures
        whole_positions(super::inserted(s, x)),
    decreases s.len(),
{
    if !(s.len() == 0 || s.last().at <= x.at) {
        assert(0 <= s[s.len() - 1].at <= u32::MAX);
        assert(whole_positions(s.drop_last())) by {
            assert forall|i: int| 0 <= i < s.len() - 1 implies 0 <= (#[trigger] s.drop_last()[i]).at
                <= u32::MAX by {
                assert(s.drop_last()[i] == s[i]);
            }
        }
        inserted_keeps_positions(s.drop_last(), x);
    }
}

proof fn sorted_keeps_positions(s: Seq<Stop>)
    requires
        whole_positions(s),
    ensures
        whole_positions(super::sorted(s)),
    decreases s.len(),
{
    if s.len() > 0 {
        assert(0 <= s[s.len() - 1].at <= u32::MAX);
        assert(whole_positions(s.drop_last())) by {
            assert forall|i: int| 0 <= i < s.len() - 1 implies 0 <= (#[trigger] s.drop_last()[i]).at
                <= u32::MAX by {
                assert(s.drop_last()[i] == s[i]);
            }
        }
        sorted_keeps_positions(s.drop_last());
        inserted_keeps_positions(super::sorted(s.drop_last()), s.last());
    }
}

fn dedup(s: &Vec<Stop>) -> (r: Vec<Stop>)
    requires
        whole_positions(s@),
    ensures
        r@ == deduped(s@),
        whole_positions(r@),
        s@.len() > 0 ==> r@.len() > 0,
{
    let mut r: Vec<Stop> = Vec::new();
    let mut i: usize = 0;
    assert(s@.take(0) =~= Seq::empty());
    while i < s.len()
        invariant
            i <= s@.len(),
            whole_positions(s@),
            whole_positions(r@),
            i > 0 ==> r@.len() > 0,
            r@ == deduped(s@.take(i as int)),
        decreases s@.len() - i,
    {
        assert(s@.take(i + 1).drop_last() =~= s@.take(i as int));
        assert(s@.take(i + 1).last() == s@[i as int]);
        assert(0 <= s@[i as int].at <= u32::MAX);
        let n: usize = r.len();
        if !(n > 0 && r[n - 1].at == s[i].at) {
            let ghost had = r@;
            r.push(s[i]);
            assert(whole_positions(r@)) by {
                assert forall|k: int| 0 <= k < r@.len() implies 0 <= (#[trigger] r@[k]).at
                    <= u32::MAX by {
                    if k < had.len() {
                        assert(r@[k] == had[k]);
                    }
                }
            }
        }
        i += 1;
    }
    assert(s@.take(i as int) =~= s@);
    r
}

fn make_gradient(s: &Vec<Stop>, step: i64, name: &str) -> (p: Palette)
    requires
        whole_positions(s@),
        0 < step <= 4_000_000,
    ensures
        p@ == gradient(s@, step as int, name@),
{
    let mut v: Vec<Stop> = Vec::new();
    let mut i: usize = 0;
    while i < s.len()
        invariant
            i <= s@.len(),
            whole_positions(s@),
            0 < step <= 4_000_000,
            v@ == scaled(s@, step as int).take(i as int),
        decreases s@.len() - i,
    {
        let at: i64 = s[i].at;
        assert(0 <= at <= u32::MAX);
        assert(0 <= at * step <= 0xFFFF_FFFF * 4_000_000) by (nonlinear_arith)
            requires
                0 <= at <= 0xFFFF_FFFF,
                0 < step <= 4_000_000,
        ;
        let place: i64 = if at * step > UNIT as i64 {
            UNIT as i64
        } else {
            at * step
        };
        let ghost had = v@;
        v.push(Stop { at: place, color: s[i].color });
        i += 1;
        assert(v@ =~= scaled(s@, step as int).take(i as int));
    }
    assert(v@ =~= scaled(s@, step as int));
    let mut p = Palette::from_stops(&v);
    p.name = Some(text::owned(name));
    p
}

// ---- packed colours at whole positions -------------------------------------

/// A text without the double quotes at its end.
pub open spec fn unquoted_end(s: Seq<char>) -> Seq<char>
    decreases s.len(),
{
    if s.len() > 0 && s.last() == '"' {
        unquoted_end(s.drop_last())
    } else {
        s
    }
}

/// A text without the double quotes at its start.
pub open spec fn unquoted_start(s: Seq<char>) -> Seq<char>
    decreases s.len(),
{
    if s.len() > 0 && s[0] == '"' {
        unquoted_start(s.drop_first())
    } else {
        s
    }
}

/// A text without the double quotes around it.
pub open spec fn unquoted(s: Seq<char>) -> Seq<char> {
    unquoted_start(unquoted_end(s))
}

fn unquote(s: &str) -> (v: Vec<char>)
    ensures
        v@ == unquoted(s@),
{
    let c = text::chars_of(s);
    let mut e: usize = c.len();
    assert(c@.take(e as int) =~= s@);
    while e > 0 && c[e - 1] == '"'
        invariant
            e <= c@.len(),
            unquoted_end(c@.take(e as int)) == unquoted_end(s@),
        decreases e,
    {
        let ghost cut = c@.take(e as int);
        assert(cut.drop_last() =~= c@.take(e - 1));
        assert(cut.last() == c@[e - 1]);
        e -= 1;
    }
    let ghost t = c@.take(e as int);
    assert(e > 0 ==> t.last() == c@[e - 1]);
    assert(t == unquoted_end(s@));
    let mut b: usize = 0;
    assert(c@.subrange(0, e as int) =~= t);
    while b < e && c[b] == '"'
        invariant
            b <= e <= c@.len(),
            unquoted_start(c@.subrange(b as int, e as int)) == unquoted_start(t),
        decreases e - b,
    {
        let ghost cut = c@.subrange(b as int, e as int);
        assert(cut.drop_first() =~= c@.subrange(b + 1, e as int));
        b += 1;
    }
    let r = text::string_of_range(&c, b, e);
    text::chars_of(r.as_str())
}

/// The colour number that a text writes: a whole number of 64 bits with a
/// sign, and zero for one below it.
pub open spec fn color_value(s: Seq<char>) -> Option<nat> {
    if s.len() > 0 && s[0] == '-' {
        if text::all_digits(s.drop_first()) && text::digits_value(s.drop_first())
            <= 0x8000_0000_0000_0000 {
            Some(0)
        } else {
            None
        }
    } else {
        text::unsigned_value(s, 0x7FFF_FFFF_FFFF_FFFF)
    }
}

fn parse_color(v: &Vec<char>) -> (r: Option<u64>)
    ensures
        match color_value(v@) {
            Some(n) => r == Some(n as u64) && n <= 0x7FFF_FFFF_FFFF_FFFF,
            None => r is None,
        },
{
    let len: usize = v.len();
    if len > 0 && v[0] == '-' {
        let ghost body = v@.drop_first();
        assert(v@.subrange(1, len as int) =~= body);
        if len > 1 && v[1] == '+' {
            assert(body[0] == '+');
            assert(!text::is_digit(body[0]));
            return None;
        }
        assert(len > 1 ==> body[0] == v@[1]);
        match text::parse_unsigned(v, 1, len, 0x8000_0000_0000_0000) {
            Some(_) => Some(0),
            None => None,
        }
    } else {
        assert(v@.subrange(0, len as int) =~= v@);
        text::parse_unsigned(v, 0, len, 0x7FFF_FFFF_FFFF_FFFF)
    }
}

/// The colour that a number packs, blue first.
pub open spec fn unpacked(n: nat) -> Ink {
    Ink::of((n % 256) as u8, (n / 256 % 256) as u8, (n / 65_536 % 256) as u8)
}

/// The stop that one item of a gradient gives: its position is its first
/// word, and its colour the first word behind `color=`, either perhaps in
/// double quotes.
pub open spec fn item_stop(chunk: Seq<char>) -> Option<Stop> {
    let colors = text::chunks(chunk, "color="@);
    match text::first_word(chunk) {
        None => None,
        Some(w) => match text::unsigned_value(unquoted(w), u32::MAX as nat) {
            None => None,
            Some(index) => if colors.len() == 0 {
                None
            } else {
                match text::first_word(colors[0]) {
                    None => None,
                    Some(c) => match color_value(unquoted(c)) {
                        None => None,
                        Some(n) => Some(Stop { at: index as i64, color: unpacked(n) }),
                    },
                }
            },
        },
    }
}

fn read_item(chunk: &str) -> (r: Option<Stop>)
    ensures
        r == item_stop(chunk@),
        r matches Some(s) ==> 0 <= s.at <= u32::MAX,
{
    let first = text::first_word_of(chunk)?;
    let word = unquote(first.as_str());
    assert(word@.subrange(0, word@.len() as int) =~= word@);
    let index: u64 = text::parse_unsigned(&word, 0, word.len(), 0xFFFF_FFFF)?;
    proof {
        reveal_strlit("color=");
    }
    let colors = text::chunks_of(chunk, "color=");
    if colors.len() == 0 {
        assert(text::chunks(chunk@, "color="@).len() == 0);
        return None;
    }
    assert(text::views(colors@)[0] == colors@[0]@);
    let second = text::first_word_of(colors[0].as_str())?;
    let packed = unquote(second.as_str());
    let n: u64 = parse_color(&packed)?;
    Some(
        Stop {
            at: index as i64,
            color: Ink::shown(
                (n % 256) as u8,
                (n / 256 % 256) as u8,
                (n / 65_536 % 256) as u8,
            ),
        },
    )
}

/// The stops of the first `n` items of a gradient: those that can be read.
pub open spec fn item_stops(items: Seq<Seq<char>>, n: nat) -> Seq<Stop>
    decreases n,
{
    if n == 0 {
        Seq::empty()
    } else {
        let had = item_stops(items, (n - 1) as nat);
        match item_stop(items[n - 1]) {
            Some(s) => had.push(s),
            None => had,
        }
    }
}

/// The stops that the body of a gradient lists. What stands behind `opacity:`
/// is a second list, which is not about colour.
pub open spec fn body_stops(body: Seq<char>) -> Seq<Stop> {
    let items = text::chunks(text::before(body, "opacity:"@), "index="@);
    item_stops(items, items.len())
}

/// How many units a position stands for: a file that goes past 255 counts 400
/// positions to a gradient, and any other counts 256.
pub open spec fn step_of(s: Seq<Stop>) -> int {
    if s.len() > 0 && s.last().at > 255 {
        2_500_000
    } else {
        3_906_250
    }
}

/// The gradient that a body lists, if it has two stops at least.
pub open spec fn body_gradient(name: Seq<char>, body: Seq<char>) -> Seq<PaletteModel> {
    let points = body_stops(body);
    let kept = deduped(super::sorted(points));
    if points.len() < 2 {
        Seq::empty()
    } else {
        seq![gradient(kept, step_of(kept), name)]
    }
}

/// The name in front of a brace: the last word there.
pub open spec fn name_before(s: Seq<char>) -> Seq<char> {
    match text::last_word(s) {
        Some(w) => w,
        None => "imported"@,
    }
}

/// The gradients of a file of packed colours: each a name and a body in
/// braces. A brace that is not closed ends the file.
pub open spec fn packed_gradients(s: Seq<char>) -> Seq<PaletteModel>
    decreases s.len(),
    via packed_gradients_shrink
{
    let open = text::index_of(s, '{');
    let close = text::index_of(s.skip(open), '}');
    if open >= s.len() || close >= s.len() - open {
        Seq::empty()
    } else {
        body_gradient(name_before(s.take(open)), s.subrange(open + 1, open + close))
            + packed_gradients(s.skip(open + close + 1))
    }
}

#[via_fn]
proof fn packed_gradients_shrink(s: Seq<char>) {
    text::index_of_finds(s, '{');
    text::index_of_finds(s.skip(text::index_of(s, '{')), '}');
}

/// What palettes hold.
pub open spec fn models(v: Seq<Palette>) -> Seq<PaletteModel> {
    Seq::new(v.len(), |i: int| v[i]@)
}

fn read_items(items: &Vec<String>) -> (r: Vec<Stop>)
    ensures
        r@ == item_stops(text::views(items@), items@.len()),
        whole_positions(r@),
{
    let ghost all = text::views(items@);
    let mut r: Vec<Stop> = Vec::new();
    let mut i: usize = 0;
    assert(r@ =~= Seq::empty());
    while i < items.len()
        invariant
            i <= items@.len(),
            all == text::views(items@),
            r@ == item_stops(all, i as nat),
            whole_positions(r@),
        decreases items@.len() - i,
    {
        assert(all[i as int] == items@[i as int]@);
        if let Some(s) = read_item(items[i].as_str()) {
            let ghost had = r@;
            r.push(s);
            assert(whole_positions(r@)) by {
                assert forall|k: int| 0 <= k < r@.len() implies 0 <= (#[trigger] r@[k]).at
                    <= u32::MAX by {
                    if k < had.len() {
                        assert(r@[k] == had[k]);
                    }
                }
            }
        }
        i += 1;
    }
    r
}

fn read_body(v: &Vec<char>, from: usize, to: usize) -> (r: Vec<Stop>)
    requires
        from <= to <= v@.len(),
    ensures
        r@ == body_stops(v@.subrange(from as int, to as int)),
        whole_positions(r@),
{
    let ghost body = v@.subrange(from as int, to as int);
    let end: usize = match text::find_text(v, from, to, "opacity:") {
        Some(i) => i,
        None => to,
    };
    let kept = text::string_of_range(v, from, end);
    assert(kept@ =~= text::before(body, "opacity:"@));
    proof {
        reveal_strlit("index=");
    }
    let items = text::chunks_of(kept.as_str(), "index=");
    assert(text::views(items@).len() == items@.len());
    read_items(&items)
}

/// Gradients of packed colours: `name { ... }` with `index=N color=M` pairs
/// inside, colours packed blue first.
pub fn parse_ugr(s: &str) -> (r: Vec<Palette>)
    ensures
        models(r@) == packed_gradients(s@),
{
    let v = text::chars_of(s);
    let len: usize = v.len();
    let mut r: Vec<Palette> = Vec::new();
    let mut from: usize = 0;
    assert(v@.subrange(0, len as int) =~= s@);
    assert(models(r@) + packed_gradients(s@) =~= packed_gradients(s@));
    loop
        invariant
            from <= len == v@.len(),
            models(r@) + packed_gradients(v@.subrange(from as int, len as int))
                == packed_gradients(s@),
        ensures
            models(r@) == packed_gradients(s@),
        decreases len - from,
    {
        let ghost rest = v@.subrange(from as int, len as int);
        let open: usize = text::find(&v, from, len, '{');
        if open == len {
            assert(models(r@) =~= packed_gradients(s@));
            break;
        }
        assert(rest.skip(open - from) =~= v@.subrange(open as int, len as int));
        let close: usize = text::find(&v, open, len, '}');
        if close == len {
            assert(models(r@) =~= packed_gradients(s@));
            break;
        }
        proof {
            text::index_of_finds(rest, '{');
            text::index_of_finds(rest.skip(open - from), '}');
        }
        assert(v@[open as int] == '{');
        assert(v@[close as int] == '}');
        assert(rest.take(open - from) =~= v@.subrange(from as int, open as int));
        let name = match text::last_word_of(&v, from, open) {
            Some(w) => w,
            None => text::owned("imported"),
        };
        let ghost body = rest.subrange(open - from + 1, close - from);
        assert(body =~= v@.subrange(open + 1, close as int));
        let points = read_body(&v, open + 1, close);
        let ghost more = body_gradient(name@, body);
        let ghost had = models(r@);
        if points.len() >= 2 {
            proof {
                sorted_keeps_positions(points@);
                super::sorting_orders(points@);
            }
            let order = super::sort(&points);
            let kept = dedup(&order);
            let last: usize = kept.len();
            let step: i64 = if last > 0 && kept[last - 1].at > 255 {
                2_500_000
            } else {
                3_906_250
            };
            let p = make_gradient(&kept, step, name.as_str());
            let ghost shown = p@;
            r.push(p);
            assert(models(r@) =~= had.push(shown));
            assert(models(r@) =~= had + more);
        } else {
            assert(models(r@) =~= had + more);
        }
        let ghost next = rest.skip(close - from + 1);
        assert(next =~= v@.subrange(close + 1, len as int));
        assert(packed_gradients(rest) == more + packed_gradients(next));
        assert(had + (more + packed_gradients(next)) =~= (had + more) + packed_gradients(next));
        from = close + 1;
    }
    r
}

// ---- hex digits in a markup element ----------------------------------------

/// The value of an attribute, written `key="value"`, in a fragment of markup;
/// `mark` is the key with the equals sign and the opening quote.
pub open spec fn attribute(chunk: Seq<char>, mark: Seq<char>) -> Option<Seq<char>> {
    match text::first_of(chunk, mark) {
        None => None,
        Some(i) => {
            let rest = chunk.skip(i + mark.len());
            let end = text::index_of(rest, '"');
            if end >= rest.len() {
                None
            } else {
                Some(rest.take(end))
            }
        },
    }
}

fn attribute_of(chunk: &str, mark: &str) -> (r: Option<String>)
    ensures
        match attribute(chunk@, mark@) {
            Some(a) => r is Some && (r->0)@ == a,
            None => r is None,
        },
{
    let v = text::chars_of(chunk);
    let len: usize = v.len();
    assert(v@.subrange(0, len as int) =~= chunk@);
    let at: usize = text::find_text(&v, 0, len, mark)?;
    let start: usize = at + text::char_count(mark);
    let ghost rest = chunk@.skip(start as int);
    assert(v@.subrange(start as int, len as int) =~= rest);
    let end: usize = text::find(&v, start, len, '"');
    if end == len {
        return None;
    }
    let r = text::string_of_range(&v, start, end);
    assert(r@ =~= rest.take(end - start));
    Some(r)
}

/// What stands between the first `>` of a fragment and the next `<`; nothing
/// where there is no `>`.
pub open spec fn content(chunk: Seq<char>) -> Seq<char> {
    let open = text::index_of(chunk, '>');
    if open >= chunk.len() {
        Seq::empty()
    } else {
        let rest = chunk.skip(open + 1);
        rest.take(text::index_of(rest, '<'))
    }
}

fn content_of(chunk: &str) -> (r: String)
    ensures
        r@ == content(chunk@),
{
    let v = text::chars_of(chunk);
    let len: usize = v.len();
    assert(v@.subrange(0, len as int) =~= chunk@);
    let open: usize = text::find(&v, 0, len, '>');
    if open == len {
        let r = String::new();
        assert(r@ =~= Seq::<char>::empty());
        return r;
    }
    let ghost rest = chunk@.skip(open + 1);
    assert(v@.subrange(open + 1, len as int) =~= rest);
    let end: usize = text::find(&v, open + 1, len, '<');
    let r = text::string_of_range(&v, open + 1, end);
    assert(r@ =~= rest.take(end - open - 1));
    r
}

/// The values of the hex digits of a text, whatever else stands in it.
pub open spec fn nibbles(s: Seq<char>) -> Seq<u8>
    decreases s.len(),
{
    if s.len() == 0 {
        Seq::empty()
    } else {
        match def::digit_value(s.last()) {
            Some(d) => nibbles(s.drop_last()).push(d as u8),
            None => nibbles(s.drop_last()),
        }
    }
}

/// The entry whose six digits start at `at`.
pub open spec fn entry_at(d: Seq<u8>, at: int) -> Ink {
    Ink::of(
        (16 * d[at] + d[at + 1]) as u8,
        (16 * d[at + 2] + d[at + 3]) as u8,
        (16 * d[at + 4] + d[at + 5]) as u8,
    )
}

/// The 256 entries of a run of hex digits: six digits each, or eight, of which
/// the first two are padding.
pub open spec fn hex_entries(s: Seq<char>) -> Option<Seq<Ink>> {
    let d = nibbles(s);
    if d.len() == 256 * 6 {
        Some(Seq::new(256, |i: int| entry_at(d, 6 * i)))
    } else if d.len() == 256 * 8 {
        Some(Seq::new(256, |i: int| entry_at(d, 8 * i + 2)))
    } else {
        None
    }
}

fn nibbles_of(s: &str) -> (r: Vec<u8>)
    ensures
        r@ == nibbles(s@),
        forall|i: int| 0 <= i < r@.len() ==> (#[trigger] r@[i]) < 16,
{
    let v = text::chars_of(s);
    let mut r: Vec<u8> = Vec::new();
    let mut i: usize = 0;
    assert(v@.take(0) =~= Seq::empty());
    assert(r@ =~= Seq::empty());
    while i < v.len()
        invariant
            i <= v@.len(),
            r@ == nibbles(v@.take(i as int)),
            forall|k: int| 0 <= k < r@.len() ==> (#[trigger] r@[k]) < 16,
        decreases v@.len() - i,
    {
        assert(v@.take(i + 1).drop_last() =~= v@.take(i as int));
        assert(v@.take(i + 1).last() == v@[i as int]);
        if let Some(d) = def::digit(v[i]) {
            r.push(d);
        }
        i += 1;
    }
    assert(v@.take(i as int) =~= v@);
    r
}

fn entry_of(d: &Vec<u8>, at: usize) -> (i: Ink)
    requires
        at + 6 <= d@.len(),
        forall|i: int| 0 <= i < d@.len() ==> (#[trigger] d@[i]) < 16,
    ensures
        i == entry_at(d@, at as int),
{
    let len: usize = d.len();
    assert(at + 6 <= len);
    assert(d@[at as int] < 16 && d@[at + 2] < 16 && d@[at + 4] < 16);
    assert(d@[at + 1] < 16 && d@[at + 3] < 16 && d@[at + 5] < 16);
    Ink::shown(
        16 * d[at] + d[at + 1],
        16 * d[at + 2] + d[at + 3],
        16 * d[at + 4] + d[at + 5],
    )
}

fn decode_hex_entries(s: &str) -> (r: Option<Vec<Ink>>)
    ensures
        match hex_entries(s@) {
            Some(e) => r is Some && (r->0)@ == e,
            None => r is None,
        },
{
    let d = nibbles_of(s);
    let len: usize = d.len();
    let per: usize = if len == 256 * 6 {
        6
    } else if len == 256 * 8 {
        8
    } else {
        return None;
    };
    let ghost want = hex_entries(s@)->0;
    let mut r: Vec<Ink> = Vec::new();
    let mut i: usize = 0;
    while i < 256
        invariant
            i <= 256,
            d@ == nibbles(s@),
            forall|k: int| 0 <= k < d@.len() ==> (#[trigger] d@[k]) < 16,
            per == 6 || per == 8,
            d@.len() == 256 * per,
            hex_entries(s@) == Some(want),
            want.len() == 256,
            r@ == want.take(i as int),
        decreases 256 - i,
    {
        let at: usize = if per == 6 {
            6 * i
        } else {
            8 * i + 2
        };
        r.push(entry_of(&d, at));
        i += 1;
        assert(r@ =~= want.take(i as int));
    }
    assert(want.take(256) =~= want);
    Some(r)
}

/// The name that an element without one is given: the file's, numbered from
/// the second element on.
pub open spec fn numbered(stem: Seq<char>, i: nat) -> Seq<char> {
    if i == 0 {
        stem
    } else {
        stem + "-"@ + text::decimal(i)
    }
}

/// The palettes of one element: one, where its digits can be read.
pub open spec fn element_palette(chunk: Seq<char>, stem: Seq<char>, i: nat) -> Seq<PaletteModel> {
    let name = match attribute(chunk, "name=\""@) {
        Some(n) => n,
        None => numbered(stem, i),
    };
    let digits = match attribute(chunk, "data=\""@) {
        Some(d) => d,
        None => content(chunk),
    };
    match hex_entries(digits) {
        Some(e) => seq![
            PaletteModel { name: Some(name), ..super::plain(super::BodyModel::Entries(e)) },
        ],
        None => Seq::empty(),
    }
}

/// The palettes of the first `n` elements.
pub open spec fn element_palettes(
    chunks: Seq<Seq<char>>,
    stem: Seq<char>,
    n: nat,
) -> Seq<PaletteModel>
    decreases n,
{
    if n == 0 {
        Seq::empty()
    } else {
        element_palettes(chunks, stem, (n - 1) as nat) + element_palette(
            chunks[n - 1],
            stem,
            (n - 1) as nat,
        )
    }
}

/// The numbers among the first `n` words, as bytes.
pub open spec fn byte_values(words: Seq<Seq<char>>, n: nat) -> Seq<u8>
    decreases n,
{
    if n == 0 {
        Seq::empty()
    } else {
        let had = byte_values(words, (n - 1) as nat);
        let w = words[n - 1];
        if number::is_number(w) {
            had.push(number::byte_of(w) as u8)
        } else {
            had
        }
    }
}

/// The numbers of a list, with spaces or commas between them.
pub open spec fn listed_bytes(s: Seq<char>) -> Seq<u8> {
    let words = text::words(text::replaced(s, ',', ' '));
    byte_values(words, words.len())
}

/// The stop that a colour element gives: its position, and its first three
/// numbers.
pub open spec fn element_stop(chunk: Seq<char>) -> Option<Stop> {
    match (attribute(chunk, "index=\""@), attribute(chunk, "rgb=\""@)) {
        (Some(index), Some(rgb)) => match text::unsigned_value(
            text::trimmed(index),
            u32::MAX as nat,
        ) {
            Some(at) => {
                let v = listed_bytes(rgb);
                if v.len() >= 3 {
                    Some(Stop { at: at as i64, color: Ink::of(v[0], v[1], v[2]) })
                } else {
                    None
                }
            },
            None => None,
        },
        _ => None,
    }
}

/// The stops of the first `n` colour elements: those that can be read.
pub open spec fn element_stops(chunks: Seq<Seq<char>>, n: nat) -> Seq<Stop>
    decreases n,
{
    if n == 0 {
        Seq::empty()
    } else {
        let had = element_stops(chunks, (n - 1) as nat);
        match element_stop(chunks[n - 1]) {
            Some(s) => had.push(s),
            None => had,
        }
    }
}

/// The gradient of a file's colour elements, if it has two at least.
pub open spec fn colors_gradient(s: Seq<char>, stem: Seq<char>) -> Seq<PaletteModel> {
    let chunks = text::chunks(s, "<color"@);
    let points = element_stops(chunks, chunks.len());
    if points.len() >= 2 {
        seq![gradient(super::sorted(points), 3_906_250, stem)]
    } else {
        Seq::empty()
    }
}

/// The palettes of a markup file: those of its palette elements, or else the
/// gradient of its colour elements.
pub open spec fn markup_palettes(s: Seq<char>, stem: Seq<char>) -> Seq<PaletteModel> {
    let chunks = text::chunks(s, "<palette"@);
    let found = element_palettes(chunks, stem, chunks.len());
    if found.len() > 0 {
        found
    } else {
        colors_gradient(s, stem)
    }
}

fn read_element(chunk: &str, stem: &str, i: usize) -> (r: Option<Palette>)
    ensures
        match r {
            Some(p) => element_palette(chunk@, stem@, i as nat) =~= seq![p@],
            None => element_palette(chunk@, stem@, i as nat) =~= Seq::empty(),
        },
{
    let name = match attribute_of(chunk, "name=\"") {
        Some(n) => n,
        None => {
            let mut n = text::owned(stem);
            if i > 0 {
                n.append("-");
                text::push_decimal(&mut n, i as u128);
            }
            n
        },
    };
    let digits = match attribute_of(chunk, "data=\"") {
        Some(d) => d,
        None => content_of(chunk),
    };
    let entries = decode_hex_entries(digits.as_str())?;
    let mut p = Palette::from_entries(entries);
    p.name = Some(name);
    Some(p)
}

fn read_elements(chunks: &Vec<String>, stem: &str) -> (r: Vec<Palette>)
    ensures
        models(r@) == element_palettes(text::views(chunks@), stem@, chunks@.len()),
{
    let ghost all = text::views(chunks@);
    let mut r: Vec<Palette> = Vec::new();
    let mut i: usize = 0;
    assert(models(r@) =~= Seq::empty());
    while i < chunks.len()
        invariant
            i <= chunks@.len(),
            all == text::views(chunks@),
            models(r@) == element_palettes(all, stem@, i as nat),
        decreases chunks@.len() - i,
    {
        assert(all[i as int] == chunks@[i as int]@);
        let ghost had = models(r@);
        match read_element(chunks[i].as_str(), stem, i) {
            Some(p) => {
                let ghost shown = p@;
                r.push(p);
                assert(models(r@) =~= had.push(shown));
                assert(models(r@) =~= had + seq![shown]);
            },
            None => {
                assert(models(r@) =~= had + Seq::empty());
            },
        }
        i += 1;
    }
    r
}

fn bytes_of(s: &str) -> (r: Vec<u8>)
    ensures
        r@ == listed_bytes(s@),
{
    let spaced = text::replace(s, ',', ' ');
    let words = text::words_of(spaced.as_str());
    let ghost all = text::views(words@);
    let mut r: Vec<u8> = Vec::new();
    let mut i: usize = 0;
    assert(r@ =~= Seq::empty());
    while i < words.len()
        invariant
            i <= words@.len(),
            all == text::views(words@),
            r@ == byte_values(all, i as nat),
        decreases words@.len() - i,
    {
        assert(all[i as int] == words@[i as int]@);
        if let Some(b) = number::parse_byte(words[i].as_str()) {
            r.push(b);
        }
        i += 1;
    }
    assert(all.len() == words@.len());
    r
}

fn read_color_element(chunk: &str) -> (r: Option<Stop>)
    ensures
        r == element_stop(chunk@),
        r matches Some(s) ==> 0 <= s.at <= u32::MAX,
{
    let index = attribute_of(chunk, "index=\"")?;
    let rgb = attribute_of(chunk, "rgb=\"")?;
    let v = text::chars_of(index.as_str());
    let len: usize = v.len();
    assert(v@.subrange(0, len as int) =~= index@);
    let (b, e) = text::trim_at(&v, 0, len);
    let at: u64 = text::parse_unsigned(&v, b, e, 0xFFFF_FFFF)?;
    let bytes = bytes_of(rgb.as_str());
    if bytes.len() >= 3 {
        Some(Stop { at: at as i64, color: Ink::shown(bytes[0], bytes[1], bytes[2]) })
    } else {
        None
    }
}

fn read_color_elements(chunks: &Vec<String>) -> (r: Vec<Stop>)
    ensures
        r@ == element_stops(text::views(chunks@), chunks@.len()),
        whole_positions(r@),
{
    let ghost all = text::views(chunks@);
    let mut r: Vec<Stop> = Vec::new();
    let mut i: usize = 0;
    assert(r@ =~= Seq::empty());
    while i < chunks.len()
        invariant
            i <= chunks@.len(),
            all == text::views(chunks@),
            r@ == element_stops(all, i as nat),
            whole_positions(r@),
        decreases chunks@.len() - i,
    {
        assert(all[i as int] == chunks@[i as int]@);
        if let Some(s) = read_color_element(chunks[i].as_str()) {
            let ghost had = r@;
            r.push(s);
            assert(whole_positions(r@)) by {
                assert forall|k: int| 0 <= k < r@.len() implies 0 <= (#[trigger] r@[k]).at
                    <= u32::MAX by {
                    if k < had.len() {
                        assert(r@[k] == had[k]);
                    }
                }
            }
        }
        i += 1;
    }
    r
}

/// The palettes of a markup file. Its palette elements hold hex digits, in an
/// attribute or between their tags; an older form has an element for each
/// colour.
pub fn parse_flame(s: &str, stem: &str) -> (r: Vec<Palette>)
    ensures
        models(r@) == markup_palettes(s@, stem@),
{
    proof {
        reveal_strlit("<palette");
        reveal_strlit("<color");
    }
    let chunks = text::chunks_of(s, "<palette");
    assert(text::views(chunks@).len() == chunks@.len());
    let found = read_elements(&chunks, stem);
    assert(models(found@).len() == found@.len());
    if found.len() > 0 {
        return found;
    }
    let colors = text::chunks_of(s, "<color");
    assert(text::views(colors@).len() == colors@.len());
    let points = read_color_elements(&colors);
    let mut r: Vec<Palette> = Vec::new();
    if points.len() >= 2 {
        proof {
            sorted_keeps_positions(points@);
        }
        let order = super::sort(&points);
        let p = make_gradient(&order, 3_906_250, stem);
        let ghost shown = p@;
        r.push(p);
        assert(models(r@) =~= seq![shown]);
    } else {
        assert(models(r@) =~= Seq::empty());
    }
    r
}

// ---- files -----------------------------------------------------------------

/// What a palette file is written in.
#[derive(Clone, Copy, Debug, PartialEq, Eq, Structural)]
pub enum Format {
    /// Packed colours at whole positions.
    Packed,
    /// Markup elements.
    Markup,
    /// A palette's own table.
    Table,
    Unknown,
}

/// Whether a text holds another.
pub open spec fn holds(s: Seq<char>, p: Seq<char>) -> bool {
    text::first_of(s, p) is Some
}

/// What a file is written in: by its extension, in any case, or else by what
/// it holds.
pub open spec fn format_of(path: Seq<char>, s: Seq<char>) -> Format {
    let ext = text::lowered(filename::file_extension(path));
    if ext == text::lowered("ugr"@) || ext == text::lowered("gradient"@) || ext == text::lowered(
        "uxf"@,
    ) {
        Format::Packed
    } else if ext == text::lowered("flame"@) || ext == text::lowered("xml"@) {
        Format::Markup
    } else if ext == text::lowered("toml"@) {
        Format::Table
    } else if holds(s, "<palette"@) || holds(s, "<flame"@) {
        Format::Markup
    } else if holds(s, "index="@) {
        Format::Packed
    } else {
        Format::Unknown
    }
}

fn contains(s: &str, p: &str) -> (b: bool)
    ensures
        b == holds(s@, p@),
{
    let v = text::chars_of(s);
    assert(v@.subrange(0, v@.len() as int) =~= s@);
    text::find_text(&v, 0, v.len(), p).is_some()
}

/// What a file is written in.
pub fn format(path: &str, s: &str) -> (f: Format)
    ensures
        f == format_of(path@, s@),
{
    let found = filename::extension_of(path);
    let ext = found.as_str();
    if text::same_ignoring_case(ext, "ugr") || text::same_ignoring_case(ext, "gradient")
        || text::same_ignoring_case(ext, "uxf") {
        Format::Packed
    } else if text::same_ignoring_case(ext, "flame") || text::same_ignoring_case(ext, "xml") {
        Format::Markup
    } else if text::same_ignoring_case(ext, "toml") {
        Format::Table
    } else if contains(s, "<palette") || contains(s, "<flame") {
        Format::Markup
    } else if contains(s, "index=") {
        Format::Packed
    } else {
        Format::Unknown
    }
}

/// The name that a file's palettes go by where they have none.
pub open spec fn stem_for(path: Seq<char>) -> Seq<char> {
    match filename::file_stem(path) {
        Some(s) => s,
        None => "imported"@,
    }
}

/// The palettes of a file that is not a table.
pub open spec fn file_palettes(path: Seq<char>, s: Seq<char>) -> Seq<PaletteModel> {
    if format_of(path, s) == Format::Packed {
        packed_gradients(s)
    } else {
        markup_palettes(s, stem_for(path))
    }
}

/// What loading a file gives: every palette in it, or why there is none.
pub open spec fn loaded(path: Seq<char>, s: Seq<char>, table: Result<def::TableModel, Seq<char>>) -> Result<
    Seq<PaletteModel>,
    Seq<char>,
> {
    match format_of(path, s) {
        Format::Unknown => Err(path + ": unrecognised palette format"@),
        Format::Table => match table {
            Err(e) => Err(e),
            Ok(d) => match def::resolved(d) {
                Err(e) => Err(e),
                Ok(p) => Ok(seq![p]),
            },
        },
        _ => if file_palettes(path, s).len() == 0 {
            Err(path + ": no palettes found"@)
        } else {
            Ok(file_palettes(path, s))
        },
    }
}

/// What a table that was read holds, or why it was not.
pub open spec fn table_model(t: Result<PaletteDef, String>) -> Result<def::TableModel, Seq<char>> {
    match t {
        Ok(d) => Ok(d@),
        Err(e) => Err(e@),
    }
}

/// Every gradient in a file, given what it reads and, for a file that is a
/// table, what that table says.
pub fn load(path: &str, s: &str, table: &Result<PaletteDef, String>) -> (r: Result<
    Vec<Palette>,
    String,
>)
    ensures
        match loaded(path@, s@, table_model(*table)) {
            Ok(v) => r is Ok && models((r->Ok_0)@) == v,
            Err(e) => r is Err && (r->Err_0)@ == e,
        },
{
    let found = match format(path, s) {
        Format::Unknown => {
            let mut e = text::owned(path);
            e.append(": unrecognised palette format");
            return Err(e);
        },
        Format::Table => {
            match table {
                Err(e) => {
                    return Err(text::owned(e.as_str()));
                },
                Ok(d) => match d.resolve() {
                    Err(e) => {
                        return Err(e);
                    },
                    Ok(p) => {
                        let mut v: Vec<Palette> = Vec::new();
                        let ghost shown = p@;
                        v.push(p);
                        assert(models(v@) =~= seq![shown]);
                        return Ok(v);
                    },
                },
            }
        },
        Format::Packed => parse_ugr(s),
        Format::Markup => {
            let stem = match filename::stem_of(path) {
                Some(t) => t,
                None => text::owned("imported"),
            };
            parse_flame(s, stem.as_str())
        },
    };
    assert(models(found@).len() == found@.len());
    if found.len() == 0 {
        let mut e = text::owned(path);
        e.append(": no palettes found");
        return Err(e);
    }
    Ok(found)
}

/// A place to load one gradient from: a file, and the gradient's name where
/// one is given behind the last hash sign.
pub open spec fn place_of(place: Seq<char>) -> (Seq<char>, Option<Seq<char>>) {
    let h = filename::last_index_of(place, '#');
    if h <= 0 {
        (place, None)
    } else {
        (place.take(h), Some(place.skip(h + 1)))
    }
}

/// The file of a place, and the name behind its hash sign.
pub fn split_place(place: &str) -> (r: (String, Option<String>))
    ensures
        r.0@ == place_of(place@).0,
        super::text_of(r.1) == place_of(place@).1,
{
    let v = text::chars_of(place);
    let len: usize = v.len();
    assert(v@.subrange(0, len as int) =~= place@);
    let h: usize = filename::after_last(&v, 0, len, '#');
    if h <= 1 {
        return (text::owned(place), None);
    }
    let path = text::string_of_range(&v, 0, h - 1);
    let name = text::string_of_range(&v, h, len);
    assert(path@ =~= place@.take(h - 1));
    assert(name@ =~= place@.skip(h as int));
    (path, Some(name))
}

/// The first palette from `from` on with this name in any case.
pub open spec fn under_name(found: Seq<PaletteModel>, name: Seq<char>, from: int) -> Option<int>
    decreases found.len() - from,
{
    if from >= found.len() {
        None
    } else if (found[from].name matches Some(n) && text::lowered(n) == text::lowered(name)) {
        Some(from)
    } else {
        under_name(found, name, from + 1)
    }
}

/// The names among the first `n` palettes.
pub open spec fn names_of(found: Seq<PaletteModel>, n: nat) -> Seq<Seq<char>>
    decreases n,
{
    if n == 0 {
        Seq::empty()
    } else {
        let had = names_of(found, (n - 1) as nat);
        match found[n - 1].name {
            Some(name) => had.push(name),
            None => had,
        }
    }
}

/// Which palette of a file is asked for: the first, or the one with the name
/// given, or why there is none.
pub open spec fn picked(
    path: Seq<char>,
    wanted: Option<Seq<char>>,
    found: Seq<PaletteModel>,
) -> Result<PaletteModel, Seq<char>> {
    match wanted {
        None => Ok(found[0]),
        Some(name) => match under_name(found, name, 0) {
            Some(i) => Ok(found[i]),
            None => Err(
                "no gradient named '"@ + name + "' in "@ + path + " (found: "@ + text::joined(
                    names_of(found, found.len()),
                    ", "@,
                ) + ")"@,
            ),
        },
    }
}

fn list_names(found: &Vec<Palette>) -> (r: String)
    ensures
        r@ == text::joined(names_of(models(found@), found@.len()), ", "@),
{
    let ghost all = models(found@);
    let mut names: Vec<String> = Vec::new();
    let mut i: usize = 0;
    assert(text::views(names@) =~= Seq::empty());
    while i < found.len()
        invariant
            i <= found@.len(),
            all == models(found@),
            text::views(names@) == names_of(all, i as nat),
        decreases found@.len() - i,
    {
        assert(all[i as int] == found@[i as int]@);
        if let Some(n) = &found[i].name {
            let ghost had = text::views(names@);
            let own = text::owned(n.as_str());
            let ghost shown = own@;
            names.push(own);
            assert(text::views(names@) =~= had.push(shown));
        }
        i += 1;
    }
    text::join(&names, ", ")
}

fn find_name(found: &Vec<Palette>, name: &str) -> (r: Option<usize>)
    ensures
        match under_name(models(found@), name@, 0) {
            Some(i) => r is Some && r->0 == i && 0 <= i < found@.len(),
            None => r is None,
        },
{
    let ghost all = models(found@);
    let mut i: usize = 0;
    while i < found.len()
        invariant
            i <= found@.len(),
            all == models(found@),
            under_name(all, name@, 0) == under_name(all, name@, i as int),
        decreases found@.len() - i,
    {
        assert(all[i as int] == found@[i as int]@);
        let here = match &found[i].name {
            Some(n) => text::same_ignoring_case(n.as_str(), name),
            None => false,
        };
        if here {
            return Some(i);
        }
        i += 1;
    }
    None
}

/// The palette of a file that is asked for.
pub fn pick(path: &str, wanted: Option<&str>, found: Vec<Palette>) -> (r: Result<Palette, String>)
    requires
        found@.len() > 0,
    ensures
        match picked(
            path@,
            match wanted {
                Some(n) => Some(n@),
                None => None,
            },
            models(found@),
        ) {
            Ok(p) => r is Ok && (r->Ok_0)@ == p,
            Err(e) => r is Err && (r->Err_0)@ == e,
        },
{
    let ghost all = models(found@);
    let mut found = found;
    match wanted {
        None => {
            assert(all[0] == found@[0]@);
            Ok(found.swap_remove(0))
        },
        Some(name) => {
            if let Some(i) = find_name(&found, name) {
                assert(all[i as int] == found@[i as int]@);
                return Ok(found.swap_remove(i));
            }
            let list = list_names(&found);
            let mut e = text::owned("no gradient named '");
            e.append(name);
            e.append("' in ");
            e.append(path);
            e.append(" (found: ");
            e.append(list.as_str());
            e.append(")");
            Err(e)
        },
    }
}

/// One gradient of a place: the first of its file, or the one named behind the
/// hash sign. The file's text and table are those of the path before it.
pub fn load_one(place: &str, s: &str, table: &Result<PaletteDef, String>) -> (r: Result<
    Palette,
    String,
>)
    ensures
        match loaded(place_of(place@).0, s@, table_model(*table)) {
            Err(e) => r is Err && (r->Err_0)@ == e,
            Ok(v) => match picked(place_of(place@).0, place_of(place@).1, v) {
                Ok(p) => r is Ok && (r->Ok_0)@ == p,
                Err(e) => r is Err && (r->Err_0)@ == e,
            },
        },
{
    let (path, wanted) = split_place(place);
    match load(path.as_str(), s, table) {
        Err(e) => Err(e),
        Ok(found) => {
            assert(models(found@).len() == found@.len());
            let name = match &wanted {
                Some(n) => Some(n.as_str()),
                None => None,
            };
            pick(path.as_str(), name, found)
        },
    }
}

// ---- what holds of every import --------------------------------------------

/// Whether stops are on a gradient: from its beginning to its end.
pub open spec fn on_gradient(s: Seq<Stop>) -> bool {
    forall|i: int| 0 <= i < s.len() ==> 0 <= (#[trigger] s[i]).at <= UNIT
}

proof fn inserted_stays_on(s: Seq<Stop>, x: Stop)
    requires
        on_gradient(s),
        0 <= x.at <= UNIT,
    ensures
        on_gradient(super::inserted(s, x)),
    decreases s.len(),
{
    if !(s.len() == 0 || s.last().at <= x.at) {
        assert(0 <= s[s.len() - 1].at <= UNIT);
        assert(on_gradient(s.drop_last())) by {
            assert forall|i: int| 0 <= i < s.len() - 1 implies 0 <= (#[trigger] s.drop_last()[i]).at
                <= UNIT by {
                assert(s.drop_last()[i] == s[i]);
            }
        }
        inserted_stays_on(s.drop_last(), x);
    }
}

proof fn sorted_stays_on(s: Seq<Stop>)
    requires
        on_gradient(s),
    ensures
        on_gradient(super::sorted(s)),
    decreases s.len(),
{
    if s.len() > 0 {
        assert(0 <= s[s.len() - 1].at <= UNIT);
        assert(on_gradient(s.drop_last())) by {
            assert forall|i: int| 0 <= i < s.len() - 1 implies 0 <= (#[trigger] s.drop_last()[i]).at
                <= UNIT by {
                assert(s.drop_last()[i] == s[i]);
            }
        }
        sorted_stays_on(s.drop_last());
        inserted_stays_on(super::sorted(s.drop_last()), s.last());
    }
}

proof fn deduped_keeps_positions(s: Seq<Stop>)
    requires
        whole_positions(s),
    ensures
        whole_positions(deduped(s)),
    decreases s.len(),
{
    if s.len() > 0 {
        assert(0 <= s[s.len() - 1].at <= u32::MAX);
        assert(whole_positions(s.drop_last())) by {
            assert forall|i: int| 0 <= i < s.len() - 1 implies 0 <= (#[trigger] s.drop_last()[i]).at
                <= u32::MAX by {
                assert(s.drop_last()[i] == s[i]);
            }
        }
        deduped_keeps_positions(s.drop_last());
    }
}

proof fn items_are_whole(items: Seq<Seq<char>>, n: nat)
    ensures
        whole_positions(item_stops(items, n)),
    decreases n,
{
    if n > 0 {
        items_are_whole(items, (n - 1) as nat);
    }
}

proof fn elements_are_whole(chunks: Seq<Seq<char>>, n: nat)
    ensures
        whole_positions(element_stops(chunks, n)),
    decreases n,
{
    if n > 0 {
        elements_are_whole(chunks, (n - 1) as nat);
    }
}

/// What an imported palette is like: it has a name, and either stops in order
/// on the gradient or 256 entries.
pub open spec fn is_import(p: PaletteModel) -> bool {
    &&& p.name is Some
    &&& match p.body {
        super::BodyModel::Stops(s) => super::in_order(s) && on_gradient(s),
        super::BodyModel::Entries(e) => e.len() == 256,
        super::BodyModel::Cosine(_) => false,
    }
}

proof fn gradient_is_import(s: Seq<Stop>, step: int, name: Seq<char>)
    requires
        whole_positions(s),
        0 < step <= 4_000_000,
    ensures
        is_import(gradient(s, step, name)),
{
    let v = scaled(s, step);
    assert forall|i: int| 0 <= i < v.len() implies 0 <= (#[trigger] v[i]).at <= UNIT by {
        let at = s[i].at;
        assert(0 <= at * step <= 0xFFFF_FFFF * 4_000_000) by (nonlinear_arith)
            requires
                0 <= at <= 0xFFFF_FFFF,
                0 < step <= 4_000_000,
        ;
    }
    sorted_stays_on(v);
    super::sorting_orders(v);
}

/// Every gradient of a file of packed colours has a name, and stops in order
/// and on the gradient, whatever positions the file gives.
pub proof fn packed_gradients_are_in_range(s: Seq<char>, i: int)
    requires
        0 <= i < packed_gradients(s).len(),
    ensures
        is_import(packed_gradients(s)[i]),
    decreases s.len(),
{
    text::index_of_finds(s, '{');
    let open = text::index_of(s, '{');
    text::index_of_finds(s.skip(open), '}');
    let close = text::index_of(s.skip(open), '}');
    let name = name_before(s.take(open));
    let body = s.subrange(open + 1, open + close);
    let one = body_gradient(name, body);
    if i < one.len() {
        let items = text::chunks(text::before(body, "opacity:"@), "index="@);
        items_are_whole(items, items.len());
        sorted_keeps_positions(body_stops(body));
        deduped_keeps_positions(super::sorted(body_stops(body)));
        let kept = deduped(super::sorted(body_stops(body)));
        gradient_is_import(kept, step_of(kept), name);
    } else {
        packed_gradients_are_in_range(s.skip(open + close + 1), i - one.len());
    }
}

proof fn elements_are_imports(chunks: Seq<Seq<char>>, stem: Seq<char>, n: nat, i: int)
    requires
        0 <= i < element_palettes(chunks, stem, n).len(),
    ensures
        is_import(element_palettes(chunks, stem, n)[i]),
    decreases n,
{
    let had = element_palettes(chunks, stem, (n - 1) as nat);
    if i < had.len() {
        elements_are_imports(chunks, stem, (n - 1) as nat, i);
    }
}

/// Every palette of a markup file has a name, and 256 entries or stops in
/// order and on the gradient.
pub proof fn markup_palettes_are_in_range(s: Seq<char>, stem: Seq<char>, i: int)
    requires
        0 <= i < markup_palettes(s, stem).len(),
    ensures
        is_import(markup_palettes(s, stem)[i]),
{
    let chunks = text::chunks(s, "<palette"@);
    if element_palettes(chunks, stem, chunks.len()).len() > 0 {
        elements_are_imports(chunks, stem, chunks.len(), i);
    } else {
        let colors = text::chunks(s, "<color"@);
        let points = element_stops(colors, colors.len());
        elements_are_whole(colors, colors.len());
        sorted_keeps_positions(points);
        gradient_is_import(super::sorted(points), 3_906_250, stem);
    }
}

/// A file that loads has a palette in it.
pub proof fn a_loaded_file_has_a_palette(
    path: Seq<char>,
    s: Seq<char>,
    table: Result<def::TableModel, Seq<char>>,
)
    ensures
        loaded(path, s, table) matches Ok(v) ==> v.len() > 0,
{
}

/// A packed colour holds red in its lowest byte, then green, then blue.
pub proof fn a_packed_colour_holds_its_channels(n: nat)
    requires
        n < 0x100_0000,
    ensures
        ({
            let i = unpacked(n);
            n == i.red + 256 * i.green + 65_536 * i.blue && i.linear is None
        }),
{
}

/// Positions are counted in 256ths of the way, and in 400ths where one of them is
/// past 255; none is past the end.
pub proof fn positions_are_256ths_or_400ths(s: Seq<Stop>, i: int)
    requires
        whole_positions(s),
        0 <= i < s.len(),
    ensures
        ({
            let (at, got) = (s[i].at, scaled(s, step_of(s))[i]);
            let parts: int = if s.last().at > 255 {
                400
            } else {
                256
            };
            &&& got.color == s[i].color
            &&& at <= parts ==> parts * got.at == at * 1_000_000_000
            &&& at >= parts ==> got.at == 1_000_000_000
        }),
{
    assert(s[i].at >= 0);
}

/// Of stops in one place the first is kept, and of every place one stop is.
pub proof fn one_stop_is_kept_of_every_place(s: Seq<Stop>)
    requires
        super::in_order(s),
    ensures
        ({
            let t = deduped(s);
            &&& s.len() > 0 ==> t.len() > 0 && t.last().at == s.last().at
            &&& forall|i: int, j: int| 0 <= i < j < t.len() ==> t[i].at < t[j].at
            &&& forall|k: int| 0 <= k < s.len() ==> has_place(t, (#[trigger] s[k]).at as int)
            &&& forall|i: int| 0 <= i < t.len() ==> is_first_of_its_place(s, #[trigger] t[i])
        }),
    decreases s.len(),
{
    if s.len() > 0 {
        let front = s.drop_last();
        assert(super::in_order(front)) by {
            assert forall|i: int, j: int| 0 <= i <= j < front.len() implies front[i].at
                <= front[j].at by {
                assert(s[i].at <= s[j].at);
            }
        }
        one_stop_is_kept_of_every_place(front);
        let (had, t) = (deduped(front), deduped(s));
        let n = s.len() - 1;
        if front.len() > 0 {
            assert(s[n - 1].at <= s[n].at);
            assert(front.last() == s[n - 1]);
        } else {
            assert(had.len() == 0);
        }
        assert forall|i: int, j: int| 0 <= i < j < t.len() implies t[i].at < t[j].at by {
            if j < had.len() {
                assert(had[i].at < had[j].at);
            } else {
                assert(had[i].at <= had.last().at) by {
                    if i < had.len() - 1 {
                        assert(had[i].at < had[had.len() - 1].at);
                    }
                }
            }
        }
        assert forall|k: int| 0 <= k < s.len() implies has_place(t, (#[trigger] s[k]).at as int) by {
            if k < n {
                assert(s[k] == front[k]);
                assert(has_place(had, front[k].at as int));
                let i = choose|i: int|
                    0 <= i < had.len() && (#[trigger] had[i]).at == front[k].at;
                assert(t[i] == had[i]);
            } else {
                assert(t[t.len() - 1].at == s[n].at);
            }
        }
        assert forall|i: int| 0 <= i < t.len() implies is_first_of_its_place(s, #[trigger] t[i]) by {
            if i < had.len() {
                assert(is_first_of_its_place(front, had[i]));
                let k = choose|k: int|
                    #![trigger front[k]]
                    0 <= k < front.len() && front[k] == had[i] && forall|j: int|
                        0 <= j < k ==> (#[trigger] front[j]).at < had[i].at;
                assert(s[k] == t[i]);
                assert forall|j: int| 0 <= j < k implies (#[trigger] s[j]).at < t[i].at by {
                    assert(front[j] == s[j]);
                }
            } else {
                assert(t[i] == s[n]);
                assert forall|j: int| 0 <= j < n implies (#[trigger] s[j]).at < t[i].at by {
                    assert(s[j].at <= s[n - 1].at);
                    assert(had.last().at == front.last().at);
                }
            }
        }
    }
}

/// Whether a stop stands in a place.
pub open spec fn has_place(s: Seq<Stop>, at: int) -> bool {
    exists|i: int| 0 <= i < s.len() && (#[trigger] s[i]).at == at
}

/// Whether a stop is one of `s` with none before it in its place.
pub open spec fn is_first_of_its_place(s: Seq<Stop>, x: Stop) -> bool {
    exists|k: int|
        #![trigger s[k]]
        0 <= k < s.len() && s[k] == x && forall|j: int| 0 <= j < k ==> (#[trigger] s[j]).at < x.at
}

proof fn digits_are_nibbles(s: Seq<char>)
    requires
        def::are_digits(s),
    ensures
        nibbles(s).len() == s.len(),
        forall|k: int|
            0 <= k < s.len() ==> (#[trigger] nibbles(s)[k]) == def::digit_value(s[k])->0,
    decreases s.len(),
{
    if s.len() > 0 {
        let front = s.drop_last();
        assert forall|i: int| 0 <= i < front.len() implies def::digit_value(#[trigger] front[i]) is Some by {
            assert(front[i] == s[i]);
        }
        digits_are_nibbles(front);
        assert(def::digit_value(s[s.len() - 1]) is Some);
        assert forall|k: int| 0 <= k < s.len() implies (#[trigger] nibbles(s)[k])
            == def::digit_value(s[k])->0 by {
            if k < front.len() {
                assert(nibbles(s)[k] == nibbles(front)[k]);
                assert(front[k] == s[k]);
            }
        }
    }
}

/// Entries stand one after another, six digits to each, or eight of which the
/// first two are passed over: red, green and blue, two digits to each.
pub proof fn entries_stand_one_after_another(s: Seq<char>, i: int)
    requires
        def::are_digits(s),
        0 <= i < 256,
    ensures
        s.len() == 1536 ==> (hex_entries(s) matches Some(e) && e.len() == 256 && is_written(
            e[i],
            s,
            6 * i,
        )),
        s.len() == 2048 ==> (hex_entries(s) matches Some(e) && e.len() == 256 && is_written(
            e[i],
            s,
            8 * i + 2,
        )),
        s.len() != 1536 && s.len() != 2048 ==> hex_entries(s) is None,
{
    digits_are_nibbles(s);
    let d = nibbles(s);
    assert forall|k: int| 0 <= k < s.len() implies def::digit_value(#[trigger] s[k]) is Some && d[k]
        == def::digit_value(s[k])->0 by {
        assert(nibbles(s)[k] == def::digit_value(s[k])->0);
    }
    if s.len() == 1536 {
        let at = 6 * i;
        assert(hex_entries(s)->0[i] == entry_at(d, at));
        assert(def::digit_value(s[at]) is Some && def::digit_value(s[at + 1]) is Some
            && def::digit_value(s[at + 2]) is Some && def::digit_value(s[at + 3]) is Some
            && def::digit_value(s[at + 4]) is Some && def::digit_value(s[at + 5]) is Some);
    }
    if s.len() == 2048 {
        let at = 8 * i + 2;
        assert(hex_entries(s)->0[i] == entry_at(d, at));
        assert(def::digit_value(s[at]) is Some && def::digit_value(s[at + 1]) is Some
            && def::digit_value(s[at + 2]) is Some && def::digit_value(s[at + 3]) is Some
            && def::digit_value(s[at + 4]) is Some && def::digit_value(s[at + 5]) is Some);
    }
}

/// Whether the six digits from `at` on are those of a colour.
pub open spec fn is_written(c: Ink, s: Seq<char>, at: int) -> bool {
    &&& def::piece(s, at, 2) == Some(c.red as nat)
    &&& def::piece(s, at + 2, 2) == Some(c.green as nat)
    &&& def::piece(s, at + 4, 2) == Some(c.blue as nat)
}

/// The gradient that is found under a name is the first that has it, in any
/// case.
pub proof fn the_first_of_a_name_is_found(found: Seq<PaletteModel>, name: Seq<char>, from: int)
    requires
        0 <= from,
    ensures
        match under_name(found, name, from) {
            Some(i) => from <= i < found.len() && is_called(found[i], name) && forall|k: int|
                from <= k < i ==> !is_called(#[trigger] found[k], name),
            None => forall|k: int|
                from <= k < found.len() ==> !is_called(#[trigger] found[k], name),
        },
    decreases found.len() - from,
{
    if from < found.len() {
        the_first_of_a_name_is_found(found, name, from + 1);
        assert(is_called(found[from], name) == (found[from].name matches Some(n) && text::lowered(n)
            == text::lowered(name)));
    }
}

/// Whether a palette is called by a name, in any case.
pub open spec fn is_called(p: PaletteModel, name: Seq<char>) -> bool {
    p.name is Some && text::lowered(p.name->0) == text::lowered(name)
}

/// A place is cut at its last hash into a path and a name; a hash at its beginning
/// is part of the path.
pub proof fn a_place_is_cut_at_the_last_hash(path: Seq<char>, name: Seq<char>)
    requires
        !name.contains('#'),
    ensures
        path.len() > 0 ==> place_of(path + seq!['#'] + name) == (path, Some(name)),
        place_of(name) == (name, None::<Seq<char>>),
        place_of(seq!['#'] + name) == (seq!['#'] + name, None::<Seq<char>>),
{
    filename::the_last_is_found(path, '#', name);
    filename::the_last_is_found(Seq::empty(), '#', name);
    let s = path + seq!['#'] + name;
    assert(s.take(path.len() as int) =~= path);
    assert(s.skip(path.len() as int + 1) =~= name);
    assert(Seq::empty() + seq!['#'] + name =~= seq!['#'] + name);
}

/// Without a name the first gradient is taken, and with one the first that has
/// it.
pub proof fn the_first_gradient_is_taken(
    path: Seq<char>,
    found: Seq<PaletteModel>,
    name: Seq<char>,
    i: int,
)
    requires
        0 <= i < found.len(),
        is_called(found[i], name),
        forall|k: int| 0 <= k < i ==> !is_called(#[trigger] found[k], name),
    ensures
        picked(path, None, found) == Ok::<PaletteModel, Seq<char>>(found[0]),
        picked(path, Some(name), found) == Ok::<PaletteModel, Seq<char>>(found[i]),
{
    the_first_of_a_name_is_found(found, name, 0);
    match under_name(found, name, 0) {
        Some(k) => {
            if k < i {
                assert(!is_called(found[k], name));
            }
        },
        None => {
            assert(!is_called(found[i], name));
        },
    }
}

} // verus!
