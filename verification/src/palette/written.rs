//! Written palettes are told apart: two tables that are written alike hold the
//! same.

use super::def::{
    colors_text, cosine_text, entry_lead, entry_rows, flag_of, flag_text, fraction_text, line_text,
    number_text, quoted, reading_text, source_text, stop_rows, stop_text, table_text, triple_text,
    ColorModel, StopModel, TableModel,
};
use super::Cosine;
use crate::offline::UNIT;
use crate::quantity::Point;
use crate::text;
use vstd::prelude::*;

verus! {

/// Whether a text is written between double quotes as it is.
pub open spec fn is_plainly_quoted(t: Seq<char>) -> bool {
    &&& quoted(t) == "\""@ + t + "\""@
    &&& forall|k: int| 0 <= k < t.len() ==> #[trigger] t[k] != '"'
}

/// Whether a stop's colour is a text that is written as it is.
pub open spec fn is_plain_stop(s: StopModel) -> bool {
    s.color matches ColorModel::Hex(h) && is_plainly_quoted(h)
}

/// Whether every text of a table is written as it is, and every colour is one.
pub open spec fn is_plain_table(d: TableModel) -> bool {
    &&& d.name matches Some(n) ==> is_plainly_quoted(n)
    &&& d.interpolate matches Some(i) ==> is_plainly_quoted(i.name_text())
    &&& d.stops matches Some(s) ==> forall|i: int|
        0 <= i < s.len() ==> is_plain_stop(#[trigger] s[i])
    &&& d.entries matches Some(e) ==> forall|i: int|
        0 <= i < e.len() ==> is_plainly_quoted(#[trigger] e[i])
}

// ---- runs of characters ----------------------------------------------------

proof fn fronts(a: Seq<char>, x: Seq<char>, b: Seq<char>, y: Seq<char>)
    requires
        a + x == b + y,
        a.len() == b.len(),
    ensures
        a == b,
        x == y,
{
    let (s, t) = (a + x, b + y);
    assert(a =~= s.take(a.len() as int));
    assert(b =~= t.take(b.len() as int));
    assert(x =~= s.skip(a.len() as int));
    assert(y =~= t.skip(b.len() as int));
}

proof fn is_digit_run(a: Seq<char>, x: Seq<char>, b: Seq<char>, y: Seq<char>)
    requires
        a + x == b + y,
        forall|k: int| 0 <= k < a.len() ==> '0' <= #[trigger] a[k] <= '9',
        forall|k: int| 0 <= k < b.len() ==> '0' <= #[trigger] b[k] <= '9',
        x.len() > 0 && !('0' <= x[0] <= '9'),
        y.len() > 0 && !('0' <= y[0] <= '9'),
    ensures
        a == b,
        x == y,
{
    let (s, t) = (a + x, b + y);
    assert(s[a.len() as int] == x[0]);
    assert(t[b.len() as int] == y[0]);
    if a.len() < b.len() {
        assert(t[a.len() as int] == b[a.len() as int]);
    }
    if b.len() < a.len() {
        assert(s[b.len() as int] == a[b.len() as int]);
    }
    fronts(a, x, b, y);
}

proof fn quotes_end(a: Seq<char>, x: Seq<char>, b: Seq<char>, y: Seq<char>)
    requires
        a + x == b + y,
        forall|k: int| 0 <= k < a.len() ==> #[trigger] a[k] != '"',
        forall|k: int| 0 <= k < b.len() ==> #[trigger] b[k] != '"',
        x.len() > 0 && x[0] == '"',
        y.len() > 0 && y[0] == '"',
    ensures
        a == b,
        x == y,
{
    let (s, t) = (a + x, b + y);
    assert(s[a.len() as int] == x[0]);
    assert(t[b.len() as int] == y[0]);
    if a.len() < b.len() {
        assert(t[a.len() as int] == b[a.len() as int]);
    }
    if b.len() < a.len() {
        assert(s[b.len() as int] == a[b.len() as int]);
    }
    fronts(a, x, b, y);
}

// ---- numbers ---------------------------------------------------------------

proof fn digits_differ(a: nat, b: nat)
    requires
        a < 10,
        b < 10,
        text::digit_char(a) == text::digit_char(b),
    ensures
        a == b,
{
}

proof fn decimal_tells(m: nat, n: nat)
    requires
        text::decimal(m) == text::decimal(n),
    ensures
        m == n,
    decreases m,
{
    crate::plain::digits_are_digits(m / 10);
    crate::plain::digits_are_digits(n / 10);
    let (a, b) = (text::decimal(m), text::decimal(n));
    assert(a.last() == b.last());
    if m < 10 {
        assert(a.len() == 1);
        if n >= 10 {
            assert(b.len() > 1);
        }
        digits_differ(m, n);
    } else {
        assert(a.len() > 1);
        assert(n >= 10);
        assert(a.drop_last() =~= text::decimal(m / 10));
        assert(b.drop_last() =~= text::decimal(n / 10));
        decimal_tells(m / 10, n / 10);
        digits_differ(m % 10, n % 10);
    }
}

proof fn padded_len(n: nat, width: nat)
    ensures
        text::digits_padded(n, width).len() == width,
        forall|k: int|
            0 <= k < width ==> '0' <= #[trigger] text::digits_padded(n, width)[k] <= '9',
    decreases width,
{
    if width > 0 {
        padded_len(n / 10, (width - 1) as nat);
    }
}

proof fn padded_tells(m: nat, n: nat, width: nat)
    requires
        text::digits_padded(m, width) == text::digits_padded(n, width),
        m < text::pow10(width),
        n < text::pow10(width),
    ensures
        m == n,
    decreases width,
{
    if width > 0 {
        let w = (width - 1) as nat;
        let (a, b) = (text::digits_padded(m, width), text::digits_padded(n, width));
        assert(a.last() == b.last());
        assert(a.drop_last() =~= text::digits_padded(m / 10, w));
        assert(b.drop_last() =~= text::digits_padded(n / 10, w));
        padded_tells(m / 10, n / 10, w);
        digits_differ(m % 10, n % 10);
    }
}

proof fn fraction_len(n: nat, width: nat)
    requires
        width >= 1,
    ensures
        1 <= fraction_text(n, width).len() <= width,
        forall|k: int|
            0 <= k < fraction_text(n, width).len() ==> '0' <= #[trigger] fraction_text(n, width)[k]
                <= '9',
    decreases width,
{
    padded_len(n, width);
    if width > 1 && n % 10 == 0 {
        fraction_len(n / 10, (width - 1) as nat);
    }
}

proof fn fraction_tells(m: nat, n: nat, width: nat)
    requires
        width >= 1,
        fraction_text(m, width) == fraction_text(n, width),
        m < text::pow10(width),
        n < text::pow10(width),
    ensures
        m == n,
    decreases width,
{
    padded_len(m, width);
    padded_len(n, width);
    if width > 1 {
        let w = (width - 1) as nat;
        fraction_len(m / 10, w);
        fraction_len(n / 10, w);
        if m % 10 == 0 && n % 10 == 0 {
            fraction_tells(m / 10, n / 10, w);
        } else if m % 10 != 0 && n % 10 != 0 {
            padded_tells(m, n, width);
        }
    } else {
        padded_tells(m, n, width);
    }
}

proof fn nine_digits()
    ensures
        text::pow10(9) == UNIT,
{
    reveal_with_fuel(text::pow10, 10);
}

/// Whether what follows a number ends it.
spec fn ends_number(r: Seq<char>) -> bool {
    r.len() > 0 && !('0' <= r[0] <= '9')
}

proof fn magnitudes_tell(m: nat, n: nat, ra: Seq<char>, rb: Seq<char>)
    requires
        text::decimal(m / UNIT as nat) + ("."@ + (fraction_text(m % UNIT as nat, 9) + ra))
            == text::decimal(n / UNIT as nat) + ("."@ + (fraction_text(n % UNIT as nat, 9) + rb)),
        ends_number(ra),
        ends_number(rb),
    ensures
        m == n,
        ra == rb,
{
    reveal_strlit(".");
    nine_digits();
    let u = UNIT as nat;
    crate::plain::digits_are_digits(m / u);
    crate::plain::digits_are_digits(n / u);
    fraction_len(m % u, 9);
    fraction_len(n % u, 9);
    let (fa, fb) = (fraction_text(m % u, 9) + ra, fraction_text(n % u, 9) + rb);
    is_digit_run(text::decimal(m / u), "."@ + fa, text::decimal(n / u), "."@ + fb);
    fronts("."@, fa, "."@, fb);
    is_digit_run(fraction_text(m % u, 9), ra, fraction_text(n % u, 9), rb);
    decimal_tells(m / u, n / u);
    fraction_tells(m % u, n % u, 9);
}

proof fn numbers_tell(v: int, w: int, ra: Seq<char>, rb: Seq<char>)
    requires
        number_text(v) + ra == number_text(w) + rb,
        ends_number(ra),
        ends_number(rb),
    ensures
        v == w,
        ra == rb,
{
    reveal_strlit("-");
    reveal_strlit("");
    let u = UNIT as nat;
    let (m, n) = (text::magnitude_of(v), text::magnitude_of(w));
    crate::plain::digits_are_digits(m / u);
    crate::plain::digits_are_digits(n / u);
    let ta = text::decimal(m / u) + ("."@ + (fraction_text(m % u, 9) + ra));
    let tb = text::decimal(n / u) + ("."@ + (fraction_text(n % u, 9) + rb));
    let (s, t) = (number_text(v) + ra, number_text(w) + rb);
    if v < 0 {
        assert(s =~= "-"@ + ta);
        assert(s[0] == '-');
    } else {
        assert(s =~= ta);
        assert(s[0] == text::decimal(m / u)[0]);
    }
    if w < 0 {
        assert(t =~= "-"@ + tb);
        assert(t[0] == '-');
    } else {
        assert(t =~= tb);
        assert(t[0] == text::decimal(n / u)[0]);
    }
    if v < 0 {
        fronts("-"@, ta, "-"@, tb);
    }
    magnitudes_tell(m, n, ra, rb);
}

/// What is written before a text, the text, and what follows it.
spec fn led(l: Seq<char>, t: Seq<char>, r: Seq<char>) -> Seq<char> {
    l + (t + r)
}

proof fn led_numbers_tell(l: Seq<char>, v: int, w: int, ra: Seq<char>, rb: Seq<char>)
    requires
        led(l, number_text(v), ra) == led(l, number_text(w), rb),
        ends_number(ra),
        ends_number(rb),
    ensures
        v == w,
        ra == rb,
{
    fronts(l, number_text(v) + ra, l, number_text(w) + rb);
    numbers_tell(v, w, ra, rb);
}

proof fn three_led(
    l: (Seq<char>, Seq<char>, Seq<char>),
    t: (Seq<char>, Seq<char>, Seq<char>),
    z: Seq<char>,
    r: Seq<char>,
)
    ensures
        l.0 + t.0 + l.1 + t.1 + l.2 + t.2 + z + r == led(
            l.0,
            t.0,
            led(l.1, t.1, led(l.2, t.2, z + r)),
        ),
{
    assert(l.0 + t.0 + l.1 + t.1 + l.2 + t.2 + z + r =~= led(
        l.0,
        t.0,
        led(l.1, t.1, led(l.2, t.2, z + r)),
    ));
}

proof fn a_comma_ends(t: Seq<char>, r: Seq<char>)
    ensures
        ends_number(led(", "@, t, r)),
        ends_number("]"@ + r),
{
    reveal_strlit(", ");
    reveal_strlit("]");
}

proof fn triples_tell(p: Point, q: Point, ra: Seq<char>, rb: Seq<char>)
    requires
        triple_text(p) + ra == triple_text(q) + rb,
    ensures
        p == q,
        ra == rb,
{
    let l = ("["@, ", "@, ", "@);
    let z = "]"@;
    let t = (number_text(p.x as int), number_text(p.y as int), number_text(p.z as int));
    let u = (number_text(q.x as int), number_text(q.y as int), number_text(q.z as int));
    three_led(l, t, z, ra);
    three_led(l, u, z, rb);
    let (za, zb) = (led(l.2, t.2, z + ra), led(l.2, u.2, z + rb));
    let (ya, yb) = (led(l.1, t.1, za), led(l.1, u.1, zb));
    a_comma_ends(t.1, za);
    a_comma_ends(u.1, zb);
    a_comma_ends(t.2, z + ra);
    a_comma_ends(u.2, z + rb);
    a_comma_ends(t.2, ra);
    a_comma_ends(u.2, rb);
    led_numbers_tell(l.0, p.x as int, q.x as int, ya, yb);
    led_numbers_tell(l.1, p.y as int, q.y as int, za, zb);
    led_numbers_tell(l.2, p.z as int, q.z as int, z + ra, z + rb);
    fronts(z, ra, z, rb);
}

proof fn quotes_tell(s: Seq<char>, t: Seq<char>, ra: Seq<char>, rb: Seq<char>)
    requires
        is_plainly_quoted(s),
        is_plainly_quoted(t),
        quoted(s) + ra == quoted(t) + rb,
    ensures
        s == t,
        ra == rb,
{
    reveal_strlit("\"");
    assert(quoted(s) + ra =~= "\""@ + (s + ("\""@ + ra)));
    assert(quoted(t) + rb =~= "\""@ + (t + ("\""@ + rb)));
    fronts("\""@, s + ("\""@ + ra), "\""@, t + ("\""@ + rb));
    quotes_end(s, "\""@ + ra, t, "\""@ + rb);
    fronts("\""@, ra, "\""@, rb);
}

proof fn flags_tell(a: bool, b: bool, ra: Seq<char>, rb: Seq<char>)
    requires
        flag_text(a) + ra == flag_text(b) + rb,
    ensures
        a == b,
        ra == rb,
{
    reveal_strlit("true");
    reveal_strlit("false");
    assert((flag_text(a) + ra)[0] == flag_text(a)[0]);
    assert((flag_text(b) + rb)[0] == flag_text(b)[0]);
    fronts(flag_text(a), ra, flag_text(b), rb);
}

// ---- colours ---------------------------------------------------------------

proof fn stops_tell_one(s: StopModel, t: StopModel, ra: Seq<char>, rb: Seq<char>)
    requires
        is_plain_stop(s),
        is_plain_stop(t),
        stop_text(s) + ra == stop_text(t) + rb,
    ensures
        s == t,
        ra == rb,
{
    reveal_strlit("{ at = ");
    reveal_strlit(", color = ");
    reveal_strlit(" }");
    let (h, k) = (s.color->Hex_0, t.color->Hex_0);
    let (ea, eb) = (" }"@ + ra, " }"@ + rb);
    let (ca, cb) = (", color = "@ + (quoted(h) + ea), ", color = "@ + (quoted(k) + eb));
    let (na, nb) = (number_text(s.at as int), number_text(t.at as int));
    assert(stop_text(s) + ra =~= "{ at = "@ + (na + ca));
    assert(stop_text(t) + rb =~= "{ at = "@ + (nb + cb));
    fronts("{ at = "@, na + ca, "{ at = "@, nb + cb);
    numbers_tell(s.at as int, t.at as int, ca, cb);
    fronts(", color = "@, quoted(h) + ea, ", color = "@, quoted(k) + eb);
    quotes_tell(h, k, ea, eb);
    fronts(" }"@, ra, " }"@, rb);
}

spec fn stop_lead(i: int) -> Seq<char> {
    if i == 0 {
        "\n    "@
    } else {
        ",\n    "@
    }
}

/// The stops from the `i`th on, and what follows them.
spec fn stops_from(s: Seq<StopModel>, i: int, r: Seq<char>) -> Seq<char>
    decreases s.len() - i,
{
    if i >= s.len() || i < 0 {
        r
    } else {
        stop_lead(i) + (stop_text(s[i]) + stops_from(s, i + 1, r))
    }
}

proof fn stops_split(s: Seq<StopModel>, n: nat, r: Seq<char>)
    requires
        n <= s.len(),
    ensures
        stop_rows(s, n) + stops_from(s, n as int, r) == stops_from(s, 0, r),
    decreases n,
{
    reveal_strlit("");
    if n == 0 {
        assert(stop_rows(s, 0) + stops_from(s, 0, r) =~= stops_from(s, 0, r));
    } else {
        let m = (n - 1) as nat;
        stops_split(s, m, r);
        assert(stop_rows(s, n) + stops_from(s, n as int, r) =~= stop_rows(s, m) + stops_from(
            s,
            m as int,
            r,
        ));
    }
}

proof fn stops_tell(s: Seq<StopModel>, t: Seq<StopModel>, i: int, ra: Seq<char>, rb: Seq<char>)
    requires
        0 <= i <= s.len(),
        i <= t.len(),
        forall|k: int| 0 <= k < s.len() ==> is_plain_stop(#[trigger] s[k]),
        forall|k: int| 0 <= k < t.len() ==> is_plain_stop(#[trigger] t[k]),
        stops_from(s, i, "\n]"@ + ra) == stops_from(t, i, "\n]"@ + rb),
    ensures
        s.len() == t.len(),
        forall|k: int| i <= k < s.len() ==> #[trigger] s[k] == t[k],
        ra == rb,
    decreases s.len() - i,
{
    reveal_strlit("\n    ");
    reveal_strlit(",\n    ");
    reveal_strlit("\n]");
    let (a, b) = (stops_from(s, i, "\n]"@ + ra), stops_from(t, i, "\n]"@ + rb));
    if i < s.len() {
        assert(a[0] == stop_lead(i)[0] && a[1] == stop_lead(i)[1]);
    } else {
        assert(a[0] == '\n' && a[1] == ']');
    }
    if i < t.len() {
        assert(b[0] == stop_lead(i)[0] && b[1] == stop_lead(i)[1]);
    } else {
        assert(b[0] == '\n' && b[1] == ']');
    }
    if i < s.len() {
        assert(i < t.len());
        let (xa, xb) = (stops_from(s, i + 1, "\n]"@ + ra), stops_from(t, i + 1, "\n]"@ + rb));
        fronts(stop_lead(i), stop_text(s[i]) + xa, stop_lead(i), stop_text(t[i]) + xb);
        stops_tell_one(s[i], t[i], xa, xb);
        stops_tell(s, t, i + 1, ra, rb);
    } else {
        fronts("\n]"@, ra, "\n]"@, rb);
    }
}

/// The entries from the `i`th on, and what follows them.
spec fn entries_from(e: Seq<Seq<char>>, i: int, r: Seq<char>) -> Seq<char>
    decreases e.len() - i,
{
    if i >= e.len() || i < 0 {
        r
    } else {
        entry_lead(i as nat) + (quoted(e[i]) + entries_from(e, i + 1, r))
    }
}

proof fn entries_split(e: Seq<Seq<char>>, n: nat, r: Seq<char>)
    requires
        n <= e.len(),
    ensures
        entry_rows(e, n) + entries_from(e, n as int, r) == entries_from(e, 0, r),
    decreases n,
{
    reveal_strlit("");
    if n == 0 {
        assert(entry_rows(e, 0) + entries_from(e, 0, r) =~= entries_from(e, 0, r));
    } else {
        let m = (n - 1) as nat;
        entries_split(e, m, r);
        assert(entry_rows(e, n) + entries_from(e, n as int, r) =~= entry_rows(e, m) + entries_from(
            e,
            m as int,
            r,
        ));
    }
}

proof fn entries_tell(s: Seq<Seq<char>>, t: Seq<Seq<char>>, i: int, ra: Seq<char>, rb: Seq<char>)
    requires
        0 <= i <= s.len(),
        i <= t.len(),
        forall|k: int| 0 <= k < s.len() ==> is_plainly_quoted(#[trigger] s[k]),
        forall|k: int| 0 <= k < t.len() ==> is_plainly_quoted(#[trigger] t[k]),
        entries_from(s, i, "\n]"@ + ra) == entries_from(t, i, "\n]"@ + rb),
    ensures
        s.len() == t.len(),
        forall|k: int| i <= k < s.len() ==> #[trigger] s[k] == t[k],
        ra == rb,
    decreases s.len() - i,
{
    reveal_strlit("\n    ");
    reveal_strlit(",\n    ");
    reveal_strlit(", ");
    reveal_strlit("\n]");
    let (a, b) = (entries_from(s, i, "\n]"@ + ra), entries_from(t, i, "\n]"@ + rb));
    let lead = entry_lead(i as nat);
    if i < s.len() {
        assert(a[0] == lead[0] && a[1] == lead[1]);
    } else {
        assert(a[0] == '\n' && a[1] == ']');
    }
    if i < t.len() {
        assert(b[0] == lead[0] && b[1] == lead[1]);
    } else {
        assert(b[0] == '\n' && b[1] == ']');
    }
    if i < s.len() {
        assert(i < t.len());
        let (xa, xb) = (entries_from(s, i + 1, "\n]"@ + ra), entries_from(t, i + 1, "\n]"@ + rb));
        fronts(lead, quoted(s[i]) + xa, lead, quoted(t[i]) + xb);
        quotes_tell(s[i], t[i], xa, xb);
        entries_tell(s, t, i + 1, ra, rb);
    } else {
        fronts("\n]"@, ra, "\n]"@, rb);
    }
}

proof fn led_triples_tell(l: Seq<char>, p: Point, q: Point, ra: Seq<char>, rb: Seq<char>)
    requires
        led(l, triple_text(p), ra) == led(l, triple_text(q), rb),
    ensures
        p == q,
        ra == rb,
{
    fronts(l, triple_text(p) + ra, l, triple_text(q) + rb);
    triples_tell(p, q, ra, rb);
}

proof fn four_led(
    l: (Seq<char>, Seq<char>, Seq<char>, Seq<char>),
    t: (Seq<char>, Seq<char>, Seq<char>, Seq<char>),
    z: Seq<char>,
    r: Seq<char>,
)
    ensures
        l.0 + t.0 + l.1 + t.1 + l.2 + t.2 + l.3 + t.3 + z + r == led(
            l.0,
            t.0,
            led(l.1, t.1, led(l.2, t.2, led(l.3, t.3, z + r))),
        ),
{
    assert(l.0 + t.0 + l.1 + t.1 + l.2 + t.2 + l.3 + t.3 + z + r =~= led(
        l.0,
        t.0,
        led(l.1, t.1, led(l.2, t.2, led(l.3, t.3, z + r))),
    ));
}

proof fn cosines_tell(c: Cosine, e: Cosine, ra: Seq<char>, rb: Seq<char>)
    requires
        cosine_text(c) + ra == cosine_text(e) + rb,
    ensures
        c == e,
        ra == rb,
{
    let l = ("{ a = "@, ", b = "@, ", c = "@, ", d = "@);
    let z = " }"@;
    let t = (triple_text(c.a), triple_text(c.b), triple_text(c.c), triple_text(c.d));
    let u = (triple_text(e.a), triple_text(e.b), triple_text(e.c), triple_text(e.d));
    four_led(l, t, z, ra);
    four_led(l, u, z, rb);
    let (da, db) = (led(l.3, t.3, z + ra), led(l.3, u.3, z + rb));
    let (ca, cb) = (led(l.2, t.2, da), led(l.2, u.2, db));
    let (ba, bb) = (led(l.1, t.1, ca), led(l.1, u.1, cb));
    led_triples_tell(l.0, c.a, e.a, ba, bb);
    led_triples_tell(l.1, c.b, e.b, ca, cb);
    led_triples_tell(l.2, c.c, e.c, da, db);
    led_triples_tell(l.3, c.d, e.d, z + ra, z + rb);
    fronts(z, ra, z, rb);
}

// ---- lines -----------------------------------------------------------------

/// Which line of a table a text begins with, by the first letters of its key;
/// a number past them all where it begins with none.
spec fn place(t: Seq<char>) -> int {
    if t.len() < 3 {
        10
    } else if t[0] == 'n' {
        1
    } else if t[0] == 'e' && t[2] == 'a' {
        2
    } else if t[0] == 'c' && t[1] == 'y' {
        3
    } else if t[0] == 'i' {
        4
    } else if t[0] == 'r' && t[1] == 'o' {
        5
    } else if t[0] == 'r' {
        6
    } else if t[0] == 's' {
        7
    } else if t[0] == 'c' {
        8
    } else if t[0] == 'e' {
        9
    } else {
        10
    }
}

spec fn key(i: int) -> Seq<char> {
    if i == 1 {
        "name"@
    } else if i == 2 {
        "enabled"@
    } else if i == 3 {
        "cyclic"@
    } else if i == 4 {
        "interpolate"@
    } else if i == 5 {
        "rotate"@
    } else if i == 6 {
        "reverse"@
    } else if i == 7 {
        "stops"@
    } else if i == 8 {
        "cosine"@
    } else {
        "entries"@
    }
}

proof fn keys_have_places(i: int, r: Seq<char>)
    requires
        1 <= i <= 9,
    ensures
        place(key(i) + r) == i,
{
    reveal_strlit("name");
    reveal_strlit("enabled");
    reveal_strlit("cyclic");
    reveal_strlit("interpolate");
    reveal_strlit("rotate");
    reveal_strlit("reverse");
    reveal_strlit("stops");
    reveal_strlit("cosine");
    reveal_strlit("entries");
    let t = key(i) + r;
    assert(t[0] == key(i)[0] && t[1] == key(i)[1] && t[2] == key(i)[2]);
}

/// What a line sets its key to.
spec fn value(d: TableModel, i: int) -> Option<Seq<char>> {
    if i == 1 {
        match d.name {
            Some(n) => Some(quoted(n)),
            None => None,
        }
    } else if i == 2 {
        flag_of(d.enabled)
    } else if i == 3 {
        flag_of(d.cyclic)
    } else if i == 4 {
        match d.interpolate {
            Some(n) => Some(quoted(n.name_text())),
            None => None,
        }
    } else if i == 5 {
        match d.rotate {
            Some(v) => Some(number_text(v as int)),
            None => None,
        }
    } else if i == 6 {
        flag_of(d.reverse)
    } else if i == 7 {
        match d.stops {
            Some(s) => Some("["@ + stop_rows(s, s.len()) + "\n]"@),
            None => None,
        }
    } else if i == 8 {
        match d.cosine {
            Some(c) => Some(cosine_text(c)),
            None => None,
        }
    } else {
        match d.entries {
            Some(e) => Some("["@ + entry_rows(e, e.len()) + "\n]"@),
            None => None,
        }
    }
}

/// The lines of a table from the `i`th on.
spec fn lines_from(d: TableModel, i: int) -> Seq<char>
    decreases 10 - i,
{
    if i > 9 {
        Seq::empty()
    } else {
        line_text(key(i), value(d, i)) + lines_from(d, i + 1)
    }
}

proof fn a_table_is_its_lines(d: TableModel)
    ensures
        table_text(d) == lines_from(d, 1),
{
    let l = |i: int| line_text(key(i), value(d, i));
    reveal_with_fuel(lines_from, 10);
    assert(source_text(d) == l(1) + l(2) + l(3));
    assert(reading_text(d) == l(4) + l(5) + l(6));
    assert(colors_text(d) == l(7) + l(8) + l(9));
    nine(l(1), l(2), l(3), l(4), l(5), l(6), l(7), l(8), l(9));
}

proof fn nine(
    a: Seq<char>,
    b: Seq<char>,
    c: Seq<char>,
    d: Seq<char>,
    e: Seq<char>,
    f: Seq<char>,
    g: Seq<char>,
    h: Seq<char>,
    i: Seq<char>,
)
    ensures
        (a + b + c) + (d + e + f) + (g + h + i) == a + (b + (c + (d + (e + (f + (g + (h + (i
            + Seq::<char>::empty())))))))),
{
    assert((a + b + c) + (d + e + f) + (g + h + i) =~= a + (b + (c + (d + (e + (f + (g + (h + (i
        + Seq::<char>::empty())))))))));
}

proof fn a_line_leads(i: int, v: Option<Seq<char>>, r: Seq<char>)
    ensures
        line_text(key(i), v) + r == (match v {
            Some(x) => key(i) + (" = "@ + (x + ("\n"@ + r))),
            None => r,
        }),
{
    reveal_strlit("");
    match v {
        Some(x) => {
            assert(line_text(key(i), v) + r =~= key(i) + (" = "@ + (x + ("\n"@ + r))));
        },
        None => {
            assert(line_text(key(i), v) + r =~= r);
        },
    }
}

proof fn lines_keep_their_order(d: TableModel, i: int)
    requires
        1 <= i <= 10,
    ensures
        place(lines_from(d, i)) >= i,
    decreases 10 - i,
{
    if i <= 9 {
        lines_keep_their_order(d, i + 1);
        let r = lines_from(d, i + 1);
        a_line_leads(i, value(d, i), r);
        match value(d, i) {
            Some(x) => keys_have_places(i, " = "@ + (x + ("\n"@ + r))),
            None => {},
        }
    }
}

/// Where the lines from the `i`th on are alike, either both tables set the
/// `i`th key or neither does.
proof fn a_line_tells(d: TableModel, e: TableModel, i: int)
    requires
        1 <= i <= 9,
        lines_from(d, i) == lines_from(e, i),
    ensures
        value(d, i) is Some <==> value(e, i) is Some,
        value(d, i) is Some ==> value(d, i)->0 + ("\n"@ + lines_from(d, i + 1)) == value(e, i)->0
            + ("\n"@ + lines_from(e, i + 1)),
        value(d, i) is None ==> lines_from(d, i + 1) == lines_from(e, i + 1),
{
    let (ra, rb) = (lines_from(d, i + 1), lines_from(e, i + 1));
    a_line_leads(i, value(d, i), ra);
    a_line_leads(i, value(e, i), rb);
    lines_keep_their_order(d, i + 1);
    lines_keep_their_order(e, i + 1);
    match value(d, i) {
        Some(x) => {
            keys_have_places(i, " = "@ + (x + ("\n"@ + ra)));
        },
        None => {},
    }
    match value(e, i) {
        Some(y) => {
            keys_have_places(i, " = "@ + (y + ("\n"@ + rb)));
        },
        None => {},
    }
    if value(d, i) is Some {
        let (x, y) = (value(d, i)->0 + ("\n"@ + ra), value(e, i)->0 + ("\n"@ + rb));
        fronts(key(i), " = "@ + x, key(i), " = "@ + y);
        fronts(" = "@, x, " = "@, y);
    }
}

proof fn source_tells(d: TableModel, e: TableModel)
    requires
        is_plain_table(d),
        is_plain_table(e),
        lines_from(d, 1) == lines_from(e, 1),
    ensures
        d.name == e.name,
        d.enabled == e.enabled,
        d.cyclic == e.cyclic,
        lines_from(d, 4) == lines_from(e, 4),
{
    let (a, b) = (|i: int| "\n"@ + lines_from(d, i), |i: int| "\n"@ + lines_from(e, i));
    a_line_tells(d, e, 1);
    if d.name is Some {
        quotes_tell(d.name->0, e.name->0, a(2), b(2));
        fronts("\n"@, lines_from(d, 2), "\n"@, lines_from(e, 2));
    }
    a_line_tells(d, e, 2);
    if d.enabled is Some {
        flags_tell(d.enabled->0, e.enabled->0, a(3), b(3));
        fronts("\n"@, lines_from(d, 3), "\n"@, lines_from(e, 3));
    }
    a_line_tells(d, e, 3);
    if d.cyclic is Some {
        flags_tell(d.cyclic->0, e.cyclic->0, a(4), b(4));
        fronts("\n"@, lines_from(d, 4), "\n"@, lines_from(e, 4));
    }
}

proof fn reading_tells(d: TableModel, e: TableModel)
    requires
        is_plain_table(d),
        is_plain_table(e),
        lines_from(d, 4) == lines_from(e, 4),
    ensures
        d.interpolate == e.interpolate,
        d.rotate == e.rotate,
        d.reverse == e.reverse,
        lines_from(d, 7) == lines_from(e, 7),
{
    reveal_strlit("\n");
    reveal_strlit("rgb");
    reveal_strlit("oklab");
    let (a, b) = (|i: int| "\n"@ + lines_from(d, i), |i: int| "\n"@ + lines_from(e, i));
    a_line_tells(d, e, 4);
    if d.interpolate is Some {
        let (m, n) = ((d.interpolate->0).name_text(), (e.interpolate->0).name_text());
        quotes_tell(m, n, a(5), b(5));
        assert(m.len() == n.len());
        fronts("\n"@, lines_from(d, 5), "\n"@, lines_from(e, 5));
    }
    a_line_tells(d, e, 5);
    if d.rotate is Some {
        numbers_tell(d.rotate->0 as int, e.rotate->0 as int, a(6), b(6));
        fronts("\n"@, lines_from(d, 6), "\n"@, lines_from(e, 6));
    }
    a_line_tells(d, e, 6);
    if d.reverse is Some {
        flags_tell(d.reverse->0, e.reverse->0, a(7), b(7));
        fronts("\n"@, lines_from(d, 7), "\n"@, lines_from(e, 7));
    }
}

proof fn stop_lists_tell(s: Seq<StopModel>, t: Seq<StopModel>, ra: Seq<char>, rb: Seq<char>)
    requires
        forall|k: int| 0 <= k < s.len() ==> is_plain_stop(#[trigger] s[k]),
        forall|k: int| 0 <= k < t.len() ==> is_plain_stop(#[trigger] t[k]),
        "["@ + stop_rows(s, s.len()) + "\n]"@ + ra == "["@ + stop_rows(t, t.len()) + "\n]"@ + rb,
    ensures
        s == t,
        ra == rb,
{
    let (xa, xb) = ("\n]"@ + ra, "\n]"@ + rb);
    let (ya, yb) = (stop_rows(s, s.len()) + xa, stop_rows(t, t.len()) + xb);
    assert("["@ + stop_rows(s, s.len()) + "\n]"@ + ra =~= "["@ + ya);
    assert("["@ + stop_rows(t, t.len()) + "\n]"@ + rb =~= "["@ + yb);
    fronts("["@, ya, "["@, yb);
    stops_split(s, s.len(), xa);
    stops_split(t, t.len(), xb);
    stops_tell(s, t, 0, ra, rb);
    assert(s =~= t);
}

proof fn entry_lists_tell(s: Seq<Seq<char>>, t: Seq<Seq<char>>, ra: Seq<char>, rb: Seq<char>)
    requires
        forall|k: int| 0 <= k < s.len() ==> is_plainly_quoted(#[trigger] s[k]),
        forall|k: int| 0 <= k < t.len() ==> is_plainly_quoted(#[trigger] t[k]),
        "["@ + entry_rows(s, s.len()) + "\n]"@ + ra == "["@ + entry_rows(t, t.len()) + "\n]"@ + rb,
    ensures
        s == t,
        ra == rb,
{
    let (xa, xb) = ("\n]"@ + ra, "\n]"@ + rb);
    let (ya, yb) = (entry_rows(s, s.len()) + xa, entry_rows(t, t.len()) + xb);
    assert("["@ + entry_rows(s, s.len()) + "\n]"@ + ra =~= "["@ + ya);
    assert("["@ + entry_rows(t, t.len()) + "\n]"@ + rb =~= "["@ + yb);
    fronts("["@, ya, "["@, yb);
    entries_split(s, s.len(), xa);
    entries_split(t, t.len(), xb);
    entries_tell(s, t, 0, ra, rb);
    assert(s =~= t);
}

proof fn colors_tell(d: TableModel, e: TableModel)
    requires
        is_plain_table(d),
        is_plain_table(e),
        lines_from(d, 7) == lines_from(e, 7),
    ensures
        d.stops == e.stops,
        d.cosine == e.cosine,
        d.entries == e.entries,
{
    let (a, b) = (|i: int| "\n"@ + lines_from(d, i), |i: int| "\n"@ + lines_from(e, i));
    a_line_tells(d, e, 7);
    if d.stops is Some {
        stop_lists_tell(d.stops->0, e.stops->0, a(8), b(8));
        fronts("\n"@, lines_from(d, 8), "\n"@, lines_from(e, 8));
    }
    a_line_tells(d, e, 8);
    if d.cosine is Some {
        cosines_tell(d.cosine->0, e.cosine->0, a(9), b(9));
        fronts("\n"@, lines_from(d, 9), "\n"@, lines_from(e, 9));
    }
    a_line_tells(d, e, 9);
    if d.entries is Some {
        entry_lists_tell(d.entries->0, e.entries->0, a(10), b(10));
    }
}

/// A written table can be read back in one way only: two tables that are
/// written alike hold the same, where their texts are written as they are.
pub proof fn a_written_table_holds_one_palette(d: TableModel, e: TableModel)
    ensures
        is_plain_table(d) && is_plain_table(e) && table_text(d) == table_text(e) ==> d == e,
{
    if is_plain_table(d) && is_plain_table(e) && table_text(d) == table_text(e) {
        a_table_is_its_lines(d);
        a_table_is_its_lines(e);
        source_tells(d, e);
        reading_tells(d, e);
        colors_tell(d, e);
    }
}

} // verus!
