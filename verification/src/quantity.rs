//! How a quantity is written: one function per kind, so that a position
//! always looks like a position and an angle always carries its unit.
//!
//! Real numbers are integers in units of `1 / UNIT`. Every writer is fixed
//! width and right aligned, which makes the decimal points line up, and the
//! sign has a column of its own.

use crate::num;
use crate::offline::UNIT;
use crate::text;
use vstd::prelude::*;

verus! {

/// A position or a direction.
#[derive(Clone, Copy, Debug, PartialEq, Eq, Structural)]
pub struct Point {
    pub x: i64,
    pub y: i64,
    pub z: i64,
}

/// A colour as it is shown: eight bits a channel, encoded, and the relative
/// luminance of the light it stands for.
#[derive(Clone, Copy, Debug, PartialEq, Eq, Structural)]
pub struct Color {
    pub red: u8,
    pub green: u8,
    pub blue: u8,
    pub luminance: i64,
}

/// `v` to `decimals` places.
pub open spec fn plain_text(v: int, decimals: nat) -> Seq<char> {
    num::single_text(v, UNIT as nat, decimals)
}

/// `v` to `decimals` places, right aligned in `width` columns.
pub open spec fn fixed_text(v: int, decimals: nat, width: nat) -> Seq<char> {
    text::padded_left(plain_text(v, decimals), width)
}

/// `(x, y, z)` to three places.
pub open spec fn point_text(p: Point) -> Seq<char> {
    "("@ + fixed_text(p.x as int, 3, 6) + ", "@ + fixed_text(p.y as int, 3, 6) + ", "@ + fixed_text(
        p.z as int,
        3,
        6,
    ) + ")"@
}

/// Degrees in a radian, times ten to the fifteenth.
pub const DEGREES: u64 = 57_295_779_513_082_321;

/// Ten to the fifteenth, times `UNIT`.
pub const DEGREE_UNIT: u128 = 1_000_000_000_000_000_000_000_000;

/// A number below `limit` in size, taken as zero.
pub open spec fn snapped(v: int, limit: int) -> int {
    if -limit < v < limit {
        0
    } else {
        v
    }
}

/// An angle in radians as so many `1 / DEGREE_UNIT` of a degree: nothing where
/// it is less than a twentieth of a degree.
pub open spec fn degrees_of(radians: int) -> int {
    snapped(radians * DEGREES, 50_000_000_000_000_000_000_000)
}

/// An angle in degrees to `decimals` places, right aligned in `width` columns.
pub open spec fn degrees_text(radians: int, decimals: nat, width: nat) -> Seq<char> {
    text::padded_left(
        text::signed_ratio_text(degrees_of(radians), DEGREE_UNIT as nat, decimals),
        width,
    )
}

/// An angle in radians, with the degrees alongside: flat zero below what four
/// places show.
pub open spec fn angle_text(radians: int) -> Seq<char> {
    let r = snapped(radians, 50_000);
    fixed_text(r, 4, 8) + " rad ("@ + degrees_text(r, 1, 6) + "\u{b0})"@
}

/// A point count at a glance.
pub open spec fn magnitude_text(n: nat) -> Seq<char> {
    if n >= 1_000_000 {
        num::float_text(num::held(n, num::DOUBLE as nat), 1_000_000, num::DOUBLE as nat, 1) + "M"@
    } else if n >= 10_000 {
        text::decimal(n / 1000) + "k"@
    } else {
        text::decimal(n)
    }
}

/// Append `v` to `decimals` places.
pub fn push_plain(out: &mut String, v: i64, decimals: usize)
    requires
        decimals <= 18,
    ensures
        final(out)@ == old(out)@ + plain_text(v as int, decimals as nat),
{
    num::push_single(out, v, UNIT, decimals);
}

/// Append `v` to `decimals` places, right aligned in `width` columns.
pub fn push_fixed(out: &mut String, v: i64, decimals: usize, width: usize)
    requires
        decimals <= 18,
    ensures
        final(out)@ == old(out)@ + fixed_text(v as int, decimals as nat, width as nat),
{
    let mut s = String::new();
    push_plain(&mut s, v, decimals);
    assert(s@ =~= plain_text(v as int, decimals as nat));
    text::push_padded_left(out, s.as_str(), width);
}

/// `v` to `decimals` places, right aligned in `width` columns.
pub fn fixed(v: i64, decimals: usize, width: usize) -> (s: String)
    requires
        decimals <= 18,
    ensures
        s@ == fixed_text(v as int, decimals as nat, width as nat),
{
    let mut s = String::new();
    push_fixed(&mut s, v, decimals, width);
    assert(s@ =~= fixed_text(v as int, decimals as nat, width as nat));
    s
}

/// A position or direction: three places and always three components.
pub fn point(p: Point) -> (s: String)
    ensures
        s@ == point_text(p),
{
    let mut s = String::new();
    s.append("(");
    push_fixed(&mut s, p.x, 3, 6);
    s.append(", ");
    push_fixed(&mut s, p.y, 3, 6);
    s.append(", ");
    push_fixed(&mut s, p.z, 3, 6);
    s.append(")");
    assert(s@ =~= point_text(p));
    s
}

/// Three places take six columns, as far as the number and its sign have room
/// in them.
proof fn three_places_take_six_columns(v: int)
    requires
        -9_999_000_000 <= v <= 99_999_000_000,
    ensures
        fixed_text(v, 3, 6).len() == 6,
{
    let held = num::single(text::magnitude_of(v), UNIT as nat);
    let units = text::round_half_even(held.0 * 1000, held.1);
    assert(text::pow10(3) == 1000) by {
        reveal_with_fuel(text::pow10, 4);
    }
    num::a_single_stays_within(
        text::magnitude_of(v),
        UNIT as nat,
        if v < 0 {
            9_999
        } else {
            99_999
        },
    );
    assert(text::digits_padded(units, 3).len() == 3) by {
        reveal_with_fuel(text::digits_padded, 4);
    }
    let whole = units / 1000;
    assert(1 <= text::decimal(whole).len() <= 2 && (whole < 10 ==> text::decimal(whole).len() == 1))
        by {
        reveal_with_fuel(text::decimal, 3);
    }
    assert(plain_text(v, 3).len() <= 6);
}

/// A point is 24 columns wide whatever its signs and zeros, up to the numbers
/// that six columns hold.
pub proof fn points_line_up(p: Point)
    requires
        -9_999_000_000 <= p.x <= 99_999_000_000,
        -9_999_000_000 <= p.y <= 99_999_000_000,
        -9_999_000_000 <= p.z <= 99_999_000_000,
    ensures
        point_text(p).len() == 24,
{
    reveal_strlit("(");
    reveal_strlit(", ");
    reveal_strlit(")");
    three_places_take_six_columns(p.x as int);
    three_places_take_six_columns(p.y as int);
    three_places_take_six_columns(p.z as int);
}

/// A number below `limit` in size, taken as zero.
pub fn snap(v: i64, limit: i64) -> (r: i64)
    requires
        0 <= limit,
    ensures
        r == snapped(v as int, limit as int),
{
    if -limit < v && v < limit {
        0
    } else {
        v
    }
}

/// Append an angle in degrees to `decimals` places, right aligned in `width`
/// columns.
pub fn push_degrees(out: &mut String, radians: i64, decimals: usize, width: usize)
    requires
        decimals <= 1,
    ensures
        final(out)@ == old(out)@ + degrees_text(radians as int, decimals as nat, width as nat),
{
    let scale: i128 = DEGREES as i128;
    assert(-600_000_000_000_000_000_000_000_000_000_000_000 < radians * DEGREES
        < 600_000_000_000_000_000_000_000_000_000_000_000 && radians * DEGREES == radians * scale)
        by (nonlinear_arith)
        requires
            -0x8000_0000_0000_0000 <= radians <= 0x7FFF_FFFF_FFFF_FFFF,
            DEGREES == 57_295_779_513_082_321,
            scale == DEGREES,
    ;
    let wide: i128 = radians as i128 * scale;
    let limit: i128 = 50_000_000_000_000_000_000_000;
    let v: i128 = if -limit < wide && wide < limit {
        0
    } else {
        wide
    };
    let mut s = String::new();
    proof {
        assert(text::pow10(0) == 1 && text::pow10(1) == 10) by {
            reveal_with_fuel(text::pow10, 2);
        }
        let m = text::magnitude_of(v as int) as int;
        let p = text::pow10(decimals as nat) as int;
        assert(m * p <= 600_000_000_000_000_000_000_000_000_000_000_000 * 10) by (nonlinear_arith)
            requires
                0 <= m <= 600_000_000_000_000_000_000_000_000_000_000_000,
                0 <= p <= 10,
        ;
    }
    if v < 0 {
        s.push('-');
        text::push_ratio(&mut s, (-v) as u128, DEGREE_UNIT, decimals);
    } else {
        text::push_ratio(&mut s, v as u128, DEGREE_UNIT, decimals);
    }
    assert(s@ =~= text::signed_ratio_text(v as int, DEGREE_UNIT as nat, decimals as nat));
    text::push_padded_left(out, s.as_str(), width);
}

/// An angle: radians, because that is what every flag and file uses, with the
/// degrees alongside because that is what people picture.
pub fn angle(radians: i64) -> (s: String)
    ensures
        s@ == angle_text(radians as int),
{
    let r: i64 = snap(radians, 50_000);
    let mut s = String::new();
    push_fixed(&mut s, r, 4, 8);
    s.append(" rad (");
    push_degrees(&mut s, r, 1, 6);
    s.append("\u{b0})");
    assert(s@ =~= angle_text(radians as int));
    s
}

/// A distance or radius in world units.
pub fn length(x: i64) -> (s: String)
    ensures
        s@ == fixed_text(x as int, 3, 8),
{
    fixed(x, 3, 8)
}

/// An amount from none to all, a multiplier, an exponent: anything read as a
/// dial.
pub fn amount(x: i64) -> (s: String)
    ensures
        s@ == fixed_text(x as int, 2, 8),
{
    fixed(x, 2, 8)
}

/// A point size: small, so it has the extra places.
pub fn size(x: i64) -> (s: String)
    ensures
        s@ == fixed_text(x as int, 4, 8),
{
    fixed(x, 4, 8)
}

/// A whole number of things, right aligned with the numbers.
pub open spec fn count_text(n: nat) -> Seq<char> {
    text::padded_left(text::decimal(n), 8)
}

/// A whole number of things.
pub fn count(n: usize) -> (s: String)
    ensures
        s@ == count_text(n as nat),
{
    let d = text::decimal_string(n as u128);
    word(d.as_str())
}

/// A word standing where a number would go, right aligned with the numbers.
pub fn word(w: &str) -> (s: String)
    ensures
        s@ == text::padded_left(w@, 8),
{
    let mut s = String::new();
    text::push_padded_left(&mut s, w, 8);
    assert(s@ =~= text::padded_left(w@, 8));
    s
}

/// An amount where there is one, and a word where there is none.
pub open spec fn optional_text(v: Option<i64>) -> Seq<char> {
    match v {
        Some(x) => fixed_text(x as int, 2, 8),
        None => text::padded_left("unset"@, 8),
    }
}

/// An amount, or `unset`.
pub fn optional(v: Option<i64>) -> (s: String)
    ensures
        s@ == optional_text(v),
{
    match v {
        Some(x) => amount(x),
        None => word("unset"),
    }
}

/// A point count at a glance: `8.0M`, `500k`.
pub fn magnitude(n: usize) -> (s: String)
    ensures
        s@ == magnitude_text(n as nat),
{
    let mut s = String::new();
    if n >= 1_000_000 {
        let held: u128 = num::held_of(n as u64, num::DOUBLE);
        num::push_float(&mut s, held, 1_000_000, num::DOUBLE, 1);
        s.append("M");
    } else if n >= 10_000 {
        text::push_decimal(&mut s, (n / 1000) as u128);
        s.append("k");
    } else {
        text::push_decimal(&mut s, n as u128);
    }
    assert(s@ =~= magnitude_text(n as nat));
    s
}

/// The character of a hexadecimal digit, for `d < 16`.
pub open spec fn hex_digit(d: int) -> char {
    if d < 10 {
        ('0' as int + d) as char
    } else {
        ('a' as int + d - 10) as char
    }
}

/// A byte as two hexadecimal digits.
pub open spec fn hex_byte(b: u8) -> Seq<char> {
    seq![hex_digit(b as int / 16), hex_digit(b as int % 16)]
}

/// A colour as the hex that a scene file takes.
pub open spec fn hex_text(c: Color) -> Seq<char> {
    "#"@ + hex_byte(c.red) + hex_byte(c.green) + hex_byte(c.blue)
}

fn digit_of(d: u8) -> (c: char)
    requires
        d < 16,
    ensures
        c == hex_digit(d as int),
{
    if d < 10 {
        (48 + d) as char
    } else {
        (87 + d) as char
    }
}

fn push_hex_byte(out: &mut String, b: u8)
    ensures
        final(out)@ == old(out)@ + hex_byte(b),
{
    out.push(digit_of(b / 16));
    out.push(digit_of(b % 16));
    assert(out@ =~= old(out)@ + hex_byte(b));
}

/// A colour as the hex you could paste into a scene file.
pub fn hex(c: Color) -> (s: String)
    ensures
        s@ == hex_text(c),
{
    let mut s = String::new();
    s.append("#");
    push_hex_byte(&mut s, c.red);
    push_hex_byte(&mut s, c.green);
    push_hex_byte(&mut s, c.blue);
    assert(s@ =~= hex_text(c));
    s
}

/// The escape code that sets the background to a colour.
pub open spec fn paint_text(c: Color) -> Seq<char> {
    "\u{1b}[48;2;"@ + text::decimal(c.red as nat) + ";"@ + text::decimal(c.green as nat) + ";"@
        + text::decimal(c.blue as nat) + "m"@
}

/// What is legible on a colour: black on a light one, white on a dark one.
pub open spec fn ink_of(c: Color) -> nat {
    if c.luminance > UNIT / 5 {
        0
    } else {
        255
    }
}

/// The escape codes for legible text on a colour.
pub open spec fn tint_text(c: Color) -> Seq<char> {
    let ink = text::decimal(ink_of(c));
    paint_text(c) + "\u{1b}[38;2;"@ + ink + ";"@ + ink + ";"@ + ink + "m"@
}

/// The escape codes for legible text on a colour.
pub fn tint(c: Color) -> (s: String)
    ensures
        s@ == tint_text(c),
{
    let fifth: i64 = (UNIT / 5) as i64;
    let ink: u128 = if c.luminance > fifth {
        0
    } else {
        255
    };
    let mut s = String::new();
    push_paint(&mut s, c);
    s.append("\u{1b}[38;2;");
    text::push_decimal(&mut s, ink);
    s.append(";");
    text::push_decimal(&mut s, ink);
    s.append(";");
    text::push_decimal(&mut s, ink);
    s.append("m");
    assert(s@ =~= tint_text(c));
    s
}

/// A colour's hex, wearing the colour it names when colour is on.
pub open spec fn tinted_text(c: Color, color: bool) -> Seq<char> {
    if color {
        tint_text(c) + hex_text(c) + "\u{1b}[0m"@
    } else {
        hex_text(c)
    }
}

fn push_paint(out: &mut String, c: Color)
    ensures
        final(out)@ == old(out)@ + paint_text(c),
{
    out.append("\u{1b}[48;2;");
    text::push_decimal(out, c.red as u128);
    out.append(";");
    text::push_decimal(out, c.green as u128);
    out.append(";");
    text::push_decimal(out, c.blue as u128);
    out.append("m");
    assert(out@ =~= old(out)@ + paint_text(c));
}

/// A colour's hex. The text is unchanged and the escape codes wrap it, so the
/// coloured report is the plain one plus paint.
pub fn hex_tinted(c: Color, color: bool) -> (s: String)
    ensures
        s@ == tinted_text(c, color),
{
    let h = hex(c);
    if !color {
        return h;
    }
    let mut s = tint(c);
    s.append(h.as_str());
    s.append("\u{1b}[0m");
    assert(s@ =~= tinted_text(c, color));
    s
}

/// Colours as blocks `width` spaces wide, one after another.
pub open spec fn blocks_text(colors: Seq<Color>, width: nat) -> Seq<char>
    decreases colors.len(),
{
    if colors.len() == 0 {
        Seq::empty()
    } else {
        blocks_text(colors.drop_last(), width) + paint_text(colors.last()) + text::repeated(
            ' ',
            width,
        )
    }
}

/// Colours as blocks, and the end of the paint.
pub open spec fn swatch_text(colors: Seq<Color>, width: nat) -> Seq<char> {
    blocks_text(colors, width) + "\u{1b}[0m"@
}

fn blocks(colors: &Vec<Color>, width: usize) -> (s: String)
    ensures
        s@ == swatch_text(colors@, width as nat),
{
    let mut s = String::new();
    let mut i: usize = 0;
    assert(colors@.take(0) =~= Seq::empty());
    assert(s@ =~= Seq::empty());
    while i < colors.len()
        invariant
            i <= colors.len(),
            s@ == blocks_text(colors@.take(i as int), width as nat),
        decreases colors.len() - i,
    {
        let ghost before = s@;
        assert(colors@.take(i + 1).drop_last() =~= colors@.take(i as int));
        push_paint(&mut s, colors[i]);
        text::push_repeated(&mut s, ' ', width);
        assert(s@ =~= before + paint_text(colors@[i as int]) + text::repeated(' ', width as nat));
        i += 1;
    }
    assert(colors@.take(i as int) =~= colors@);
    s.append("\u{1b}[0m");
    s
}

/// A gradient, sampled evenly, as 24-bit colour blocks.
pub fn swatch(samples: &Vec<Color>) -> (s: String)
    ensures
        s@ == swatch_text(samples@, 1),
{
    blocks(samples, 1)
}

/// A handful of separate colours as blocks wide enough to read side by side.
pub fn color_swatch(colors: &Vec<Color>) -> (s: String)
    ensures
        s@ == swatch_text(colors@, 7),
{
    blocks(colors, 7)
}

/// Some colours as hex with spaces between them.
pub open spec fn ramp_text(colors: Seq<Color>) -> Seq<char> {
    text::joined(colors.map_values(|c: Color| hex_text(c)), " "@)
}

/// A gradient, sampled evenly, as hex stops on one line.
pub fn hex_ramp(samples: &Vec<Color>) -> (s: String)
    ensures
        s@ == ramp_text(samples@),
{
    let ghost all = samples@.map_values(|c: Color| hex_text(c));
    let mut parts: Vec<String> = Vec::new();
    let mut i: usize = 0;
    while i < samples.len()
        invariant
            i <= samples@.len(),
            all == samples@.map_values(|c: Color| hex_text(c)),
            text::views(parts@) == all.take(i as int),
        decreases samples@.len() - i,
    {
        let ghost before = text::views(parts@);
        let h = hex(samples[i]);
        let ghost shown = h@;
        assert(all[i as int] == shown);
        parts.push(h);
        i += 1;
        assert(text::views(parts@) =~= before.push(shown));
        assert(before.push(shown) =~= all.take(i as int));
    }
    assert(all.take(i as int) =~= all);
    text::join(&parts, " ")
}

/// Writing on a colour is black where the colour is brighter than a fifth, and
/// white otherwise.
pub proof fn ink_stands_out(c: Color)
    ensures
        ink_of(c) == 0 <==> 5 * c.luminance > 1_000_000_000,
        ink_of(c) == 0 || ink_of(c) == 255,
{
}

/// What is closer to none than the limit is none, and the rest stays.
pub proof fn snapping_takes_only_what_is_near_none(v: int, limit: int)
    requires
        limit > 0,
    ensures
        snapped(v, limit) == 0 || snapped(v, limit) == v,
        snapped(v, limit) == 0 <==> -limit < v < limit,
        snapped(-v, limit) == -snapped(v, limit),
{
}

/// Half a turn, to nine places, is 180 degrees to within a millionth.
pub proof fn half_a_turn_is_180_degrees()
    ensures
        179_999_999 * 1_000_000_000_000_000_000 < degrees_of(3_141_592_654) < 180_000_001
            * 1_000_000_000_000_000_000,
        forall|r: int| #[trigger] degrees_of(-r) == -degrees_of(r),
{
    assert forall|r: int| #[trigger] degrees_of(-r) == -degrees_of(r) by {
        assert((-r) * DEGREES == -(r * DEGREES)) by (nonlinear_arith);
    }
}

} // verus!
