//! How a gradient is written down in a file.
//!
//! A stop's colour is hex, as a colour picker shows it, or a linear triple, as
//! the renderer takes it. Both are read; saving writes hex, because a palette
//! is a thing one looks at.

use super::library;
use super::written::{is_plain_stop, is_plain_table, is_plainly_quoted};
use super::{Body, BodyModel, Cosine, Ink, Interpolate, Palette, PaletteModel, Stop};
use crate::offline::UNIT;
use crate::quantity;
use crate::quantity::Point;
use crate::text;
use vstd::prelude::*;

verus! {

// ---- hex colours -----------------------------------------------------------

/// How many bytes a character takes in UTF-8.
pub open spec fn width(c: char) -> nat {
    let n = c as nat;
    if n < 0x80 {
        1
    } else if n < 0x800 {
        2
    } else if n < 0x10000 {
        3
    } else {
        4
    }
}

/// How many bytes a text takes in UTF-8.
pub open spec fn byte_len(s: Seq<char>) -> nat
    decreases s.len(),
{
    if s.len() == 0 {
        0
    } else {
        byte_len(s.drop_last()) + width(s.last())
    }
}

/// A text without the hash signs it starts with.
pub open spec fn unhashed(s: Seq<char>) -> Seq<char>
    decreases s.len(),
{
    if s.len() > 0 && s[0] == '#' {
        unhashed(s.drop_first())
    } else {
        s
    }
}

/// The digits of a hex colour: the text without white space around it and
/// without the hash signs it starts with.
pub open spec fn bare(s: Seq<char>) -> Seq<char> {
    unhashed(text::trimmed(s))
}

/// The value of a hexadecimal digit's character.
pub open spec fn digit_value(c: char) -> Option<nat> {
    if '0' <= c <= '9' {
        Some((c as nat - '0' as nat) as nat)
    } else if 'a' <= c <= 'f' {
        Some((c as nat - 'a' as nat + 10) as nat)
    } else if 'A' <= c <= 'F' {
        Some((c as nat - 'A' as nat + 10) as nat)
    } else {
        None
    }
}

/// The number that one or two digits write in hexadecimal.
pub open spec fn piece(h: Seq<char>, from: int, n: int) -> Option<nat> {
    if n == 1 {
        digit_value(h[from])
    } else {
        match (digit_value(h[from]), digit_value(h[from + 1])) {
            (Some(a), Some(b)) => Some(16 * a + b),
            _ => None,
        }
    }
}

/// The three bytes of `n` characters each, where all three are numbers.
pub open spec fn three_pieces(h: Seq<char>, n: int) -> Option<(nat, nat, nat)> {
    match (piece(h, 0, n), piece(h, n, n), piece(h, 2 * n, n)) {
        (Some(a), Some(b), Some(c)) => Some((a, b, c)),
        _ => None,
    }
}

/// What a hex colour reads: six digits, two a channel, or three, each doubled.
pub open spec fn hex_value(s: Seq<char>) -> Result<(nat, nat, nat), Seq<char>> {
    let h = bare(s);
    let bad = "bad hex colour '"@ + s + "'"@;
    if byte_len(h) == 6 {
        match three_pieces(h, 2) {
            Some(v) if h.len() == 6 => Ok(v),
            _ => Err(bad),
        }
    } else if byte_len(h) == 3 {
        match three_pieces(h, 1) {
            Some(v) if h.len() == 3 => Ok((17 * v.0, 17 * v.1, 17 * v.2)),
            _ => Err(bad),
        }
    } else {
        Err(bad + ": expected #rrggbb"@)
    }
}

fn width_of(c: char) -> (w: usize)
    ensures
        w == width(c),
{
    let n: u32 = c as u32;
    if n < 0x80 {
        1
    } else if n < 0x800 {
        2
    } else if n < 0x10000 {
        3
    } else {
        4
    }
}

/// Every character takes a byte at least.
proof fn bytes_cover_characters(s: Seq<char>, k: int)
    requires
        0 <= k <= s.len(),
    ensures
        byte_len(s.take(k)) >= k,
        byte_len(s) >= byte_len(s.take(k)) + (s.len() - k),
    decreases s.len(),
{
    if s.len() > 0 {
        let t = s.drop_last();
        if k == s.len() {
            assert(s.take(k) =~= s);
            bytes_cover_characters(t, t.len() as int);
            assert(t.take(t.len() as int) =~= t);
        } else {
            bytes_cover_characters(t, k);
            assert(t.take(k) =~= s.take(k));
        }
    }
}

/// How many bytes the characters from `from` on take, or seven where it is
/// more than six.
fn bytes_from(v: &Vec<char>, from: usize, to: usize) -> (n: usize)
    requires
        from <= to <= v@.len(),
    ensures
        n == (if byte_len(v@.subrange(from as int, to as int)) > 6 {
            7
        } else {
            byte_len(v@.subrange(from as int, to as int)) as int
        }),
{
    let ghost h = v@.subrange(from as int, to as int);
    let mut n: usize = 0;
    let mut i: usize = from;
    assert(h.take(0) =~= Seq::empty());
    while i < to
        invariant
            from <= i <= to <= v@.len(),
            h == v@.subrange(from as int, to as int),
            n == byte_len(h.take(i - from)),
            n <= 6,
        decreases to - i,
    {
        assert(h.take(i - from + 1).drop_last() =~= h.take(i - from));
        assert(h.take(i - from + 1).last() == v@[i as int]);
        n = n + width_of(v[i]);
        i += 1;
        if n > 6 {
            proof {
                bytes_cover_characters(h, i - from);
            }
            return 7;
        }
    }
    assert(h.take(i - from) =~= h);
    n
}

/// The value of a hexadecimal digit.
pub fn digit(c: char) -> (r: Option<u8>)
    ensures
        match digit_value(c) {
            Some(d) => r is Some && r->0 == d && d < 16,
            None => r is None,
        },
{
    let n: u32 = c as u32;
    if '0' <= c && c <= '9' {
        Some((n - 48) as u8)
    } else if 'a' <= c && c <= 'f' {
        Some((n - 87) as u8)
    } else if 'A' <= c && c <= 'F' {
        Some((n - 55) as u8)
    } else {
        None
    }
}

fn piece_of(v: &Vec<char>, at: usize, n: usize) -> (r: Option<u8>)
    requires
        n == 1 || n == 2,
        at + n <= v@.len(),
    ensures
        match piece(v@, at as int, n as int) {
            Some(d) => r is Some && r->0 == d && (n == 1 ==> d < 16),
            None => r is None,
        },
{
    let len: usize = v.len();
    assert(at + n <= len);
    if n == 1 {
        digit(v[at])
    } else {
        match (digit(v[at]), digit(v[at + 1])) {
            (Some(a), Some(b)) => Some(16 * a + b),
            _ => None,
        }
    }
}

/// Pieces of a part of a text are pieces of the text.
proof fn piece_of_part(v: Seq<char>, from: int, to: int, k: int, n: int)
    requires
        0 <= from <= to <= v.len(),
        n == 1 || n == 2,
        0 <= k,
        from + k + n <= to,
    ensures
        piece(v.subrange(from, to), k, n) == piece(v, from + k, n),
{
    let h = v.subrange(from, to);
    assert(h[k] == v[from + k]);
    if n == 2 {
        assert(h[k + 1] == v[from + k + 1]);
    }
}

/// Where the hash signs at the start of a part of a text end.
fn skip_hashes(v: &Vec<char>, from: usize, to: usize) -> (b: usize)
    requires
        from <= to <= v@.len(),
    ensures
        from <= b <= to,
        v@.subrange(b as int, to as int) == unhashed(v@.subrange(from as int, to as int)),
{
    let mut b: usize = from;
    while b < to && v[b] == '#'
        invariant
            from <= b <= to <= v@.len(),
            unhashed(v@.subrange(b as int, to as int)) == unhashed(
                v@.subrange(from as int, to as int),
            ),
        decreases to - b,
    {
        let ghost cut = v@.subrange(b as int, to as int);
        assert(cut.drop_first() =~= v@.subrange(b + 1, to as int));
        b += 1;
    }
    b
}

/// A colour from its hex, `#rrggbb` or the short form with three digits, with
/// or without the hash sign.
pub fn parse_hex(s: &str) -> (r: Result<[u8; 3], String>)
    ensures
        match hex_value(s@) {
            Ok(v) => r is Ok && r->Ok_0@ =~= seq![v.0 as u8, v.1 as u8, v.2 as u8] && v.0 <= 255
                && v.1 <= 255 && v.2 <= 255,
            Err(e) => r is Err && (r->Err_0)@ == e,
        },
{
    let v = text::chars_of(s);
    let (b, e) = text::trim_at(&v, 0, v.len());
    assert(v@.subrange(0, v@.len() as int) =~= s@);
    let h: usize = skip_hashes(&v, b, e);
    let ghost bare_s = v@.subrange(h as int, e as int);
    assert(bare_s == bare(s@));
    let bytes: usize = bytes_from(&v, h, e);
    let mut bad = String::new();
    bad.append("bad hex colour '");
    bad.append(s);
    bad.append("'");
    assert(bad@ =~= "bad hex colour '"@ + s@ + "'"@);
    if bytes == 6 {
        if e - h == 6 {
            proof {
                piece_of_part(v@, h as int, e as int, 0, 2);
                piece_of_part(v@, h as int, e as int, 2, 2);
                piece_of_part(v@, h as int, e as int, 4, 2);
            }
            match (piece_of(&v, h, 2), piece_of(&v, h + 2, 2), piece_of(&v, h + 4, 2)) {
                (Some(x), Some(y), Some(z)) => Ok([x, y, z]),
                _ => Err(bad),
            }
        } else {
            Err(bad)
        }
    } else if bytes == 3 {
        if e - h == 3 {
            proof {
                piece_of_part(v@, h as int, e as int, 0, 1);
                piece_of_part(v@, h as int, e as int, 1, 1);
                piece_of_part(v@, h as int, e as int, 2, 1);
            }
            match (piece_of(&v, h, 1), piece_of(&v, h + 1, 1), piece_of(&v, h + 2, 1)) {
                (Some(x), Some(y), Some(z)) => Ok([17 * x, 17 * y, 17 * z]),
                _ => Err(bad),
            }
        } else {
            Err(bad)
        }
    } else {
        bad.append(": expected #rrggbb");
        Err(bad)
    }
}

/// The hex of a colour.
pub open spec fn hex_of(i: Ink) -> Seq<char> {
    quantity::hex_text(
        quantity::Color { red: i.red, green: i.green, blue: i.blue, luminance: 0 },
    )
}

/// The hex of a colour, as files write it.
pub fn hex(i: Ink) -> (s: String)
    ensures
        s@ == hex_of(i),
{
    quantity::hex(quantity::Color { red: i.red, green: i.green, blue: i.blue, luminance: 0 })
}

/// A colour's hex reads as the colour.
pub proof fn hex_reads_back(i: Ink)
    ensures
        hex_value(hex_of(i)) == Ok::<(nat, nat, nat), Seq<char>>(
            (i.red as nat, i.green as nat, i.blue as nat),
        ),
{
    reveal_strlit("#");
    let s = hex_of(i);
    let digits = quantity::hex_byte(i.red) + quantity::hex_byte(i.green) + quantity::hex_byte(
        i.blue,
    );
    assert(s =~= seq!['#'] + digits);
    hex_digits_read_back(i.red);
    hex_digits_read_back(i.green);
    hex_digits_read_back(i.blue);
    assert(!text::is_space(s[0]));
    assert(s.last() == quantity::hex_byte(i.blue)[1]);
    text::trimmed_stays(s);
    assert(s.drop_first() =~= digits);
    assert(digits[0] == quantity::hex_byte(i.red)[0]);
    assert(unhashed(digits) == digits);
    assert(bare(s) == digits);
    assert(digits[1] == quantity::hex_byte(i.red)[1]);
    assert(digits[2] == quantity::hex_byte(i.green)[0]);
    assert(digits[3] == quantity::hex_byte(i.green)[1]);
    assert(digits[4] == quantity::hex_byte(i.blue)[0]);
    assert(digits[5] == quantity::hex_byte(i.blue)[1]);
    assert forall|k: int| 0 <= k < 6 implies width(#[trigger] digits[k]) == 1 by {}
    plain_bytes(digits, 6);
    assert(digits.take(6) =~= digits);
}

/// Whether a text is hexadecimal digits alone.
pub open spec fn are_digits(h: Seq<char>) -> bool {
    forall|i: int| 0 <= i < h.len() ==> digit_value(#[trigger] h[i]) is Some
}

proof fn digits_are_bytes(h: Seq<char>)
    requires
        are_digits(h),
    ensures
        byte_len(h) == h.len(),
{
    assert forall|i: int| 0 <= i < h.len() implies width(#[trigger] h[i]) == 1 by {
        assert(digit_value(h[i]) is Some);
    }
    plain_bytes(h, h.len() as int);
    assert(h.take(h.len() as int) =~= h);
}

/// A colour is six or three hexadecimal digits and nothing else, and whatever
/// is no colour is named in the message.
pub proof fn a_colour_is_six_or_three_digits(s: Seq<char>)
    ensures
        hex_value(s) is Ok <==> (bare(s).len() == 6 || bare(s).len() == 3) && are_digits(bare(s)),
        hex_value(s) is Err ==> exists|rest: Seq<char>|
            hex_value(s)->Err_0 == "bad hex colour '"@ + s + #[trigger] ("'"@ + rest),
{
    let h = bare(s);
    if (h.len() == 6 || h.len() == 3) && are_digits(h) {
        digits_are_bytes(h);
        if h.len() == 6 {
            assert(digit_value(h[0]) is Some && digit_value(h[1]) is Some && digit_value(
                h[2],
            ) is Some && digit_value(h[3]) is Some && digit_value(h[4]) is Some && digit_value(
                h[5],
            ) is Some);
        } else {
            assert(digit_value(h[0]) is Some && digit_value(h[1]) is Some && digit_value(
                h[2],
            ) is Some);
        }
    }
    if hex_value(s) is Ok {
        assert forall|i: int| 0 <= i < h.len() implies digit_value(#[trigger] h[i]) is Some by {
            if h.len() == 6 {
                assert(i == 0 || i == 1 || i == 2 || i == 3 || i == 4 || i == 5);
            } else {
                assert(i == 0 || i == 1 || i == 2);
            }
        }
    } else {
        let bad = "bad hex colour '"@ + s + "'"@;
        let tail = ": expected #rrggbb"@;
        assert("bad hex colour '"@ + s + ("'"@ + tail) =~= bad + tail);
        assert("bad hex colour '"@ + s + ("'"@ + Seq::<char>::empty()) =~= bad);
    }
}

/// The short form doubles each digit: `#abc` is `#aabbcc`.
pub proof fn a_short_colour_is_its_doubled_form(short: Seq<char>, long: Seq<char>)
    requires
        are_digits(bare(short)),
        bare(short).len() == 3,
        bare(long) == seq![
            bare(short)[0],
            bare(short)[0],
            bare(short)[1],
            bare(short)[1],
            bare(short)[2],
            bare(short)[2],
        ],
    ensures
        hex_value(short) is Ok,
        hex_value(long) == hex_value(short),
{
    let h = bare(short);
    let l = bare(long);
    assert(digit_value(h[0]) is Some && digit_value(h[1]) is Some && digit_value(h[2]) is Some);
    assert(are_digits(l));
    digits_are_bytes(h);
    digits_are_bytes(l);
}

/// The case of a colour's letters does not matter.
pub proof fn colours_ignore_case(s: Seq<char>, t: Seq<char>)
    requires
        text::lowered(bare(s)) == text::lowered(bare(t)),
    ensures
        hex_value(s) is Ok <==> hex_value(t) is Ok,
        hex_value(s) is Ok ==> hex_value(t) == hex_value(s),
{
    let (a, b) = (bare(s), bare(t));
    assert(text::lowered(a).len() == a.len() && text::lowered(b).len() == b.len());
    assert forall|i: int| 0 <= i < a.len() implies digit_value(#[trigger] a[i]) == digit_value(
        b[i],
    ) by {
        assert(text::lowered(a)[i] == text::lower(a[i]));
        assert(text::lowered(b)[i] == text::lower(b[i]));
    }
    a_colour_is_six_or_three_digits(s);
    a_colour_is_six_or_three_digits(t);
    if are_digits(a) {
        assert forall|i: int| 0 <= i < b.len() implies digit_value(#[trigger] b[i]) is Some by {
            assert(digit_value(a[i]) is Some);
        }
        digits_are_bytes(a);
        digits_are_bytes(b);
    }
    if are_digits(b) {
        assert forall|i: int| 0 <= i < a.len() implies digit_value(#[trigger] a[i]) is Some by {
            assert(digit_value(b[i]) is Some);
        }
    }
}

/// Blanks around a colour and a hash sign before it do not matter: what is
/// read is its digits.
pub proof fn colours_ignore_blanks_and_the_hash(
    digits: Seq<char>,
    before: Seq<char>,
    after: Seq<char>,
)
    requires
        are_digits(digits),
        digits.len() > 0,
        forall|i: int| 0 <= i < before.len() ==> text::is_space(#[trigger] before[i]),
        forall|i: int| 0 <= i < after.len() ==> text::is_space(#[trigger] after[i]),
    ensures
        bare(before + digits + after) == digits,
        bare(before + (seq!['#'] + digits) + after) == digits,
{
    assert(digit_value(digits[0]) is Some && digit_value(digits[digits.len() - 1]) is Some);
    text::trimmed_drops_blanks(before, digits, after);
    let hashed = seq!['#'] + digits;
    assert(hashed.last() == digits.last());
    text::trimmed_drops_blanks(before, hashed, after);
    assert(hashed.drop_first() =~= digits);
}

/// Characters of one byte each take as many bytes as they are.
proof fn plain_bytes(s: Seq<char>, k: int)
    requires
        0 <= k <= s.len(),
        forall|i: int| 0 <= i < s.len() ==> width(#[trigger] s[i]) == 1,
    ensures
        byte_len(s.take(k)) == k,
    decreases k,
{
    if k > 0 {
        plain_bytes(s, k - 1);
        assert(s.take(k).drop_last() =~= s.take(k - 1));
    }
}

proof fn hex_digits_read_back(b: u8)
    ensures
        ({
            let h = quantity::hex_byte(b);
            &&& digit_value(h[0]) == Some((b / 16) as nat)
            &&& digit_value(h[1]) == Some((b % 16) as nat)
            &&& 16 * (b / 16) + b % 16 == b
            &&& h[0] != '#'
            &&& width(h[0]) == 1 && width(h[1]) == 1
            &&& !text::is_space(h[1])
        }),
{
}

// ---- definitions -----------------------------------------------------------

/// A colour in a file.
pub enum ColorDef {
    /// As a display shows it.
    Hex(String),
    /// As the renderer takes it, and the bytes that a display shows it by.
    Linear { values: Point, red: u8, green: u8, blue: u8 },
}

/// What a colour in a file holds.
pub enum ColorModel {
    Hex(Seq<char>),
    Linear(Ink),
}

impl View for ColorDef {
    type V = ColorModel;

    open spec fn view(&self) -> ColorModel {
        match self {
            ColorDef::Hex(s) => ColorModel::Hex(s@),
            ColorDef::Linear { values, red, green, blue } => ColorModel::Linear(
                Ink { red: *red, green: *green, blue: *blue, linear: Some(*values) },
            ),
        }
    }
}

impl ColorModel {
    /// What a colour in a file stands for, or why it stands for none.
    pub open spec fn ink(self) -> Result<Ink, Seq<char>> {
        match self {
            ColorModel::Hex(s) => match hex_value(s) {
                Ok(v) => Ok(Ink::of(v.0 as u8, v.1 as u8, v.2 as u8)),
                Err(e) => Err(e),
            },
            ColorModel::Linear(i) => Ok(i),
        }
    }
}

impl ColorDef {
    /// What a colour in a file stands for.
    pub fn to_linear(&self) -> (r: Result<Ink, String>)
        ensures
            match self@.ink() {
                Ok(i) => r == Ok::<Ink, String>(i),
                Err(e) => r is Err && (r->Err_0)@ == e,
            },
    {
        match self {
            ColorDef::Hex(s) => match parse_hex(s.as_str()) {
                Ok(c) => Ok(Ink::shown(c[0], c[1], c[2])),
                Err(e) => Err(e),
            },
            ColorDef::Linear { values, red, green, blue } => Ok(
                Ink { red: *red, green: *green, blue: *blue, linear: Some(*values) },
            ),
        }
    }

    /// A colour as it is saved.
    pub fn from_linear(i: Ink) -> (c: ColorDef)
        ensures
            c@ == ColorModel::Hex(hex_of(i)),
    {
        ColorDef::Hex(hex(i))
    }
}

/// A stop in a file.
pub struct StopDef {
    pub at: i64,
    pub color: ColorDef,
}

/// What a stop in a file holds.
pub struct StopModel {
    pub at: i64,
    pub color: ColorModel,
}

impl View for StopDef {
    type V = StopModel;

    open spec fn view(&self) -> StopModel {
        StopModel { at: self.at, color: self.color@ }
    }
}

/// What the stops of a file hold.
pub open spec fn stop_models(s: Seq<StopDef>) -> Seq<StopModel> {
    Seq::new(s.len(), |i: int| s[i]@)
}

/// The palette of a file: any of stops, a formula or entries, the first one
/// present; or else the name of a library palette.
pub struct PaletteDef {
    pub name: Option<String>,
    /// Whether the palette is the colour source.
    pub enabled: Option<bool>,
    pub cyclic: Option<bool>,
    pub interpolate: Option<Interpolate>,
    pub rotate: Option<i64>,
    pub reverse: Option<bool>,
    pub stops: Option<Vec<StopDef>>,
    pub cosine: Option<Cosine>,
    /// Hex entries, for a palette imported verbatim.
    pub entries: Option<Vec<String>>,
}

/// What the palette of a file holds.
pub struct TableModel {
    pub name: Option<Seq<char>>,
    pub enabled: Option<bool>,
    pub cyclic: Option<bool>,
    pub interpolate: Option<Interpolate>,
    pub rotate: Option<i64>,
    pub reverse: Option<bool>,
    pub stops: Option<Seq<StopModel>>,
    pub cosine: Option<Cosine>,
    pub entries: Option<Seq<Seq<char>>>,
}

impl View for PaletteDef {
    type V = TableModel;

    open spec fn view(&self) -> TableModel {
        TableModel {
            name: super::text_of(self.name),
            enabled: self.enabled,
            cyclic: self.cyclic,
            interpolate: self.interpolate,
            rotate: self.rotate,
            reverse: self.reverse,
            stops: match self.stops {
                Some(s) => Some(stop_models(s@)),
                None => None,
            },
            cosine: self.cosine,
            entries: match self.entries {
                Some(e) => Some(text::views(e@)),
                None => None,
            },
        }
    }
}

// ---- reading ---------------------------------------------------------------

/// What the first `n` stops of a file stand for, or why one does not.
pub open spec fn read_stops(defs: Seq<StopModel>, n: nat) -> Result<Seq<Stop>, Seq<char>>
    decreases n,
{
    if n == 0 {
        Ok(Seq::empty())
    } else {
        match read_stops(defs, (n - 1) as nat) {
            Err(e) => Err(e),
            Ok(v) => match defs[n - 1].color.ink() {
                Ok(color) => Ok(v.push(Stop { at: defs[n - 1].at, color })),
                Err(e) => Err(e),
            },
        }
    }
}

/// What the first `n` entries of a file stand for, or why one does not.
pub open spec fn read_entries(entries: Seq<Seq<char>>, n: nat) -> Result<Seq<Ink>, Seq<char>>
    decreases n,
{
    if n == 0 {
        Ok(Seq::empty())
    } else {
        match read_entries(entries, (n - 1) as nat) {
            Err(e) => Err(e),
            Ok(v) => match hex_value(entries[n - 1]) {
                Ok(c) => Ok(v.push(Ink::of(c.0 as u8, c.1 as u8, c.2 as u8))),
                Err(e) => Err(e),
            },
        }
    }
}

/// The body that a file gives, if it gives one.
pub open spec fn read_body(d: TableModel) -> Result<Option<BodyModel>, Seq<char>> {
    if d.stops is Some {
        match read_stops(d.stops->0, (d.stops->0).len()) {
            Ok(v) => Ok(Some(BodyModel::Stops(super::sorted(v)))),
            Err(e) => Err(e),
        }
    } else if d.cosine is Some {
        Ok(Some(BodyModel::Cosine(d.cosine->0)))
    } else if d.entries is Some {
        let n = (d.entries->0).len();
        if n != 256 {
            Err("palette `entries` needs exactly 256 colours, got "@ + text::decimal(n))
        } else {
            match read_entries(d.entries->0, n) {
                Ok(v) => Ok(Some(BodyModel::Entries(v))),
                Err(e) => Err(e),
            }
        }
    } else {
        Ok(None)
    }
}

/// The palette that a file starts from: the body it gives, or the library
/// palette it names.
pub open spec fn read_base(d: TableModel) -> Result<PaletteModel, Seq<char>> {
    match read_body(d) {
        Err(e) => Err(e),
        Ok(Some(b)) => Ok(super::plain(b)),
        Ok(None) => match d.name {
            Some(name) => match library::found(name, 0) {
                Some(i) => Ok(library::palette_of(library::entry(i))),
                None => Err(
                    "unknown palette '"@ + name + "'. Available: "@ + text::joined(
                        library::name_list(),
                        ", "@,
                    ),
                ),
            },
            None => Err("[palette] needs `name`, `stops`, `cosine` or `entries`"@),
        },
    }
}

/// What a file's palette is: its base, with its name and what else it sets.
pub open spec fn resolved(d: TableModel) -> Result<PaletteModel, Seq<char>> {
    match read_base(d) {
        Err(e) => Err(e),
        Ok(p) => Ok(
            PaletteModel {
                name: if d.name is Some {
                    d.name
                } else {
                    p.name
                },
                body: p.body,
                cyclic: match d.cyclic {
                    Some(v) => v,
                    None => p.cyclic,
                },
                interpolate: match d.interpolate {
                    Some(v) => v,
                    None => p.interpolate,
                },
                rotate: match d.rotate {
                    Some(v) => v as int,
                    None => 0,
                },
                reverse: match d.reverse {
                    Some(v) => v,
                    None => false,
                },
            },
        ),
    }
}

/// Once a stop cannot be read, none of the rest matters.
proof fn read_stops_fails(defs: Seq<StopModel>, k: nat, n: nat)
    requires
        k <= n,
        read_stops(defs, k) is Err,
    ensures
        read_stops(defs, n) == read_stops(defs, k),
    decreases n,
{
    if k < n {
        read_stops_fails(defs, k, (n - 1) as nat);
    }
}

/// Once an entry cannot be read, none of the rest matters.
proof fn read_entries_fails(entries: Seq<Seq<char>>, k: nat, n: nat)
    requires
        k <= n,
        read_entries(entries, k) is Err,
    ensures
        read_entries(entries, n) == read_entries(entries, k),
    decreases n,
{
    if k < n {
        read_entries_fails(entries, k, (n - 1) as nat);
    }
}

fn stops_of(defs: &Vec<StopDef>) -> (r: Result<Vec<Stop>, String>)
    ensures
        match read_stops(stop_models(defs@), defs@.len()) {
            Ok(v) => r is Ok && (r->Ok_0)@ == v,
            Err(e) => r is Err && (r->Err_0)@ == e,
        },
{
    let ghost all = stop_models(defs@);
    let mut v: Vec<Stop> = Vec::new();
    let mut i: usize = 0;
    assert(v@ =~= Seq::empty());
    while i < defs.len()
        invariant
            i <= defs@.len(),
            all == stop_models(defs@),
            read_stops(all, i as nat) == Ok::<Seq<Stop>, Seq<char>>(v@),
        decreases defs@.len() - i,
    {
        assert(all[i as int] == defs@[i as int]@);
        match defs[i].color.to_linear() {
            Ok(color) => {
                v.push(Stop { at: defs[i].at, color });
            },
            Err(e) => {
                proof {
                    assert(read_stops(all, (i + 1) as nat) is Err);
                    read_stops_fails(all, (i + 1) as nat, defs@.len());
                }
                return Err(e);
            },
        }
        i += 1;
    }
    Ok(v)
}

fn entries_of(hexes: &Vec<String>) -> (r: Result<Vec<Ink>, String>)
    ensures
        match read_entries(text::views(hexes@), hexes@.len()) {
            Ok(v) => r is Ok && (r->Ok_0)@ == v,
            Err(e) => r is Err && (r->Err_0)@ == e,
        },
{
    let ghost all = text::views(hexes@);
    let mut v: Vec<Ink> = Vec::new();
    let mut i: usize = 0;
    assert(v@ =~= Seq::empty());
    while i < hexes.len()
        invariant
            i <= hexes@.len(),
            all == text::views(hexes@),
            read_entries(all, i as nat) == Ok::<Seq<Ink>, Seq<char>>(v@),
        decreases hexes@.len() - i,
    {
        assert(all[i as int] == hexes@[i as int]@);
        match parse_hex(hexes[i].as_str()) {
            Ok(c) => {
                v.push(Ink::shown(c[0], c[1], c[2]));
            },
            Err(e) => {
                proof {
                    assert(read_entries(all, (i + 1) as nat) is Err);
                    read_entries_fails(all, (i + 1) as nat, hexes@.len());
                }
                return Err(e);
            },
        }
        i += 1;
    }
    Ok(v)
}

impl PaletteDef {
    fn body(&self) -> (r: Result<Option<Body>, String>)
        ensures
            match read_body(self@) {
                Ok(Some(b)) => r is Ok && r->Ok_0 is Some && (r->Ok_0->0)@ == b,
                Ok(None) => r is Ok && r->Ok_0 is None,
                Err(e) => r is Err && (r->Err_0)@ == e,
            },
    {
        if let Some(defs) = &self.stops {
            match stops_of(defs) {
                Ok(v) => Ok(Some(Body::Stops(super::sort(&v)))),
                Err(e) => Err(e),
            }
        } else if let Some(c) = self.cosine {
            Ok(Some(Body::Cosine(c)))
        } else if let Some(hexes) = &self.entries {
            let n: usize = hexes.len();
            if n != 256 {
                let mut e = text::owned("palette `entries` needs exactly 256 colours, got ");
                text::push_decimal(&mut e, n as u128);
                return Err(e);
            }
            match entries_of(hexes) {
                Ok(v) => Ok(Some(Body::Entries(v))),
                Err(e) => Err(e),
            }
        } else {
            Ok(None)
        }
    }

    fn base(&self) -> (r: Result<Palette, String>)
        ensures
            match read_base(self@) {
                Ok(p) => r is Ok && (r->Ok_0)@ == p,
                Err(e) => r is Err && (r->Err_0)@ == e,
            },
    {
        match self.body() {
            Err(e) => Err(e),
            Ok(Some(body)) => Ok(
                Palette {
                    name: None,
                    body,
                    cyclic: true,
                    interpolate: Interpolate::Rgb,
                    rotate: 0,
                    reverse: false,
                },
            ),
            Ok(None) => match &self.name {
                Some(name) => match library::get(name.as_str()) {
                    Some(p) => Ok(p),
                    None => {
                        let list = library::listed();
                        let mut e = text::owned("unknown palette '");
                        e.append(name.as_str());
                        e.append("'. Available: ");
                        e.append(list.as_str());
                        Err(e)
                    },
                },
                None => Err(
                    text::owned("[palette] needs `name`, `stops`, `cosine` or `entries`"),
                ),
            },
        }
    }

    /// The gradient that a file's palette is. Errors name the problem in place
    /// of falling back to something that renders but is not what was asked
    /// for.
    pub fn resolve(&self) -> (r: Result<Palette, String>)
        ensures
            match resolved(self@) {
                Ok(p) => r is Ok && (r->Ok_0)@ == p,
                Err(e) => r is Err && (r->Err_0)@ == e,
            },
    {
        match self.base() {
            Err(e) => Err(e),
            Ok(p) => {
                let name = match &self.name {
                    Some(n) => Some(text::owned(n.as_str())),
                    None => p.name,
                };
                let cyclic = match self.cyclic {
                    Some(v) => v,
                    None => p.cyclic,
                };
                let interpolate = match self.interpolate {
                    Some(v) => v,
                    None => p.interpolate,
                };
                let rotate: i64 = match self.rotate {
                    Some(v) => v,
                    None => 0,
                };
                let reverse = match self.reverse {
                    Some(v) => v,
                    None => false,
                };
                Ok(Palette { name, body: p.body, cyclic, interpolate, rotate, reverse })
            },
        }
    }
}

// ---- saving ----------------------------------------------------------------

/// The largest size of a number that can be rounded.
pub const LARGEST: i64 = 9_223_372_036_854_700_000;

/// `v` to four decimal places, halves away from zero.
pub open spec fn tidied(v: int) -> int {
    if v >= 0 {
        (v + 50_000) / 100_000 * 100_000
    } else {
        -((50_000 - v) / 100_000 * 100_000)
    }
}

/// Whether a number can be rounded.
pub open spec fn fits(v: int) -> bool {
    -LARGEST <= v <= LARGEST
}

/// Whether the three numbers of a point can be rounded.
pub open spec fn point_fits(p: Point) -> bool {
    fits(p.x as int) && fits(p.y as int) && fits(p.z as int)
}

/// Whether the numbers of a body can be rounded.
pub open spec fn body_fits(b: BodyModel) -> bool {
    match b {
        BodyModel::Stops(s) => forall|i: int| 0 <= i < s.len() ==> fits((#[trigger] s[i]).at as int),
        BodyModel::Cosine(c) => point_fits(c.a) && point_fits(c.b) && point_fits(c.c) && point_fits(
            c.d,
        ),
        BodyModel::Entries(_) => true,
    }
}

/// `v` to four decimal places.
pub fn tidy(v: i64) -> (r: i64)
    requires
        fits(v as int),
    ensures
        r == tidied(v as int),
{
    if v >= 0 {
        (v + 50_000) / 100_000 * 100_000
    } else {
        -((50_000 - v) / 100_000 * 100_000)
    }
}

/// A point, each number to four decimal places.
pub open spec fn tidied_point(p: Point) -> Point {
    Point { x: tidied(p.x as int) as i64, y: tidied(p.y as int) as i64, z: tidied(p.z as int) as i64 }
}

fn tidy_point(p: Point) -> (r: Point)
    requires
        point_fits(p),
    ensures
        r == tidied_point(p),
{
    Point { x: tidy(p.x), y: tidy(p.y), z: tidy(p.z) }
}

/// A formula, each number to four decimal places.
pub open spec fn tidied_cosine(c: Cosine) -> Cosine {
    Cosine {
        a: tidied_point(c.a),
        b: tidied_point(c.b),
        c: tidied_point(c.c),
        d: tidied_point(c.d),
    }
}

/// Stops as they are saved.
pub open spec fn saved_stops(s: Seq<Stop>) -> Seq<StopModel> {
    Seq::new(
        s.len(),
        |i: int|
            StopModel {
                at: tidied(s[i].at as int) as i64,
                color: ColorModel::Hex(hex_of(s[i].color)),
            },
    )
}

/// Entries as they are saved.
pub open spec fn saved_entries(e: Seq<Ink>) -> Seq<Seq<char>> {
    Seq::new(e.len(), |i: int| hex_of(e[i]))
}

/// Whether a palette is one of the library's with the colours it has there.
pub open spec fn untouched(p: PaletteModel) -> bool {
    match p.name {
        Some(name) => match library::found(name, 0) {
            Some(i) => library::palette_of(library::entry(i)).body == p.body,
            None => false,
        },
        None => false,
    }
}

/// A palette as it is saved: what is as it is by default is left out, and so
/// are the colours of a library palette that has not been edited.
pub open spec fn saved(p: PaletteModel, enabled: bool) -> TableModel {
    let carried = !untouched(p);
    TableModel {
        name: p.name,
        enabled: if enabled {
            None
        } else {
            Some(false)
        },
        cyclic: if p.cyclic {
            None
        } else {
            Some(false)
        },
        interpolate: if p.interpolate == Interpolate::Rgb {
            None
        } else {
            Some(p.interpolate)
        },
        rotate: if p.rotate == 0 {
            None
        } else {
            Some(tidied(p.rotate) as i64)
        },
        reverse: if p.reverse {
            Some(true)
        } else {
            None
        },
        stops: match p.body {
            BodyModel::Stops(s) if carried => Some(saved_stops(s)),
            _ => None,
        },
        cosine: match p.body {
            BodyModel::Cosine(c) if carried => Some(tidied_cosine(c)),
            _ => None,
        },
        entries: match p.body {
            BodyModel::Entries(e) if carried => Some(saved_entries(e)),
            _ => None,
        },
    }
}

fn same_stops(a: &Vec<Stop>, b: &Vec<Stop>) -> (r: bool)
    ensures
        r == (a@ == b@),
{
    if a.len() != b.len() {
        return false;
    }
    let mut i: usize = 0;
    while i < a.len()
        invariant
            i <= a@.len() == b@.len(),
            forall|k: int| 0 <= k < i ==> a@[k] == b@[k],
        decreases a@.len() - i,
    {
        if a[i] != b[i] {
            assert(a@[i as int] != b@[i as int]);
            return false;
        }
        i += 1;
    }
    assert(a@ =~= b@);
    true
}

fn same_entries(a: &Vec<Ink>, b: &Vec<Ink>) -> (r: bool)
    ensures
        r == (a@ == b@),
{
    if a.len() != b.len() {
        return false;
    }
    let mut i: usize = 0;
    while i < a.len()
        invariant
            i <= a@.len() == b@.len(),
            forall|k: int| 0 <= k < i ==> a@[k] == b@[k],
        decreases a@.len() - i,
    {
        if a[i] != b[i] {
            assert(a@[i as int] != b@[i as int]);
            return false;
        }
        i += 1;
    }
    assert(a@ =~= b@);
    true
}

fn same_body(a: &Body, b: &Body) -> (r: bool)
    ensures
        r == (a@ == b@),
{
    match (a, b) {
        (Body::Stops(x), Body::Stops(y)) => same_stops(x, y),
        (Body::Entries(x), Body::Entries(y)) => same_entries(x, y),
        (Body::Cosine(x), Body::Cosine(y)) => *x == *y,
        _ => false,
    }
}

fn is_untouched(p: &Palette) -> (r: bool)
    ensures
        r == untouched(p@),
{
    match &p.name {
        Some(name) => match library::get(name.as_str()) {
            Some(kept) => same_body(&kept.body, &p.body),
            None => false,
        },
        None => false,
    }
}

fn save_stops(s: &Vec<Stop>) -> (v: Vec<StopDef>)
    requires
        forall|i: int| 0 <= i < s@.len() ==> fits((#[trigger] s@[i]).at as int),
    ensures
        stop_models(v@) == saved_stops(s@),
{
    let mut v: Vec<StopDef> = Vec::new();
    let mut i: usize = 0;
    while i < s.len()
        invariant
            i <= s@.len(),
            forall|k: int| 0 <= k < s@.len() ==> fits((#[trigger] s@[k]).at as int),
            stop_models(v@) == saved_stops(s@).take(i as int),
        decreases s@.len() - i,
    {
        let ghost before = stop_models(v@);
        assert(fits(s@[i as int].at as int));
        let d = StopDef { at: tidy(s[i].at), color: ColorDef::from_linear(s[i].color) };
        let ghost shown = d@;
        v.push(d);
        i += 1;
        assert(stop_models(v@) =~= before.push(shown));
        assert(before.push(shown) =~= saved_stops(s@).take(i as int));
    }
    assert(saved_stops(s@).take(i as int) =~= saved_stops(s@));
    v
}

fn save_entries(e: &Vec<Ink>) -> (v: Vec<String>)
    ensures
        text::views(v@) == saved_entries(e@),
{
    let mut v: Vec<String> = Vec::new();
    let mut i: usize = 0;
    while i < e.len()
        invariant
            i <= e@.len(),
            text::views(v@) == saved_entries(e@).take(i as int),
        decreases e@.len() - i,
    {
        let ghost before = text::views(v@);
        let h = hex(e[i]);
        let ghost shown = h@;
        v.push(h);
        i += 1;
        assert(text::views(v@) =~= before.push(shown));
        assert(before.push(shown) =~= saved_entries(e@).take(i as int));
    }
    assert(saved_entries(e@).take(i as int) =~= saved_entries(e@));
    v
}

fn bare_table(p: &Palette, enabled: bool) -> (d: PaletteDef)
    requires
        fits(p.rotate as int),
    ensures
        d@ == (TableModel { stops: None, cosine: None, entries: None, ..saved(p@, enabled) }),
{
    let name = match &p.name {
        Some(n) => Some(text::owned(n.as_str())),
        None => None,
    };
    let interpolate = match p.interpolate {
        Interpolate::Rgb => None,
        Interpolate::Oklab => Some(Interpolate::Oklab),
    };
    PaletteDef {
        name,
        enabled: if enabled {
            None
        } else {
            Some(false)
        },
        cyclic: if p.cyclic {
            None
        } else {
            Some(false)
        },
        interpolate,
        rotate: if p.rotate == 0 {
            None
        } else {
            Some(tidy(p.rotate))
        },
        reverse: if p.reverse {
            Some(true)
        } else {
            None
        },
        stops: None,
        cosine: None,
        entries: None,
    }
}

impl PaletteDef {
    /// A file's palette from a gradient. Whether it is the colour source is
    /// written only where it is not, and defaults are left out, so the common
    /// file is small.
    pub fn from_palette(p: &Palette, enabled: bool) -> (d: PaletteDef)
        requires
            fits(p.rotate as int),
            body_fits(p.body@),
        ensures
            d@ == saved(p@, enabled),
    {
        let mut d = bare_table(p, enabled);
        if !is_untouched(p) {
            match &p.body {
                Body::Stops(s) => {
                    d.stops = Some(save_stops(s));
                },
                Body::Cosine(c) => {
                    d.cosine = Some(
                        Cosine {
                            a: tidy_point(c.a),
                            b: tidy_point(c.b),
                            c: tidy_point(c.c),
                            d: tidy_point(c.d),
                        },
                    );
                },
                Body::Entries(e) => {
                    d.entries = Some(save_entries(e));
                },
            }
        }
        d
    }
}

// ---- writing ---------------------------------------------------------------

/// What `toml_edit` writes for a text value.
pub uninterp spec fn quoted(s: Seq<char>) -> Seq<char>;

/// A character that stands for itself between double quotes.
pub open spec fn stands_for_itself(c: char) -> bool {
    c as nat > 0x1f && c != '"' && c != '\\' && c as nat != 0x7f
}

/// Whether every character of a text stands for itself between double quotes.
pub open spec fn is_verbatim(t: Seq<char>) -> bool {
    forall|i: int| 0 <= i < t.len() ==> stands_for_itself(#[trigger] t[i])
}

/// Whether a stop's colour is a text whose characters stand for themselves.
pub open spec fn is_verbatim_stop(s: StopModel) -> bool {
    s.color matches ColorModel::Hex(h) && is_verbatim(h)
}

/// Whether every colour of a table is a text, and the characters of its texts
/// stand for themselves.
pub open spec fn is_verbatim_table(d: TableModel) -> bool {
    &&& d.name matches Some(n) ==> is_verbatim(n)
    &&& d.stops matches Some(s) ==> forall|i: int|
        0 <= i < s.len() ==> is_verbatim_stop(#[trigger] s[i])
    &&& d.entries matches Some(e) ==> forall|i: int|
        0 <= i < e.len() ==> is_verbatim(#[trigger] e[i])
}

/// `toml_edit::Value` from a text, written out: a function of the text alone,
/// and the text between double quotes where none of its characters is a
/// double quote, a backslash or a control character.
#[verifier::external_body]
fn quote(s: &str) -> (r: String)
    ensures
        r@ == quoted(s@),
        (forall|i: int| 0 <= i < s@.len() ==> stands_for_itself(#[trigger] s@[i])) ==> r@ == "\""@
            + s@ + "\""@,
{
    toml_edit::Value::from(s).to_string()
}

/// The digits of `n` parts in ten to the `width` behind a point, without the
/// zeros at the end, but one digit at least.
pub open spec fn fraction_text(n: nat, width: nat) -> Seq<char>
    decreases width,
{
    if width > 1 && n % 10 == 0 {
        fraction_text(n / 10, (width - 1) as nat)
    } else {
        text::digits_padded(n, width)
    }
}

/// A number as files write it: always with a point.
pub open spec fn number_text(v: int) -> Seq<char> {
    let n = text::magnitude_of(v);
    (if v < 0 {
        "-"@
    } else {
        ""@
    }) + text::decimal(n / UNIT as nat) + "."@ + fraction_text(n % UNIT as nat, 9)
}

/// Three numbers as files write them.
pub open spec fn triple_text(p: Point) -> Seq<char> {
    "["@ + number_text(p.x as int) + ", "@ + number_text(p.y as int) + ", "@ + number_text(
        p.z as int,
    ) + "]"@
}

/// A word for a yes or no.
pub open spec fn flag_text(b: bool) -> Seq<char> {
    if b {
        "true"@
    } else {
        "false"@
    }
}

/// A line that sets a key, where there is something to set.
pub open spec fn line_text(key: Seq<char>, value: Option<Seq<char>>) -> Seq<char> {
    match value {
        Some(v) => key + " = "@ + v + "\n"@,
        None => ""@,
    }
}

/// A stop as files write it.
pub open spec fn stop_text(s: StopModel) -> Seq<char> {
    "{ at = "@ + number_text(s.at as int) + ", color = "@ + (match s.color {
        ColorModel::Hex(h) => quoted(h),
        ColorModel::Linear(i) => triple_text(i.linear->0),
    }) + " }"@
}

/// The first `n` stops, one to a line.
pub open spec fn stop_rows(s: Seq<StopModel>, n: nat) -> Seq<char>
    decreases n,
{
    if n == 0 {
        ""@
    } else {
        stop_rows(s, (n - 1) as nat) + (if n == 1 {
            "\n    "@
        } else {
            ",\n    "@
        }) + stop_text(s[n - 1])
    }
}

/// What stands before entry `i`: a new row every eight.
pub open spec fn entry_lead(i: nat) -> Seq<char> {
    if i == 0 {
        "\n    "@
    } else if i % 8 == 0 {
        ",\n    "@
    } else {
        ", "@
    }
}

/// The first `n` entries, eight to a row.
pub open spec fn entry_rows(e: Seq<Seq<char>>, n: nat) -> Seq<char>
    decreases n,
{
    if n == 0 {
        ""@
    } else {
        entry_rows(e, (n - 1) as nat) + entry_lead((n - 1) as nat) + quoted(e[n - 1])
    }
}

/// A formula as files write it.
pub open spec fn cosine_text(c: Cosine) -> Seq<char> {
    "{ a = "@ + triple_text(c.a) + ", b = "@ + triple_text(c.b) + ", c = "@ + triple_text(c.c)
        + ", d = "@ + triple_text(c.d) + " }"@
}

/// What a flag reads where it is set.
pub open spec fn flag_of(b: Option<bool>) -> Option<Seq<char>> {
    match b {
        Some(v) => Some(flag_text(v)),
        None => None,
    }
}

/// The lines that say which palette it is, and whether it is in use.
pub open spec fn source_text(d: TableModel) -> Seq<char> {
    line_text(
        "name"@,
        match d.name {
            Some(n) => Some(quoted(n)),
            None => None,
        },
    ) + line_text("enabled"@, flag_of(d.enabled)) + line_text("cyclic"@, flag_of(d.cyclic))
}

/// The lines that say how a palette is read.
pub open spec fn reading_text(d: TableModel) -> Seq<char> {
    line_text(
        "interpolate"@,
        match d.interpolate {
            Some(i) => Some(quoted(i.name_text())),
            None => None,
        },
    ) + line_text(
        "rotate"@,
        match d.rotate {
            Some(v) => Some(number_text(v as int)),
            None => None,
        },
    ) + line_text("reverse"@, flag_of(d.reverse))
}

/// The lines of a palette's colours: stops one to a line, a formula on one
/// line, entries eight to a row.
pub open spec fn colors_text(d: TableModel) -> Seq<char> {
    line_text(
        "stops"@,
        match d.stops {
            Some(s) => Some("["@ + stop_rows(s, s.len()) + "\n]"@),
            None => None,
        },
    ) + line_text(
        "cosine"@,
        match d.cosine {
            Some(c) => Some(cosine_text(c)),
            None => None,
        },
    ) + line_text(
        "entries"@,
        match d.entries {
            Some(e) => Some("["@ + entry_rows(e, e.len()) + "\n]"@),
            None => None,
        },
    )
}

/// A palette as files write it.
pub open spec fn table_text(d: TableModel) -> Seq<char> {
    source_text(d) + reading_text(d) + colors_text(d)
}

fn push_fraction(out: &mut String, n: u64)
    ensures
        final(out)@ == old(out)@ + fraction_text(n as nat, 9),
{
    let mut rest: u64 = n;
    let mut width: usize = 9;
    while width > 1 && rest % 10 == 0
        invariant
            1 <= width <= 9,
            fraction_text(rest as nat, width as nat) == fraction_text(n as nat, 9),
        decreases width,
    {
        rest = rest / 10;
        width = width - 1;
    }
    text::push_digits(out, rest as u128, width);
}

fn number(v: i64) -> (s: String)
    ensures
        s@ == number_text(v as int),
{
    let mut s = String::new();
    let n: u64 = if v < 0 {
        s.append("-");
        (-(v as i128)) as u64
    } else {
        v as u64
    };
    assert(s@ =~= (if v < 0 {
        "-"@
    } else {
        ""@
    })) by {
        reveal_strlit("");
    }
    text::push_decimal(&mut s, (n / UNIT) as u128);
    s.append(".");
    push_fraction(&mut s, n % UNIT);
    s
}

fn triple(p: Point) -> (s: String)
    ensures
        s@ == triple_text(p),
{
    let mut s = text::owned("[");
    s.append(number(p.x).as_str());
    s.append(", ");
    s.append(number(p.y).as_str());
    s.append(", ");
    s.append(number(p.z).as_str());
    s.append("]");
    s
}

fn push_line(out: &mut String, key: &str, value: &str)
    ensures
        final(out)@ == old(out)@ + line_text(key@, Some(value@)),
{
    let ghost before = out@;
    out.append(key);
    out.append(" = ");
    out.append(value);
    out.append("\n");
    assert(out@ =~= before + line_text(key@, Some(value@)));
}

/// Nothing to set adds nothing.
proof fn no_line(before: Seq<char>, key: Seq<char>)
    ensures
        before + line_text(key, None) == before,
{
    reveal_strlit("");
    assert(before + line_text(key, None) =~= before);
}

fn push_text_line(out: &mut String, key: &str, value: Option<&str>)
    ensures
        final(out)@ == old(out)@ + line_text(
            key@,
            match value {
                Some(v) => Some(quoted(v@)),
                None => None,
            },
        ),
        value matches Some(v) ==> is_verbatim(v@) ==> is_plainly_quoted(v@),
{
    match value {
        Some(v) => {
            push_line(out, key, quote(v).as_str());
        },
        None => {
            proof {
                no_line(out@, key@);
            }
        },
    }
}

fn push_flag_line(out: &mut String, key: &str, value: Option<bool>)
    ensures
        final(out)@ == old(out)@ + line_text(key@, flag_of(value)),
{
    match value {
        Some(true) => {
            push_line(out, key, "true");
        },
        Some(false) => {
            push_line(out, key, "false");
        },
        None => {
            proof {
                no_line(out@, key@);
            }
        },
    }
}

fn push_number_line(out: &mut String, key: &str, value: Option<i64>)
    ensures
        final(out)@ == old(out)@ + line_text(
            key@,
            match value {
                Some(v) => Some(number_text(v as int)),
                None => None,
            },
        ),
{
    match value {
        Some(v) => {
            push_line(out, key, number(v).as_str());
        },
        None => {
            proof {
                no_line(out@, key@);
            }
        },
    }
}

fn stop_string(d: &StopDef) -> (s: String)
    ensures
        s@ == stop_text(d@),
        d@.color matches ColorModel::Hex(h) ==> is_verbatim(h) ==> is_plainly_quoted(h),
{
    let mut s = text::owned("{ at = ");
    s.append(number(d.at).as_str());
    s.append(", color = ");
    match &d.color {
        ColorDef::Hex(h) => {
            s.append(quote(h.as_str()).as_str());
        },
        ColorDef::Linear { values, red, green, blue } => {
            s.append(triple(*values).as_str());
        },
    }
    s.append(" }");
    s
}

fn stop_list(stops: &Vec<StopDef>) -> (s: String)
    ensures
        s@ == "["@ + stop_rows(stop_models(stops@), stops@.len()) + "\n]"@,
        forall|i: int|
            0 <= i < stops@.len() ==> is_verbatim_stop(#[trigger] stop_models(stops@)[i])
                ==> is_plain_stop(stop_models(stops@)[i]),
{
    let ghost all = stop_models(stops@);
    let mut s = text::owned("[");
    let mut i: usize = 0;
    proof {
        reveal_strlit("");
        assert(s@ =~= "["@ + stop_rows(all, 0));
    }
    while i < stops.len()
        invariant
            i <= stops@.len(),
            all == stop_models(stops@),
            s@ == "["@ + stop_rows(all, i as nat),
            forall|k: int|
                0 <= k < i ==> is_verbatim_stop(#[trigger] all[k]) ==> is_plain_stop(all[k]),
        decreases stops@.len() - i,
    {
        let ghost before = s@;
        if i == 0 {
            s.append("\n    ");
        } else {
            s.append(",\n    ");
        }
        let one = stop_string(&stops[i]);
        s.append(one.as_str());
        assert(all[i as int] == stops@[i as int]@);
        i += 1;
        assert(s@ =~= "["@ + stop_rows(all, i as nat));
    }
    s.append("\n]");
    s
}

fn entry_list(entries: &Vec<String>) -> (s: String)
    ensures
        s@ == "["@ + entry_rows(text::views(entries@), entries@.len()) + "\n]"@,
        forall|i: int|
            0 <= i < entries@.len() ==> is_verbatim(#[trigger] text::views(entries@)[i])
                ==> is_plainly_quoted(text::views(entries@)[i]),
{
    let ghost all = text::views(entries@);
    let mut s = text::owned("[");
    let mut i: usize = 0;
    proof {
        reveal_strlit("");
        assert(s@ =~= "["@ + entry_rows(all, 0));
    }
    while i < entries.len()
        invariant
            i <= entries@.len(),
            all == text::views(entries@),
            s@ == "["@ + entry_rows(all, i as nat),
            forall|k: int|
                0 <= k < i ==> is_verbatim(#[trigger] all[k]) ==> is_plainly_quoted(all[k]),
        decreases entries@.len() - i,
    {
        if i == 0 {
            s.append("\n    ");
        } else if i % 8 == 0 {
            s.append(",\n    ");
        } else {
            s.append(", ");
        }
        let one = quote(entries[i].as_str());
        s.append(one.as_str());
        assert(all[i as int] == entries@[i as int]@);
        i += 1;
        assert(s@ =~= "["@ + entry_rows(all, i as nat));
    }
    s.append("\n]");
    s
}

fn cosine_string(c: Cosine) -> (s: String)
    ensures
        s@ == cosine_text(c),
{
    let mut s = text::owned("{ a = ");
    s.append(triple(c.a).as_str());
    s.append(", b = ");
    s.append(triple(c.b).as_str());
    s.append(", c = ");
    s.append(triple(c.c).as_str());
    s.append(", d = ");
    s.append(triple(c.d).as_str());
    s.append(" }");
    s
}

impl PaletteDef {
    fn push_source(&self, out: &mut String)
        ensures
            final(out)@ == old(out)@ + source_text(self@),
            self@.name matches Some(n) ==> is_verbatim(n) ==> is_plainly_quoted(n),
    {
        let ghost before = out@;
        let name = match &self.name {
            Some(n) => Some(n.as_str()),
            None => None,
        };
        push_text_line(out, "name", name);
        let ghost one = line_text(
            "name"@,
            match self@.name {
                Some(n) => Some(quoted(n)),
                None => None,
            },
        );
        assert(out@ == before + one);
        push_flag_line(out, "enabled", self.enabled);
        push_flag_line(out, "cyclic", self.cyclic);
        assert(out@ =~= before + source_text(self@));
    }

    fn push_reading(&self, out: &mut String)
        ensures
            final(out)@ == old(out)@ + reading_text(self@),
            self@.interpolate matches Some(i) ==> is_plainly_quoted(i.name_text()),
    {
        proof {
            reveal_strlit("rgb");
            reveal_strlit("oklab");
        }
        let ghost before = out@;
        let space = match &self.interpolate {
            Some(i) => Some(i.name()),
            None => None,
        };
        push_text_line(out, "interpolate", space);
        let ghost one = line_text(
            "interpolate"@,
            match self@.interpolate {
                Some(i) => Some(quoted(i.name_text())),
                None => None,
            },
        );
        assert(out@ == before + one);
        push_number_line(out, "rotate", self.rotate);
        push_flag_line(out, "reverse", self.reverse);
        assert(out@ =~= before + reading_text(self@));
    }

    #[verifier::rlimit(60)]
    fn push_colors(&self, out: &mut String)
        ensures
            final(out)@ == old(out)@ + colors_text(self@),
            self@.stops matches Some(s) ==> forall|i: int|
                0 <= i < s.len() ==> is_verbatim_stop(#[trigger] s[i]) ==> is_plain_stop(s[i]),
            self@.entries matches Some(e) ==> forall|i: int|
                0 <= i < e.len() ==> is_verbatim(#[trigger] e[i]) ==> is_plainly_quoted(e[i]),
    {
        match &self.stops {
            Some(s) => {
                push_line(out, "stops", stop_list(s).as_str());
            },
            None => {
                proof {
                    no_line(out@, "stops"@);
                }
            },
        }
        match self.cosine {
            Some(c) => {
                push_line(out, "cosine", cosine_string(c).as_str());
            },
            None => {
                proof {
                    no_line(out@, "cosine"@);
                }
            },
        }
        match &self.entries {
            Some(e) => {
                push_line(out, "entries", entry_list(e).as_str());
            },
            None => {
                proof {
                    no_line(out@, "entries"@);
                }
            },
        }
        assert(out@ =~= old(out)@ + colors_text(self@));
    }

    /// The lines of a palette's table. Stops stand one to a line, because a
    /// gradient is read down the page, and a formula and the entries stand
    /// inside the table, so that the lines can be pasted anywhere.
    pub fn to_table(&self) -> (s: String)
        ensures
            s@ == table_text(self@),
            is_verbatim_table(self@) ==> is_plain_table(self@),
    {
        let mut s = String::new();
        self.push_source(&mut s);
        self.push_reading(&mut s);
        self.push_colors(&mut s);
        assert(s@ =~= table_text(self@));
        s
    }

    /// A palette to paste into a file.
    pub fn to_toml_fragment(&self) -> (s: String)
        ensures
            s@ == "[palette]\n"@ + table_text(self@),
    {
        let mut s = text::owned("[palette]\n");
        self.push_source(&mut s);
        self.push_reading(&mut s);
        self.push_colors(&mut s);
        assert(s@ =~= "[palette]\n"@ + table_text(self@));
        s
    }
}

// ---- what holds of saving and reading --------------------------------------

/// A number that saving leaves as it is.
pub open spec fn is_tidy(v: int) -> bool {
    fits(v) && v % 100_000 == 0
}

/// A point that saving leaves as it is.
pub open spec fn point_is_tidy(p: Point) -> bool {
    is_tidy(p.x as int) && is_tidy(p.y as int) && is_tidy(p.z as int)
}

/// Colours that saving leaves as they are.
pub open spec fn body_is_tidy(b: BodyModel) -> bool {
    match b {
        BodyModel::Stops(s) => super::in_order(s) && forall|i: int|
            0 <= i < s.len() ==> is_tidy((#[trigger] s[i]).at as int) && s[i].color.linear is None,
        BodyModel::Cosine(c) => point_is_tidy(c.a) && point_is_tidy(c.b) && point_is_tidy(c.c)
            && point_is_tidy(c.d),
        BodyModel::Entries(e) => e.len() == 256 && forall|i: int|
            0 <= i < e.len() ==> (#[trigger] e[i]).linear is None,
    }
}

/// Rounding leaves a rounded number as it is.
pub proof fn tidying_is_idempotent(v: int)
    requires
        fits(v),
    ensures
        tidied(tidied(v)) == tidied(v),
        is_tidy(v) ==> tidied(v) == v,
{
    let n = if v >= 0 {
        v
    } else {
        -v
    };
    let q = (n + 50_000) / 100_000;
    assert((q * 100_000 + 50_000) / 100_000 == q);
    if is_tidy(v) {
        let k = v / 100_000;
        assert(v == 100_000 * k);
        if v >= 0 {
            assert((100_000 * k + 50_000) / 100_000 == k);
        } else {
            assert((50_000 - 100_000 * k) / 100_000 == -k);
        }
    }
}

proof fn saved_stops_read(s: Seq<Stop>, n: nat)
    requires
        n <= s.len(),
        forall|i: int|
            0 <= i < s.len() ==> is_tidy((#[trigger] s[i]).at as int) && s[i].color.linear is None,
    ensures
        read_stops(saved_stops(s), n) == Ok::<Seq<Stop>, Seq<char>>(s.take(n as int)),
    decreases n,
{
    if n == 0 {
        assert(s.take(0) =~= Seq::empty());
    } else {
        saved_stops_read(s, (n - 1) as nat);
        let x = s[n - 1];
        hex_reads_back(x.color);
        tidying_is_idempotent(x.at as int);
        assert(s.take(n as int) =~= s.take(n - 1).push(x));
    }
}

proof fn saved_entries_read(e: Seq<Ink>, n: nat)
    requires
        n <= e.len(),
        forall|i: int| 0 <= i < e.len() ==> (#[trigger] e[i]).linear is None,
    ensures
        read_entries(saved_entries(e), n) == Ok::<Seq<Ink>, Seq<char>>(e.take(n as int)),
    decreases n,
{
    if n == 0 {
        assert(e.take(0) =~= Seq::empty());
    } else {
        saved_entries_read(e, (n - 1) as nat);
        hex_reads_back(e[n - 1]);
        assert(e.take(n as int) =~= e.take(n - 1).push(e[n - 1]));
    }
}

/// Stops in order stay as they are.
pub(crate) proof fn sorted_stays(s: Seq<Stop>)
    requires
        super::in_order(s),
    ensures
        super::sorted(s) == s,
    decreases s.len(),
{
    if s.len() > 0 {
        let t = s.drop_last();
        assert(super::in_order(t)) by {
            assert forall|i: int, j: int| 0 <= i <= j < t.len() implies t[i].at <= t[j].at by {
                assert(s[i].at <= s[j].at);
            }
        }
        sorted_stays(t);
        if t.len() > 0 {
            assert(s[t.len() - 1].at <= s[s.len() - 1].at);
        }
        assert(t.push(s.last()) =~= s);
    }
}

/// A palette of four-place numbers and shown colours is what its file reads
/// as, whatever its form, and whether or not it is the colour source.
pub proof fn a_palette_reads_back(p: PaletteModel, enabled: bool)
    requires
        is_tidy(p.rotate),
        body_is_tidy(p.body),
    ensures
        resolved(saved(p, enabled)) == Ok::<PaletteModel, Seq<char>>(p),
{
    let d = saved(p, enabled);
    tidying_is_idempotent(p.rotate);
    if !untouched(p) {
        match p.body {
            BodyModel::Stops(s) => {
                saved_stops_read(s, s.len());
                assert(s.take(s.len() as int) =~= s);
                sorted_stays(s);
            },
            BodyModel::Cosine(c) => {
                tidy_point_stays(c.a);
                tidy_point_stays(c.b);
                tidy_point_stays(c.c);
                tidy_point_stays(c.d);
            },
            BodyModel::Entries(e) => {
                saved_entries_read(e, e.len());
                assert(e.take(e.len() as int) =~= e);
            },
        }
    }
}

proof fn tidy_point_stays(p: Point)
    requires
        point_is_tidy(p),
    ensures
        tidied_point(p) == p,
{
    tidying_is_idempotent(p.x as int);
    tidying_is_idempotent(p.y as int);
    tidying_is_idempotent(p.z as int);
}

/// A library palette is saved as its name alone, and reads back as itself.
pub proof fn a_library_palette_is_saved_by_name(i: int)
    requires
        0 <= i < library::SIZE,
    ensures
        ({
            let p = library::palette_of(library::entry(i));
            let d = saved(p, true);
            &&& d.name == Some(library::entry(i).name)
            &&& d.enabled is None && d.cyclic is None && d.interpolate is None
            &&& d.rotate is None && d.reverse is None
            &&& d.stops is None && d.cosine is None && d.entries is None
            &&& resolved(d) == Ok::<PaletteModel, Seq<char>>(p)
        }),
{
    library::a_name_finds_its_own_palette(i);
}

/// An edited library palette carries its colours, and keeps its name.
pub proof fn an_edited_palette_carries_its_colours(p: PaletteModel, enabled: bool)
    requires
        p.name matches Some(name) && (library::found(name, 0) matches Some(i) ==> library::palette_of(
            library::entry(i),
        ).body != p.body),
    ensures
        saved(p, enabled).name == p.name,
        saved(p, enabled).stops is Some || saved(p, enabled).cosine is Some || saved(
            p,
            enabled,
        ).entries is Some,
{
}

/// Turned off, a palette stays in the file and says so; turned on, it does not
/// say so.
pub proof fn turning_off_is_saved(p: PaletteModel, enabled: bool)
    ensures
        saved(p, enabled).enabled == Some(false) <==> !enabled,
        saved(p, enabled).enabled != Some(true),
        saved(p, false) == (TableModel { enabled: Some(false), ..saved(p, true) }),
{
}

/// Tidying goes to the nearest number of four places.
pub proof fn tidying_goes_to_the_nearest(v: int)
    ensures
        tidied(v) % 100_000 == 0,
        -50_000 <= tidied(v) - v <= 50_000,
        tidied(-v) == -tidied(v),
{
}

/// What a table says beside its colours counts, whatever they are, and changes
/// nothing else.
pub proof fn what_a_table_says_counts(
    d: TableModel,
    cyclic: bool,
    space: Interpolate,
    rotate: i64,
    reverse: bool,
)
    ensures
        match resolved(d) {
            Ok(p) => {
                &&& resolved(TableModel { cyclic: Some(cyclic), ..d }) == Ok::<
                    PaletteModel,
                    Seq<char>,
                >(PaletteModel { cyclic, ..p })
                &&& resolved(TableModel { interpolate: Some(space), ..d }) == Ok::<
                    PaletteModel,
                    Seq<char>,
                >(PaletteModel { interpolate: space, ..p })
                &&& resolved(TableModel { rotate: Some(rotate), ..d }) == Ok::<
                    PaletteModel,
                    Seq<char>,
                >(PaletteModel { rotate: rotate as int, ..p })
                &&& resolved(TableModel { reverse: Some(reverse), ..d }) == Ok::<
                    PaletteModel,
                    Seq<char>,
                >(PaletteModel { reverse, ..p })
                &&& d.name is Some ==> p.name == d.name
                &&& d.rotate is None ==> p.rotate == 0
                &&& d.reverse is None ==> !p.reverse
            },
            Err(e) => resolved(TableModel { cyclic: Some(cyclic), ..d }) == Err::<
                PaletteModel,
                Seq<char>,
            >(e),
        },
{
}

/// Stops count over a formula, a formula over entries, and any of them over the
/// colours of the palette that the table names.
pub proof fn colours_have_their_order(d: TableModel)
    ensures
        d.stops is Some ==> resolved(d) == resolved(
            TableModel { cosine: None, entries: None, ..d },
        ),
        d.cosine is Some ==> resolved(d) == resolved(TableModel { entries: None, ..d }),
        d.stops is None && d.cosine is Some ==> (resolved(d) matches Ok(p) && p.body
            == BodyModel::Cosine(d.cosine->0)),
        d.stops is Some ==> (resolved(d) matches Ok(p) ==> p.body is Stops && p.body->Stops_0.len()
            == (d.stops->0).len()),
        d.stops is None && d.cosine is None && d.entries is Some ==> (resolved(d) is Ok ==> (
        d.entries->0).len() == 256),
{
    if d.stops is Some {
        let v = d.stops->0;
        stops_are_all_read(v, v.len());
        match read_stops(v, v.len()) {
            Ok(s) => super::sorting_orders(s),
            Err(_) => {},
        }
    }
}

/// Every stop of a table is read, in its place and with its colour.
pub proof fn stops_are_all_read(defs: Seq<StopModel>, n: nat)
    requires
        n <= defs.len(),
    ensures
        match read_stops(defs, n) {
            Ok(v) => v.len() == n && forall|i: int|
                0 <= i < n ==> (#[trigger] v[i]).at == defs[i].at && defs[i].color.ink() == Ok::<
                    Ink,
                    Seq<char>,
                >(v[i].color),
            Err(e) => exists|i: int| 0 <= i < n && (#[trigger] defs[i]).color.ink() is Err,
        },
    decreases n,
{
    if n > 0 {
        stops_are_all_read(defs, (n - 1) as nat);
        match read_stops(defs, (n - 1) as nat) {
            Ok(v) => {
                if defs[n - 1].color.ink() is Err {
                    assert(defs[n - 1].color.ink() is Err);
                }
            },
            Err(_) => {},
        }
    }
}

} // verus!
