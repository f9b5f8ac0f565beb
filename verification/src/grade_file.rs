//! The grade buffer: a finished render's linear density, saved so that the
//! tonemap can be redone without rendering again.
//!
//! ```text
//! fracturize-grade 1\n     magic and format version
//! <decimal length>\n       bytes of header that follow
//! <header>                 [grade_buffer] and the render record
//! <raw pixels>             width*height*4 binary32, little-endian, RGBA
//! ```
//!
//! A number in the header is kept as the text that writes it, and a pixel as
//! its bit pattern, so that nothing is rounded on the way.

use vstd::prelude::*;
use crate::bytes;
use crate::filename;
use crate::num::product;
use crate::number;
use crate::text;

verus! {

/// A cap on the declared header length.
pub const MAX_HEADER_BYTES: usize = 1_048_576;

/// A saved buffer with everything that the tonemap needs beside the pixels.
pub struct GradeBuffer {
    pub width: u32,
    pub height: u32,
    /// Samples accumulated behind this buffer
    pub samples: String,
    /// The supersampled target height the render used
    pub screen_height: String,
    /// Linear RGB that the tonemap composites over
    pub background: (String, String, String),
    pub transparent: bool,
    pub exposure: String,
    pub gamma: String,
    pub gamma_threshold: String,
    pub vibrancy: String,
    /// RGBA bit patterns, row by row from the top
    pub pixels: Vec<u32>,
}

/// A buffer as the contracts speak of it.
#[verifier::ext_equal]
pub struct Buffer {
    pub width: nat,
    pub height: nat,
    pub samples: Seq<char>,
    pub screen_height: Seq<char>,
    pub background: (Seq<char>, Seq<char>, Seq<char>),
    pub transparent: bool,
    pub exposure: Seq<char>,
    pub gamma: Seq<char>,
    pub gamma_threshold: Seq<char>,
    pub vibrancy: Seq<char>,
    pub pixels: Seq<u32>,
}

impl GradeBuffer {
    pub open spec fn view(&self) -> Buffer {
        Buffer {
            width: self.width as nat,
            height: self.height as nat,
            samples: self.samples@,
            screen_height: self.screen_height@,
            background: (self.background.0@, self.background.1@, self.background.2@),
            transparent: self.transparent,
            exposure: self.exposure@,
            gamma: self.gamma@,
            gamma_threshold: self.gamma_threshold@,
            vibrancy: self.vibrancy@,
            pixels: self.pixels@,
        }
    }
}

/// Why a file is no grade buffer.
pub enum ReadError {
    NotAGradeBuffer,
    TruncatedLength,
    UnreadableLength,
    HeaderClaims(usize),
    TruncatedHeader,
    NotUtf8,
    Missing(&'static str),
    NotANumber(&'static str),
    NotThreeNumbers,
    WrongSize { width: u32, height: u32, expected: u128, found: usize },
}

impl ReadError {
    /// What is said of a file, by the path it came from.
    pub open spec fn text(self, path: Seq<char>) -> Seq<char> {
        match self {
            ReadError::NotAGradeBuffer => path + " is not a fracturize grade buffer"@,
            ReadError::TruncatedLength => path + ": truncated header length"@,
            ReadError::UnreadableLength => path + ": unreadable header length"@,
            ReadError::HeaderClaims(n) => path + ": header claims "@ + text::decimal(n as nat)
                + " bytes"@,
            ReadError::TruncatedHeader => path + ": truncated header"@,
            ReadError::NotUtf8 => path + ": header is not UTF-8"@,
            ReadError::Missing(key) => path + ": header has no `"@ + key@ + "`"@,
            ReadError::NotANumber(key) => path + ": `"@ + key@ + "` is not a number"@,
            ReadError::NotThreeNumbers => path + ": `background` is not three numbers"@,
            ReadError::WrongSize { width, height, expected, found } => path + ": header says "@
                + text::decimal(width as nat) + "x"@ + text::decimal(height as nat) + " ("@
                + text::decimal(expected as nat) + " bytes of pixels) but the file has "@
                + text::decimal(found as nat),
        }
    }

    /// The message for a file.
    pub fn message(&self, path: &str) -> (s: String)
        ensures
            s@ == self.text(path@),
    {
        let mut s = String::new();
        s.append(path);
        match self {
            ReadError::NotAGradeBuffer => s.append(" is not a fracturize grade buffer"),
            ReadError::TruncatedLength => s.append(": truncated header length"),
            ReadError::UnreadableLength => s.append(": unreadable header length"),
            ReadError::HeaderClaims(n) => {
                s.append(": header claims ");
                text::push_decimal(&mut s, *n as u128);
                s.append(" bytes");
            },
            ReadError::TruncatedHeader => s.append(": truncated header"),
            ReadError::NotUtf8 => s.append(": header is not UTF-8"),
            ReadError::Missing(key) => {
                s.append(": header has no `");
                s.append(key);
                s.append("`");
            },
            ReadError::NotANumber(key) => {
                s.append(": `");
                s.append(key);
                s.append("` is not a number");
            },
            ReadError::NotThreeNumbers => s.append(": `background` is not three numbers"),
            ReadError::WrongSize { width, height, expected, found } => {
                s.append(": header says ");
                text::push_decimal(&mut s, *width as u128);
                s.append("x");
                text::push_decimal(&mut s, *height as u128);
                s.append(" (");
                text::push_decimal(&mut s, *expected);
                s.append(" bytes of pixels) but the file has ");
                text::push_decimal(&mut s, *found as u128);
            },
        }
        assert(s@ =~= self.text(path@));
        s
    }
}

/// The first line of a text, without its line break.
pub open spec fn first_line(s: Seq<char>) -> Seq<char> {
    s.take(text::index_of(s, '\n'))
}

/// What follows the first line.
pub open spec fn after_line(s: Seq<char>) -> Seq<char> {
    let i = text::index_of(s, '\n');
    if i < s.len() {
        s.skip(i + 1)
    } else {
        Seq::empty()
    }
}

/// Whether a line opens a block.
pub open spec fn opens_block(line: Seq<char>) -> bool {
    line.len() > 0 && line[0] == '['
}

/// Whether a line says nothing.
pub open spec fn says_nothing(line: Seq<char>) -> bool {
    line.len() == 0 || line[0] == '#'
}

/// What a line assigns to `key`, if it does: the text after the first equals
/// sign.
pub open spec fn assigned(line: Seq<char>, key: Seq<char>) -> Option<Seq<char>> {
    let i = text::index_of(line, '=');
    if i < line.len() && text::trimmed(line.take(i)) == key {
        Some(text::trimmed(line.skip(i + 1)))
    } else {
        None
    }
}

/// What `key` is assigned in the `[grade_buffer]` block of the rest of a
/// header: the last assignment counts, and `found` is the one so far.
pub open spec fn scanned(
    s: Seq<char>,
    inside: bool,
    found: Option<Seq<char>>,
    key: Seq<char>,
) -> Option<Seq<char>>
    decreases s.len(),
{
    if s.len() == 0 {
        found
    } else {
        proof {
            text::index_of_finds(s, '\n');
        }
        let line = text::trimmed(first_line(s));
        let rest = after_line(s);
        if opens_block(line) {
            scanned(rest, line == "[grade_buffer]"@, found, key)
        } else if !inside || says_nothing(line) {
            scanned(rest, inside, found, key)
        } else {
            scanned(
                rest,
                inside,
                match assigned(line, key) {
                    Some(v) => Some(v),
                    None => found,
                },
                key,
            )
        }
    }
}

/// What the header assigns to `key`.
pub open spec fn field(header: Seq<char>, key: Seq<char>) -> Option<Seq<char>> {
    scanned(header, false, None, key)
}

/// What an optional text reads.
pub open spec fn opt_view(t: Option<String>) -> Option<Seq<char>> {
    match t {
        Some(s) => Some(s@),
        None => None,
    }
}

fn assignment(v: &Vec<char>, from: usize, to: usize, key: &Vec<char>) -> (r: Option<String>)
    requires
        from <= to <= v.len(),
    ensures
        opt_view(r) == assigned(v@.subrange(from as int, to as int), key@),
{
    let ghost line = v@.subrange(from as int, to as int);
    proof {
        text::index_of_finds(line, '=');
    }
    let i: usize = text::find(v, from, to, '=');
    if i == to {
        return None;
    }
    let (a, b) = text::trim_at(v, from, i);
    assert(v@.subrange(from as int, i as int) =~= line.take(i - from));
    if !text::range_is(v, a, b, key) {
        return None;
    }
    let (c, d) = text::trim_at(v, i + 1, to);
    assert(v@.subrange(i + 1, to as int) =~= line.skip(i - from + 1));
    Some(text::string_of_range(v, c, d))
}

/// What the header assigns to `key`.
fn find_field(v: &Vec<char>, name: &str) -> (r: Option<String>)
    ensures
        opt_view(r) == field(v@, name@),
{
    let key = text::chars_of(name);
    let block = text::chars_of("[grade_buffer]");
    let mut found: Option<String> = None;
    let mut inside = false;
    let mut i: usize = 0;
    assert(v@.skip(0) =~= v@);
    while i < v.len()
        invariant
            i <= v.len(),
            key@ == name@,
            block@ == "[grade_buffer]"@,
            scanned(v@.skip(i as int), inside, opt_view(found), name@) == field(v@, name@),
        decreases v.len() - i,
    {
        let ghost s = v@.skip(i as int);
        proof {
            text::index_of_finds(s, '\n');
        }
        assert(v@.subrange(i as int, v.len() as int) =~= s);
        let e: usize = text::find(v, i, v.len(), '\n');
        let (a, b) = text::trim_at(v, i, e);
        assert(v@.subrange(i as int, e as int) =~= first_line(s));
        let ghost line = v@.subrange(a as int, b as int);
        assert(line == text::trimmed(first_line(s)));
        let next: usize = if e < v.len() {
            e + 1
        } else {
            e
        };
        assert(v@.skip(next as int) =~= after_line(s));
        if a < b && v[a] == '[' {
            inside = text::range_is(v, a, b, &block);
        } else if !inside || a == b || v[a] == '#' {
        } else {
            let got = assignment(v, a, b, &key);
            if got.is_some() {
                found = got;
            }
        }
        i = next;
    }
    assert(v@.skip(i as int).len() == 0);
    found
}

/// `s` without the characters `c` that it starts with.
pub open spec fn without_leading(s: Seq<char>, c: char) -> Seq<char>
    decreases s.len(),
{
    if s.len() > 0 && s[0] == c {
        without_leading(s.drop_first(), c)
    } else {
        s
    }
}

/// `s` without the characters `c` that it ends with.
pub open spec fn without_trailing(s: Seq<char>, c: char) -> Seq<char>
    decreases s.len(),
{
    if s.len() > 0 && s.last() == c {
        without_trailing(s.drop_last(), c)
    } else {
        s
    }
}

/// The numbers between the commas of a text, in order; what is no number is
/// passed over.
pub open spec fn numbers_in(s: Seq<char>) -> Seq<Seq<char>>
    decreases s.len(),
{
    proof {
        text::index_of_finds(s, ',');
    }
    let i = text::index_of(s, ',');
    let head = text::trimmed(s.take(i));
    let here = if number::is_number(head) {
        seq![head]
    } else {
        Seq::empty()
    };
    if i < s.len() {
        here + numbers_in(s.skip(i + 1))
    } else {
        here
    }
}

/// The numbers of a bracketed list.
pub open spec fn list_numbers(s: Seq<char>) -> Seq<Seq<char>> {
    numbers_in(without_trailing(without_leading(s, '['), ']'))
}

/// The numbers of a bracketed list.
fn parse_list(s: &str) -> (r: Vec<String>)
    ensures
        text::views(r@) == list_numbers(s@),
{
    let v = text::chars_of(s);
    let mut a: usize = 0;
    let n: usize = v.len();
    assert(v@.subrange(0, n as int) =~= s@);
    while a < n && v[a] == '['
        invariant
            a <= n,
            n == v.len(),
            without_leading(v@.subrange(a as int, n as int), '[') == without_leading(s@, '['),
        decreases n - a,
    {
        assert(v@.subrange(a as int, n as int).drop_first() =~= v@.subrange(a + 1, n as int));
        a += 1;
    }
    let mut z: usize = n;
    let ghost inner = without_leading(s@, '[');
    assert(v@.subrange(a as int, n as int) == inner);
    while z > a && v[z - 1] == ']'
        invariant
            a <= z <= n,
            n == v.len(),
            without_trailing(v@.subrange(a as int, z as int), ']') == without_trailing(inner, ']'),
        decreases z,
    {
        assert(v@.subrange(a as int, z as int).drop_last() =~= v@.subrange(a as int, z - 1));
        z -= 1;
    }
    let ghost bare = v@.subrange(a as int, z as int);
    assert(bare == without_trailing(inner, ']'));
    let mut r: Vec<String> = Vec::new();
    let mut i: usize = a;
    let ghost goal = numbers_in(bare);
    assert(text::views(r@) + goal =~= goal);
    loop
        invariant_except_break
            text::views(r@) + numbers_in(v@.subrange(i as int, z as int)) == goal,
        invariant
            a <= i <= z <= n,
            n == v.len(),
        ensures
            text::views(r@) == goal,
        decreases z - i,
    {
        let ghost rest = v@.subrange(i as int, z as int);
        proof {
            text::index_of_finds(rest, ',');
        }
        let e: usize = text::find(&v, i, z, ',');
        let (b, d) = text::trim_at(&v, i, e);
        assert(v@.subrange(i as int, e as int) =~= rest.take(e - i));
        let head = text::string_of_range(&v, b, d);
        let ghost before = text::views(r@);
        let ghost here = if number::is_number(head@) {
            seq![head@]
        } else {
            Seq::empty()
        };
        if number::writes_number(head.as_str()) {
            r.push(head);
        }
        assert(text::views(r@) =~= before + here);
        if e == z {
            assert(text::views(r@) =~= goal);
            break;
        }
        assert(v@.subrange(e + 1, z as int) =~= rest.skip(e - i + 1));
        assert(before + (here + numbers_in(rest.skip(e - i + 1))) =~= (before + here) + numbers_in(
            rest.skip(e - i + 1),
        ));
        i = e + 1;
    }
    r
}

/// A required number of the header: `Missing` without an assignment, and
/// `NotANumber` where it is assigned something else.
pub open spec fn number_field(header: Seq<char>, key: &'static str) -> Result<
    Seq<char>,
    ReadError,
> {
    match field(header, key@) {
        None => Err(ReadError::Missing(key)),
        Some(v) => if number::is_number(v) {
            Ok(v)
        } else {
            Err(ReadError::NotANumber(key))
        },
    }
}

/// What the header says, or the first thing that is wrong with it.
pub open spec fn header_says(h: Seq<char>) -> Result<Buffer, ReadError> {
    if field(h, "background"@) is None {
        Err(ReadError::Missing("background"))
    } else {
        let bg = list_numbers(field(h, "background"@)->0);
        if bg.len() != 3 {
            Err(ReadError::NotThreeNumbers)
        } else {
            match number_field(h, "width") {
                Err(e) => Err(e),
                Ok(width) => match number_field(h, "height") {
                    Err(e) => Err(e),
                    Ok(height) => match number_field(h, "samples") {
                        Err(e) => Err(e),
                        Ok(samples) => match number_field(h, "screen_height") {
                            Err(e) => Err(e),
                            Ok(screen_height) => match field(h, "transparent"@) {
                                None => Err(ReadError::Missing("transparent")),
                                Some(transparent) => match number_field(h, "exposure") {
                                    Err(e) => Err(e),
                                    Ok(exposure) => match number_field(h, "gamma") {
                                        Err(e) => Err(e),
                                        Ok(gamma) => match number_field(h, "gamma_threshold") {
                                            Err(e) => Err(e),
                                            Ok(gamma_threshold) => match number_field(
                                                h,
                                                "vibrancy",
                                            ) {
                                                Err(e) => Err(e),
                                                Ok(vibrancy) => Ok(
                                                    Buffer {
                                                        width: number::whole_u32(width),
                                                        height: number::whole_u32(height),
                                                        samples,
                                                        screen_height,
                                                        background: (bg[0], bg[1], bg[2]),
                                                        transparent: transparent == "true"@,
                                                        exposure,
                                                        gamma,
                                                        gamma_threshold,
                                                        vibrancy,
                                                        pixels: Seq::empty(),
                                                    },
                                                ),
                                            },
                                        },
                                    },
                                },
                            },
                        },
                    },
                },
            }
        }
    }
}

/// What a result reads.
pub open spec fn result_view(r: Result<GradeBuffer, ReadError>) -> Result<Buffer, ReadError> {
    match r {
        Ok(b) => Ok(b@),
        Err(e) => Err(e),
    }
}

fn need(h: &Vec<char>, key: &'static str) -> (r: Result<String, ReadError>)
    ensures
        match field(h@, key@) {
            None => r == Err::<String, ReadError>(ReadError::Missing(key)),
            Some(v) => r is Ok && (r->Ok_0)@ == v,
        },
{
    match find_field(h, key) {
        None => Err(ReadError::Missing(key)),
        Some(v) => Ok(v),
    }
}

fn num(h: &Vec<char>, key: &'static str) -> (r: Result<String, ReadError>)
    ensures
        match number_field(h@, key) {
            Err(e) => r == Err::<String, ReadError>(e),
            Ok(v) => r is Ok && (r->Ok_0)@ == v && number::is_number(v),
        },
{
    match need(h, key) {
        Err(e) => Err(e),
        Ok(v) => {
            if number::writes_number(v.as_str()) {
                Ok(v)
            } else {
                Err(ReadError::NotANumber(key))
            }
        },
    }
}

fn count(h: &Vec<char>, key: &'static str) -> (r: Result<u32, ReadError>)
    ensures
        match number_field(h@, key) {
            Err(e) => r == Err::<u32, ReadError>(e),
            Ok(v) => r == Ok::<u32, ReadError>(number::whole_u32(v) as u32) && r->Ok_0
                == number::whole_u32(v),
        },
{
    match need(h, key) {
        Err(e) => Err(e),
        Ok(v) => match number::parse_whole(v.as_str()) {
            Some(n) => Ok(n),
            None => Err(ReadError::NotANumber(key)),
        },
    }
}

/// Read the `[grade_buffer]` block of a header.
fn from_header(h: &Vec<char>) -> (r: Result<GradeBuffer, ReadError>)
    ensures
        result_view(r) == header_says(h@),
{
    let bg = match need(h, "background") {
        Err(e) => {
            return Err(e);
        },
        Ok(v) => v,
    };
    let mut parts = parse_list(bg.as_str());
    assert(text::views(parts@).len() == parts@.len());
    if parts.len() != 3 {
        return Err(ReadError::NotThreeNumbers);
    }
    assert(text::views(parts@)[0] == parts@[0]@);
    assert(text::views(parts@)[1] == parts@[1]@);
    assert(text::views(parts@)[2] == parts@[2]@);
    let blue = parts.remove(2);
    let green = parts.remove(1);
    let red = parts.remove(0);
    let width: u32 = match count(h, "width") {
        Err(e) => {
            return Err(e);
        },
        Ok(n) => n,
    };
    let height: u32 = match count(h, "height") {
        Err(e) => {
            return Err(e);
        },
        Ok(n) => n,
    };
    let samples = match num(h, "samples") {
        Err(e) => {
            return Err(e);
        },
        Ok(v) => v,
    };
    let screen_height = match num(h, "screen_height") {
        Err(e) => {
            return Err(e);
        },
        Ok(v) => v,
    };
    let transparent = match need(h, "transparent") {
        Err(e) => {
            return Err(e);
        },
        Ok(v) => text::same(v.as_str(), "true"),
    };
    let exposure = match num(h, "exposure") {
        Err(e) => {
            return Err(e);
        },
        Ok(v) => v,
    };
    let gamma = match num(h, "gamma") {
        Err(e) => {
            return Err(e);
        },
        Ok(v) => v,
    };
    let gamma_threshold = match num(h, "gamma_threshold") {
        Err(e) => {
            return Err(e);
        },
        Ok(v) => v,
    };
    let vibrancy = match num(h, "vibrancy") {
        Err(e) => {
            return Err(e);
        },
        Ok(v) => v,
    };
    let b = GradeBuffer {
        width,
        height,
        samples,
        screen_height,
        background: (red, green, blue),
        transparent,
        exposure,
        gamma,
        gamma_threshold,
        vibrancy,
        pixels: Vec::new(),
    };
    assert(b@.pixels =~= Seq::<u32>::empty());
    Ok(b)
}

/// The bytes that a file starts with.
pub open spec fn magic_bytes() -> Seq<u8> {
    vstd::utf8::encode_utf8("fracturize-grade 1\n"@)
}

/// The first position of the byte `b`, or the length where it does not occur.
pub open spec fn byte_index(s: Seq<u8>, b: u8) -> int
    decreases s.len(),
{
    if s.len() == 0 || s[0] == b {
        0
    } else {
        1 + byte_index(s.drop_first(), b)
    }
}

proof fn byte_index_is(s: Seq<u8>, b: u8, i: int)
    requires
        0 <= i <= s.len(),
        i < s.len() ==> s[i] == b,
        forall|k: int| 0 <= k < i ==> #[trigger] s[k] != b,
    ensures
        byte_index(s, b) == i,
    decreases s.len(),
{
    if i > 0 {
        let t = s.drop_first();
        assert(s[0] != b);
        assert forall|k: int| 0 <= k < i - 1 implies #[trigger] t[k] != b by {
            assert(t[k] == s[k + 1]);
        }
        byte_index_is(t, b, i - 1);
    }
}

fn find_byte(s: &[u8], b: u8) -> (e: usize)
    ensures
        e == byte_index(s@, b),
        e <= s@.len(),
{
    let mut e: usize = 0;
    while e < s.len() && s[e] != b
        invariant
            e <= s@.len(),
            forall|k: int| 0 <= k < e ==> #[trigger] s@[k] != b,
        decreases s@.len() - e,
    {
        e += 1;
    }
    proof {
        byte_index_is(s@, b, e as int);
    }
    e
}

/// The header length that the second line writes.
pub open spec fn length_of(line: Seq<u8>) -> Option<nat> {
    if vstd::utf8::valid_utf8(line) {
        text::unsigned_value(text::trimmed(vstd::utf8::decode_utf8(line)), usize::MAX as nat)
    } else {
        None
    }
}

/// The bit patterns of little-endian words.
pub open spec fn words(body: Seq<u8>) -> Seq<u32> {
    Seq::new(
        (body.len() / 4) as nat,
        |i: int| bytes::le32_value(body.subrange(4 * i, 4 * i + 4)) as u32,
    )
}

/// The bytes of pixels that a buffer of that size has.
pub open spec fn pixel_bytes(width: nat, height: nat) -> nat {
    width * height * 16
}

/// What a file says from its header on.
pub open spec fn rest_says(after: Seq<u8>, len: nat) -> Result<Buffer, ReadError> {
    if after.len() < len {
        Err(ReadError::TruncatedHeader)
    } else if !vstd::utf8::valid_utf8(after.take(len as int)) {
        Err(ReadError::NotUtf8)
    } else {
        match header_says(vstd::utf8::decode_utf8(after.take(len as int))) {
            Err(e) => Err(e),
            Ok(b) => {
                let body = after.skip(len as int);
                if body.len() != pixel_bytes(b.width, b.height) {
                    Err(
                        ReadError::WrongSize {
                            width: b.width as u32,
                            height: b.height as u32,
                            expected: pixel_bytes(b.width, b.height) as u128,
                            found: body.len() as usize,
                        },
                    )
                } else {
                    Ok(Buffer { pixels: words(body), ..b })
                }
            },
        }
    }
}

/// What a file says: the buffer it holds, or the first thing that is wrong
/// with it.
pub open spec fn file_says(data: Seq<u8>) -> Result<Buffer, ReadError> {
    let m = magic_bytes();
    let rest = data.skip(m.len() as int);
    let nl = byte_index(rest, 10);
    if data.len() < m.len() || data.take(m.len() as int) != m {
        Err(ReadError::NotAGradeBuffer)
    } else if nl == rest.len() {
        Err(ReadError::TruncatedLength)
    } else {
        match length_of(rest.take(nl)) {
            None => Err(ReadError::UnreadableLength),
            Some(len) => if len > MAX_HEADER_BYTES {
                Err(ReadError::HeaderClaims(len as usize))
            } else {
                rest_says(rest.skip(nl + 1), len)
            },
        }
    }
}

fn same_bytes(a: &[u8], b: &[u8]) -> (r: bool)
    ensures
        r == (a@ == b@),
{
    if a.len() != b.len() {
        return false;
    }
    let mut i: usize = 0;
    while i < a.len()
        invariant
            i <= a@.len(),
            a@.len() == b@.len(),
            forall|k: int| 0 <= k < i ==> a@[k] == b@[k],
        decreases a@.len() - i,
    {
        if a[i] != b[i] {
            return false;
        }
        i += 1;
    }
    assert(a@ =~= b@);
    true
}

fn parse_length(line: &[u8]) -> (r: Option<usize>)
    ensures
        match length_of(line@) {
            None => r is None,
            Some(n) => r is Some && r->0 == n,
        },
{
    match text::utf8_chars(line) {
        None => None,
        Some(v) => {
            let (a, b) = text::trim_at(&v, 0, v.len());
            assert(v@.subrange(0, v.len() as int) =~= v@);
            match text::parse_unsigned(&v, a, b, usize::MAX as u64) {
                None => None,
                Some(n) => Some(n as usize),
            }
        },
    }
}

fn read_words(body: &[u8]) -> (r: Vec<u32>)
    ensures
        r@ == words(body@),
{
    let len: usize = body.len();
    let n: usize = len / 4;
    let mut r: Vec<u32> = Vec::new();
    let mut i: usize = 0;
    while i < n
        invariant
            i <= n,
            n == len / 4,
            len == body@.len(),
            r.len() == i,
            forall|k: int| 0 <= k < i ==> #[trigger] r@[k] == words(body@)[k],
        decreases n - i,
    {
        let at: usize = 4 * i;
        let w: u32 = body[at + 3] as u32 * 0x100_0000 + body[at + 2] as u32 * 0x1_0000 + body[at
            + 1] as u32 * 0x100 + body[at] as u32;
        assert(w == bytes::le32_value(body@.subrange(4 * i, 4 * i + 4)));
        r.push(w);
        i += 1;
    }
    assert(r@ =~= words(body@));
    r
}

fn read_rest(after: &[u8], len: usize) -> (r: Result<GradeBuffer, ReadError>)
    ensures
        result_view(r) == rest_says(after@, len as nat),
{
    if after.len() < len {
        return Err(ReadError::TruncatedHeader);
    }
    let total: usize = after.len();
    let head = vstd::slice::slice_subrange(after, 0, len);
    assert(head@ =~= after@.take(len as int));
    let h = match text::utf8_chars(head) {
        None => {
            return Err(ReadError::NotUtf8);
        },
        Some(h) => h,
    };
    let body = vstd::slice::slice_subrange(after, len, total);
    assert(body@ =~= after@.skip(len as int));
    match from_header(&h) {
        Err(e) => Err(e),
        Ok(b) => {
            let mut b = b;
            let pixels: u64 = product(b.width, b.height);
            let expected: u128 = pixels as u128 * 16;
            assert(expected == pixel_bytes(b.width as nat, b.height as nat));
            if body.len() as u128 != expected {
                return Err(
                    ReadError::WrongSize {
                        width: b.width,
                        height: b.height,
                        expected,
                        found: body.len(),
                    },
                );
            }
            b.pixels = read_words(body);
            Ok(b)
        },
    }
}

impl GradeBuffer {
    /// Read a file's bytes.
    pub fn parse(data: &[u8]) -> (r: Result<GradeBuffer, ReadError>)
        ensures
            result_view(r) == file_says(data@),
    {
        let magic = "fracturize-grade 1\n".as_bytes();
        let n: usize = data.len();
        let m: usize = magic.len();
        if n < m {
            return Err(ReadError::NotAGradeBuffer);
        }
        let start = vstd::slice::slice_subrange(data, 0, m);
        assert(start@ =~= data@.take(m as int));
        if !same_bytes(start, magic) {
            return Err(ReadError::NotAGradeBuffer);
        }
        let rest = vstd::slice::slice_subrange(data, m, n);
        assert(rest@ =~= data@.skip(m as int));
        let nl: usize = find_byte(rest, 10);
        if nl == rest.len() {
            return Err(ReadError::TruncatedLength);
        }
        let line = vstd::slice::slice_subrange(rest, 0, nl);
        assert(line@ =~= rest@.take(nl as int));
        let len: usize = match parse_length(line) {
            None => {
                return Err(ReadError::UnreadableLength);
            },
            Some(len) => len,
        };
        if len > MAX_HEADER_BYTES {
            return Err(ReadError::HeaderClaims(len));
        }
        let after = vstd::slice::slice_subrange(rest, nl + 1, rest.len());
        assert(after@ =~= rest@.skip(nl + 1));
        read_rest(after, len)
    }

    /// Read a file's bytes, with a message that names the file where they are
    /// no grade buffer.
    pub fn read(data: &[u8], path: &str) -> (r: Result<GradeBuffer, String>)
        ensures
            match file_says(data@) {
                Ok(b) => r is Ok && (r->Ok_0)@ == b,
                Err(e) => r is Err && (r->Err_0)@ == e.text(path@),
            },
    {
        match Self::parse(data) {
            Ok(b) => Ok(b),
            Err(e) => Err(e.message(path)),
        }
    }
}

/// The lines of assignments, one after another.
pub open spec fn entries_text(pairs: Seq<(Seq<char>, Seq<char>)>) -> Seq<char>
    decreases pairs.len(),
{
    if pairs.len() == 0 {
        Seq::empty()
    } else {
        entries_text(pairs.drop_last()) + (pairs.last().0 + " = "@ + pairs.last().1 + seq!['\n'])
    }
}

/// A list of three numbers.
pub open spec fn triple_text(t: (Seq<char>, Seq<char>, Seq<char>)) -> Seq<char> {
    "["@ + t.0 + ", "@ + t.1 + ", "@ + t.2 + "]"@
}

/// A truth value as text.
pub open spec fn bool_text(b: bool) -> Seq<char> {
    if b {
        "true"@
    } else {
        "false"@
    }
}

/// What the header assigns, in order.
pub open spec fn entries(b: Buffer) -> Seq<(Seq<char>, Seq<char>)> {
    seq![
        ("width"@, text::decimal(b.width)),
        ("height"@, text::decimal(b.height)),
        ("samples"@, b.samples),
        ("screen_height"@, b.screen_height),
        ("background"@, triple_text(b.background)),
        ("transparent"@, bool_text(b.transparent)),
        ("exposure"@, b.exposure),
        ("gamma"@, b.gamma),
        ("gamma_threshold"@, b.gamma_threshold),
        ("vibrancy"@, b.vibrancy),
    ]
}

/// What precedes the assignments.
pub open spec fn preamble_text(floats: nat) -> Seq<char> {
    "# fracturize grade buffer \u{2014} linear density, pre-tonemap."@ + (seq!['\n'] + (
    "# Re-grade it with `fracturize --retonemap <this file> -r out.png`."@ + (seq!['\n'] + ((
    "# The pixels after this header are "@ + text::decimal(floats)
        + " f32 RGBA, little-endian."@) + (seq!['\n'] + (seq!['\n'] + ("[grade_buffer]"@ + seq![
        '\n',
    ])))))))
}

/// The render record after the block, if there is one.
pub open spec fn record_text(record: Option<Seq<char>>) -> Seq<char> {
    match record {
        None => Seq::empty(),
        Some(r) => seq!['\n'] + (r + seq!['\n']),
    }
}

/// The header of a buffer.
pub open spec fn header_text(b: Buffer, record: Option<Seq<char>>) -> Seq<char> {
    preamble_text(b.width * b.height * 4) + (entries_text(entries(b)) + record_text(record))
}

/// The bytes of little-endian words.
pub open spec fn word_bytes(w: Seq<u32>) -> Seq<u8>
    decreases w.len(),
{
    if w.len() == 0 {
        Seq::empty()
    } else {
        word_bytes(w.drop_last()) + bytes::le32(w.last() as nat)
    }
}

/// A file with that header and those pixels.
pub open spec fn file_bytes(header: Seq<char>, pixels: Seq<u32>) -> Seq<u8> {
    let h = vstd::utf8::encode_utf8(header);
    magic_bytes() + (vstd::utf8::encode_utf8(text::decimal(h.len())) + (seq![10u8] + (h
        + word_bytes(pixels))))
}

/// What is said of a buffer whose pixels are not those of its size.
pub open spec fn wrong_pixels_text(b: Buffer) -> Seq<char> {
    "grade buffer is "@ + text::decimal(b.width) + "x"@ + text::decimal(b.height)
        + " but holds "@ + text::decimal(b.pixels.len()) + " floats, not "@ + text::decimal(
        b.width * b.height * 4,
    )
}

/// An assignment as the header writer takes it.
pub open spec fn pairs_view(pairs: Seq<(&'static str, String)>) -> Seq<(Seq<char>, Seq<char>)> {
    Seq::new(pairs.len(), |i: int| (pairs[i].0@, pairs[i].1@))
}

fn push_entries(out: &mut String, pairs: &Vec<(&'static str, String)>)
    ensures
        final(out)@ == old(out)@ + entries_text(pairs_view(pairs@)),
{
    let ghost all = pairs_view(pairs@);
    let mut i: usize = 0;
    assert(entries_text(all.take(0)) =~= Seq::<char>::empty());
    while i < pairs.len()
        invariant
            i <= pairs.len(),
            all == pairs_view(pairs@),
            out@ == old(out)@ + entries_text(all.take(i as int)),
        decreases pairs.len() - i,
    {
        assert(all.take(i + 1).drop_last() =~= all.take(i as int));
        out.append(pairs[i].0);
        out.append(" = ");
        out.append(pairs[i].1.as_str());
        out.push('\n');
        assert(out@ =~= old(out)@ + entries_text(all.take(i + 1)));
        i += 1;
    }
    assert(all.take(i as int) =~= all);
}

impl GradeBuffer {
    fn triple(&self) -> (s: String)
        ensures
            s@ == triple_text(self@.background),
    {
        let mut s = String::new();
        s.append("[");
        s.append(self.background.0.as_str());
        s.append(", ");
        s.append(self.background.1.as_str());
        s.append(", ");
        s.append(self.background.2.as_str());
        s.append("]");
        assert(s@ =~= triple_text(self@.background));
        s
    }

    fn pairs(&self) -> (v: Vec<(&'static str, String)>)
        ensures
            pairs_view(v@) == entries(self@),
    {
        let mut v: Vec<(&'static str, String)> = Vec::new();
        v.push(("width", text::decimal_string(self.width as u128)));
        v.push(("height", text::decimal_string(self.height as u128)));
        v.push(("samples", self.samples.clone()));
        v.push(("screen_height", self.screen_height.clone()));
        v.push(("background", self.triple()));
        let flag = if self.transparent {
            "true".to_owned()
        } else {
            "false".to_owned()
        };
        v.push(("transparent", flag));
        v.push(("exposure", self.exposure.clone()));
        v.push(("gamma", self.gamma.clone()));
        v.push(("gamma_threshold", self.gamma_threshold.clone()));
        v.push(("vibrancy", self.vibrancy.clone()));
        assert(pairs_view(v@) =~= entries(self@));
        v
    }

    /// The header: what the file is, the block of assignments, and the render
    /// record.
    pub fn header_toml(&self, record: Option<&str>) -> (s: String)
        ensures
            s@ == header_text(
                self@,
                match record {
                    Some(r) => Some(r@),
                    None => None,
                },
            ),
    {
        let ghost rec = match record {
            Some(r) => Some(r@),
            None => None,
        };
        let floats: u128 = product(self.width, self.height) as u128 * 4;
        let mut s = String::new();
        s.append("# fracturize grade buffer \u{2014} linear density, pre-tonemap.");
        s.push('\n');
        s.append("# Re-grade it with `fracturize --retonemap <this file> -r out.png`.");
        s.push('\n');
        s.append("# The pixels after this header are ");
        text::push_decimal(&mut s, floats);
        s.append(" f32 RGBA, little-endian.");
        s.push('\n');
        s.push('\n');
        s.append("[grade_buffer]");
        s.push('\n');
        assert(s@ =~= preamble_text(self@.width * self@.height * 4));
        let pairs = self.pairs();
        push_entries(&mut s, &pairs);
        if let Some(r) = record {
            s.push('\n');
            s.append(r);
            s.push('\n');
        }
        assert(s@ =~= header_text(self@, rec));
        s
    }

    /// The bytes of the file, or what is wrong with the buffer.
    pub fn write(&self, record: Option<&str>) -> (r: Result<Vec<u8>, String>)
        ensures
            r is Ok <==> self@.pixels.len() == self@.width * self@.height * 4,
            r is Ok ==> (r->Ok_0)@ == file_bytes(
                header_text(
                    self@,
                    match record {
                        Some(r) => Some(r@),
                        None => None,
                    },
                ),
                self@.pixels,
            ),
            r is Err ==> (r->Err_0)@ == wrong_pixels_text(self@),
    {
        let expected: u128 = product(self.width, self.height) as u128 * 4;
        if self.pixels.len() as u128 != expected {
            let mut s = String::new();
            s.append("grade buffer is ");
            text::push_decimal(&mut s, self.width as u128);
            s.append("x");
            text::push_decimal(&mut s, self.height as u128);
            s.append(" but holds ");
            text::push_decimal(&mut s, self.pixels.len() as u128);
            s.append(" floats, not ");
            text::push_decimal(&mut s, expected);
            assert(s@ =~= wrong_pixels_text(self@));
            return Err(s);
        }
        let header = self.header_toml(record);
        let hb = header.as_str().as_bytes();
        let length = text::decimal_string(hb.len() as u128);
        let mut out: Vec<u8> = Vec::new();
        bytes::push_bytes(&mut out, "fracturize-grade 1\n".as_bytes(), 0);
        bytes::push_bytes(&mut out, length.as_str().as_bytes(), 0);
        out.push(10);
        bytes::push_bytes(&mut out, hb, 0);
        let ghost front = out@;
        let mut i: usize = 0;
        while i < self.pixels.len()
            invariant
                i <= self.pixels.len(),
                out@ == front + word_bytes(self.pixels@.take(i as int)),
            decreases self.pixels.len() - i,
        {
            assert(self.pixels@.take(i + 1).drop_last() =~= self.pixels@.take(i as int));
            bytes::push_le32(&mut out, self.pixels[i] as u64);
            i += 1;
            assert(out@ =~= front + word_bytes(self.pixels@.take(i as int)));
        }
        assert(self.pixels@.take(i as int) =~= self.pixels@);
        assert(out@ =~= file_bytes(header@, self@.pixels));
        Ok(out)
    }

    /// The conventional path beside a render: the same name with the
    /// extension `fgrade`.
    pub fn path_for(png: &str) -> (s: String)
        ensures
            s@ == filename::with_extension(png@, "fgrade"@),
    {
        filename::replace_extension(png, "fgrade")
    }
}

/// Whether a text has none of the characters that the header gives a meaning.
pub open spec fn is_plain(s: Seq<char>) -> bool {
    forall|i: int| 0 <= i < s.len() ==> plain_char(#[trigger] s[i])
}

/// A character that the header gives no meaning.
pub open spec fn plain_char(c: char) -> bool {
    !text::is_space(c) && c != '=' && c != '[' && c != ']' && c != ',' && c != '#'
}

/// A buffer that can be written and read: its numbers are numbers, its size is
/// that of its pixels.
pub open spec fn writable(b: Buffer) -> bool {
    &&& b.width <= u32::MAX
    &&& b.height <= u32::MAX
    &&& b.pixels.len() == b.width * b.height * 4
    &&& number::is_number(b.samples)
    &&& number::is_number(b.screen_height)
    &&& number::is_number(b.background.0)
    &&& number::is_number(b.background.1)
    &&& number::is_number(b.background.2)
    &&& number::is_number(b.exposure)
    &&& number::is_number(b.gamma)
    &&& number::is_number(b.gamma_threshold)
    &&& number::is_number(b.vibrancy)
}

/// One line of a header goes by.
proof fn line_goes_by(
    line: Seq<char>,
    rest: Seq<char>,
    inside: bool,
    found: Option<Seq<char>>,
    key: Seq<char>,
)
    requires
        forall|i: int| 0 <= i < line.len() ==> #[trigger] line[i] != '\n',
    ensures
        ({
            let t = text::trimmed(line);
            let whole = line + (seq!['\n'] + rest);
            if opens_block(t) {
                scanned(whole, inside, found, key) == scanned(
                    rest,
                    t == "[grade_buffer]"@,
                    found,
                    key,
                )
            } else if !inside || says_nothing(t) {
                scanned(whole, inside, found, key) == scanned(rest, inside, found, key)
            } else {
                scanned(whole, inside, found, key) == scanned(
                    rest,
                    inside,
                    match assigned(t, key) {
                        Some(v) => Some(v),
                        None => found,
                    },
                    key,
                )
            }
        }),
{
    let whole = line + (seq!['\n'] + rest);
    assert(whole[line.len() as int] == '\n');
    assert forall|k: int| 0 <= k < line.len() implies #[trigger] whole[k] != '\n' by {
        assert(whole[k] == line[k]);
    }
    text::index_of_is(whole, '\n', line.len() as int);
    assert(first_line(whole) =~= line);
    assert(after_line(whole) =~= rest);
}

/// A key and a value that the header reads back.
pub open spec fn readable_pair(p: (Seq<char>, Seq<char>)) -> bool {
    &&& p.0.len() > 0
    &&& is_plain(p.0)
    &&& p.1.len() > 0
    &&& !text::is_space(p.1[0])
    &&& !text::is_space(p.1.last())
    &&& forall|i: int| 0 <= i < p.1.len() ==> #[trigger] p.1[i] != '\n'
}

/// What the last of the pairs that assigns `key` gives it.
pub open spec fn last_given(
    pairs: Seq<(Seq<char>, Seq<char>)>,
    found: Option<Seq<char>>,
    key: Seq<char>,
) -> Option<Seq<char>>
    decreases pairs.len(),
{
    if pairs.len() == 0 {
        found
    } else if pairs.last().0 == key {
        Some(pairs.last().1)
    } else {
        last_given(pairs.drop_last(), found, key)
    }
}

proof fn entry_reads_back(p: (Seq<char>, Seq<char>), key: Seq<char>)
    requires
        readable_pair(p),
    ensures
        ({
            let line = p.0 + " = "@ + p.1;
            &&& text::trimmed(line) == line
            &&& !opens_block(line)
            &&& !says_nothing(line)
            &&& forall|i: int| 0 <= i < line.len() ==> #[trigger] line[i] != '\n'
            &&& assigned(line, key) == (if p.0 == key {
                Some(p.1)
            } else {
                None
            })
        }),
{
    reveal_strlit(" = ");
    let line = p.0 + " = "@ + p.1;
    let k = p.0.len() as int;
    assert(plain_char(p.0[0]));
    assert(plain_char(p.0[k - 1]));
    assert(line[0] == p.0[0]);
    assert(line.last() == p.1.last());
    text::trimmed_stays(line);
    assert forall|i: int| 0 <= i < line.len() implies #[trigger] line[i] != '\n' by {
        if i < k {
            assert(line[i] == p.0[i]);
            assert(plain_char(p.0[i]));
        } else if i >= k + 3 {
            assert(line[i] == p.1[i - k - 3]);
        } else {
            assert(line[i] == " = "@[i - k]);
        }
    }
    assert forall|i: int| 0 <= i < k + 1 implies #[trigger] line[i] != '=' by {
        if i < k {
            assert(line[i] == p.0[i]);
            assert(plain_char(p.0[i]));
        } else {
            assert(line[i] == " = "@[0]);
        }
    }
    assert(line[k + 1] == " = "@[1]);
    text::index_of_is(line, '=', k + 1);
    assert(line.take(k + 1) =~= p.0.push(' '));
    text::trimmed_drops_spaces(p.0);
    assert(line.skip(k + 2) =~= seq![' '] + p.1) by {
        assert(line[k + 2] == " = "@[2]);
    }
    text::trimmed_drops_spaces(p.1);
}

/// The assignments of a block are read one by one.
proof fn entries_go_by(
    pairs: Seq<(Seq<char>, Seq<char>)>,
    rest: Seq<char>,
    found: Option<Seq<char>>,
    key: Seq<char>,
)
    requires
        forall|i: int| 0 <= i < pairs.len() ==> readable_pair(#[trigger] pairs[i]),
    ensures
        scanned(entries_text(pairs) + rest, true, found, key) == scanned(
            rest,
            true,
            last_given(pairs, found, key),
            key,
        ),
    decreases pairs.len(),
{
    if pairs.len() == 0 {
        assert(entries_text(pairs) + rest =~= rest);
    } else {
        let p = pairs.last();
        let line = p.0 + " = "@ + p.1;
        let front = pairs.drop_last();
        assert(readable_pair(pairs[pairs.len() - 1]));
        assert forall|i: int| 0 <= i < front.len() implies readable_pair(#[trigger] front[i]) by {
            assert(front[i] == pairs[i]);
        }
        entries_go_by(front, line + (seq!['\n'] + rest), found, key);
        entry_reads_back(p, key);
        line_goes_by(line, rest, true, last_given(front, found, key), key);
        assert(entries_text(pairs) + rest =~= entries_text(front) + (line + (seq!['\n'] + rest)));
    }
}

proof fn number_is_plain(s: Seq<char>)
    requires
        number::is_number(s),
    ensures
        s.len() > 0,
        is_plain(s),
{
    number::numbers_use_number_chars(s);
    assert forall|i: int| 0 <= i < s.len() implies plain_char(#[trigger] s[i]) by {
        assert(number::number_char(s[i]));
    }
}

proof fn plain_value_is_readable(key: Seq<char>, v: Seq<char>)
    requires
        key.len() > 0,
        is_plain(key),
        v.len() > 0,
        is_plain(v),
    ensures
        readable_pair((key, v)),
{
    assert(plain_char(v[0]));
    assert(plain_char(v[v.len() - 1]));
    assert forall|i: int| 0 <= i < v.len() implies #[trigger] v[i] != '\n' by {
        assert(plain_char(v[i]));
    }
}

/// One number of a list is read off its front.
proof fn list_head(a: Seq<char>, rest: Seq<char>, lead: bool)
    requires
        number::is_number(a),
    ensures
        ({
            let front = if lead {
                seq![' '] + a
            } else {
                a
            };
            &&& numbers_in(front + (seq![','] + rest)) == seq![a] + numbers_in(rest)
            &&& numbers_in(front) == seq![a]
        }),
{
    number_is_plain(a);
    let front = if lead {
        seq![' '] + a
    } else {
        a
    };
    let whole = front + (seq![','] + rest);
    assert(plain_char(a[0]));
    assert(plain_char(a[a.len() - 1]));
    text::trimmed_stays(a);
    text::trimmed_drops_spaces(a);
    assert forall|k: int| 0 <= k < front.len() implies #[trigger] front[k] != ',' by {
        if lead {
            if k > 0 {
                assert(front[k] == a[k - 1]);
                assert(plain_char(a[k - 1]));
            }
        } else {
            assert(plain_char(a[k]));
        }
    }
    assert forall|k: int| 0 <= k < front.len() implies #[trigger] whole[k] != ',' by {
        assert(whole[k] == front[k]);
    }
    assert(whole[front.len() as int] == ',');
    text::index_of_is(whole, ',', front.len() as int);
    text::index_of_is(front, ',', front.len() as int);
    assert(whole.take(front.len() as int) =~= front);
    assert(front.take(front.len() as int) =~= front);
    assert(whole.skip(front.len() as int + 1) =~= rest);
}

/// A list of three numbers reads as those three.
proof fn triple_reads_back(t: (Seq<char>, Seq<char>, Seq<char>))
    requires
        number::is_number(t.0),
        number::is_number(t.1),
        number::is_number(t.2),
    ensures
        list_numbers(triple_text(t)) == seq![t.0, t.1, t.2],
        readable_pair(("background"@, triple_text(t))),
{
    reveal_strlit("[");
    reveal_strlit("]");
    reveal_strlit(", ");
    reveal_strlit("background");
    number_is_plain(t.0);
    number_is_plain(t.1);
    number_is_plain(t.2);
    let s = triple_text(t);
    let inner = t.0 + (seq![','] + ((seq![' '] + t.1) + (seq![','] + (seq![' '] + t.2))));
    assert(s =~= seq!['['] + inner + seq![']']);
    assert(plain_char(t.0[0]));
    assert(plain_char(t.2[t.2.len() - 1]));
    reveal_with_fuel(without_leading, 2);
    reveal_with_fuel(without_trailing, 2);
    let open = inner + seq![']'];
    assert(s.drop_first() =~= open);
    assert(open[0] == t.0[0]);
    assert(without_leading(s, '[') == open);
    assert(open.drop_last() =~= inner);
    assert(inner.last() == t.2.last());
    assert(without_trailing(open, ']') == inner);
    list_head(t.2, Seq::empty(), true);
    list_head(t.1, seq![' '] + t.2, true);
    list_head(t.0, (seq![' '] + t.1) + (seq![','] + (seq![' '] + t.2)), false);
    assert(seq![t.0] + (seq![t.1] + seq![t.2]) =~= seq![t.0, t.1, t.2]);
    assert forall|i: int| 0 <= i < s.len() implies #[trigger] s[i] != '\n' by {
        let a = t.0.len() as int;
        let b = t.1.len() as int;
        if 1 <= i < 1 + a {
            assert(s[i] == t.0[i - 1]);
            assert(plain_char(t.0[i - 1]));
        } else if 3 + a <= i < 3 + a + b {
            assert(s[i] == t.1[i - 3 - a]);
            assert(plain_char(t.1[i - 3 - a]));
        } else if 5 + a + b <= i < s.len() - 1 {
            assert(s[i] == t.2[i - 5 - a - b]);
            assert(plain_char(t.2[i - 5 - a - b]));
        }
    }
}

/// Every assignment of a header is one that it reads back.
proof fn entries_are_readable(b: Buffer)
    requires
        writable(b),
    ensures
        forall|i: int| 0 <= i < entries(b).len() ==> readable_pair(#[trigger] entries(b)[i]),
{
    reveal_strlit("width");
    reveal_strlit("height");
    reveal_strlit("samples");
    reveal_strlit("screen_height");
    reveal_strlit("transparent");
    reveal_strlit("exposure");
    reveal_strlit("gamma");
    reveal_strlit("gamma_threshold");
    reveal_strlit("vibrancy");
    reveal_strlit("true");
    reveal_strlit("false");
    number::counts_are_numbers(b.width);
    number::counts_are_numbers(b.height);
    number_is_plain(text::decimal(b.width));
    number_is_plain(text::decimal(b.height));
    number_is_plain(b.samples);
    number_is_plain(b.screen_height);
    number_is_plain(b.exposure);
    number_is_plain(b.gamma);
    number_is_plain(b.gamma_threshold);
    number_is_plain(b.vibrancy);
    triple_reads_back(b.background);
    plain_value_is_readable("width"@, text::decimal(b.width));
    plain_value_is_readable("height"@, text::decimal(b.height));
    plain_value_is_readable("samples"@, b.samples);
    plain_value_is_readable("screen_height"@, b.screen_height);
    plain_value_is_readable("transparent"@, bool_text(b.transparent));
    plain_value_is_readable("exposure"@, b.exposure);
    plain_value_is_readable("gamma"@, b.gamma);
    plain_value_is_readable("gamma_threshold"@, b.gamma_threshold);
    plain_value_is_readable("vibrancy"@, b.vibrancy);
}

/// The keys of a header are told apart.
proof fn keys_differ()
    ensures
        "width"@.len() == 5,
        "height"@.len() == 6,
        "samples"@.len() == 7,
        "screen_height"@.len() == 13,
        "background"@.len() == 10,
        "transparent"@.len() == 11,
        "exposure"@.len() == 8,
        "gamma"@.len() == 5,
        "gamma_threshold"@.len() == 15,
        "vibrancy"@.len() == 8,
        "width"@ != "gamma"@,
        "exposure"@ != "vibrancy"@,
{
    reveal_strlit("width");
    reveal_strlit("height");
    reveal_strlit("samples");
    reveal_strlit("screen_height");
    reveal_strlit("background");
    reveal_strlit("transparent");
    reveal_strlit("exposure");
    reveal_strlit("gamma");
    reveal_strlit("gamma_threshold");
    reveal_strlit("vibrancy");
    assert("width"@[0] != "gamma"@[0]);
    assert("exposure"@[0] != "vibrancy"@[0]);
}

/// What each key is given by the assignments of a header.
proof fn entries_give(b: Buffer)
    ensures
        ({
            let e = entries(b);
            &&& last_given(e, None, "width"@) == Some(text::decimal(b.width))
            &&& last_given(e, None, "height"@) == Some(text::decimal(b.height))
            &&& last_given(e, None, "samples"@) == Some(b.samples)
            &&& last_given(e, None, "screen_height"@) == Some(b.screen_height)
            &&& last_given(e, None, "background"@) == Some(triple_text(b.background))
            &&& last_given(e, None, "transparent"@) == Some(bool_text(b.transparent))
            &&& last_given(e, None, "exposure"@) == Some(b.exposure)
            &&& last_given(e, None, "gamma"@) == Some(b.gamma)
            &&& last_given(e, None, "gamma_threshold"@) == Some(b.gamma_threshold)
            &&& last_given(e, None, "vibrancy"@) == Some(b.vibrancy)
        }),
{
    keys_differ();
    let e = entries(b);
    last_given_at(e, 0);
    last_given_at(e, 1);
    last_given_at(e, 2);
    last_given_at(e, 3);
    last_given_at(e, 4);
    last_given_at(e, 5);
    last_given_at(e, 6);
    last_given_at(e, 7);
    last_given_at(e, 8);
    last_given_at(e, 9);
}

/// A key that only one pair assigns is given that pair's value.
proof fn last_given_at(pairs: Seq<(Seq<char>, Seq<char>)>, i: int)
    requires
        0 <= i < pairs.len(),
        forall|j: int| i < j < pairs.len() ==> (#[trigger] pairs[j]).0 != pairs[i].0,
    ensures
        last_given(pairs, None, pairs[i].0) == Some(pairs[i].1),
    decreases pairs.len(),
{
    if i < pairs.len() - 1 {
        assert(pairs[pairs.len() - 1].0 != pairs[i].0);
        let front = pairs.drop_last();
        assert forall|j: int| i < j < front.len() implies (#[trigger] front[j]).0
            != front[i].0 by {
            assert(front[j] == pairs[j]);
        }
        last_given_at(front, i);
    }
}

/// A record that assigns nothing to the block before it.
pub open spec fn is_quiet(record: Option<Seq<char>>) -> bool {
    forall|found: Option<Seq<char>>, key: Seq<char>|
        #[trigger] scanned(record_text(record), true, found, key) == found
}

/// The preamble of a header opens the block and assigns nothing.
proof fn preamble_goes_by(floats: nat, rest: Seq<char>, key: Seq<char>)
    ensures
        scanned(preamble_text(floats) + rest, false, None, key) == scanned(rest, true, None, key),
{
    let c1 = "# fracturize grade buffer \u{2014} linear density, pre-tonemap."@;
    let c2 = "# Re-grade it with `fracturize --retonemap <this file> -r out.png`."@;
    let a3 = "# The pixels after this header are "@;
    let z3 = " f32 RGBA, little-endian."@;
    let d3 = text::decimal(floats);
    let c3 = a3 + d3 + z3;
    let empty = Seq::<char>::empty();
    let block = "[grade_buffer]"@;
    reveal_strlit("# fracturize grade buffer \u{2014} linear density, pre-tonemap.");
    reveal_strlit("# Re-grade it with `fracturize --retonemap <this file> -r out.png`.");
    reveal_strlit("# The pixels after this header are ");
    reveal_strlit(" f32 RGBA, little-endian.");
    reveal_strlit("[grade_buffer]");
    number::decimal_reads_back(floats);
    let r4 = block + (seq!['\n'] + rest);
    let r3 = empty + (seq!['\n'] + r4);
    let r2 = c3 + (seq!['\n'] + r3);
    let r1 = c2 + (seq!['\n'] + r2);
    let r0 = c1 + (seq!['\n'] + r1);
    assert(preamble_text(floats) + rest =~= r0);
    text::trimmed_stays(c1);
    text::trimmed_stays(c2);
    assert(c3[0] == a3[0]);
    assert(c3.last() == z3.last());
    text::trimmed_stays(c3);
    text::trimmed_stays(empty);
    text::trimmed_stays(block);
    assert forall|i: int| 0 <= i < c3.len() implies #[trigger] c3[i] != '\n' by {
        if i < a3.len() {
            assert(c3[i] == a3[i]);
        } else if i < a3.len() + d3.len() {
            assert(c3[i] == d3[i - a3.len()]);
            assert(text::is_digit(d3[i - a3.len()]));
        } else {
            assert(c3[i] == z3[i - a3.len() - d3.len()]);
        }
    }
    line_goes_by(c1, r1, false, None, key);
    line_goes_by(c2, r2, false, None, key);
    line_goes_by(c3, r3, false, None, key);
    line_goes_by(empty, r4, false, None, key);
    line_goes_by(block, rest, false, None, key);
}

/// What a header assigns is what the buffer holds.
proof fn header_gives(b: Buffer, record: Option<Seq<char>>, key: Seq<char>)
    requires
        writable(b),
        is_quiet(record),
    ensures
        field(header_text(b, record), key) == last_given(entries(b), None, key),
{
    let rest = entries_text(entries(b)) + record_text(record);
    preamble_goes_by(b.width * b.height * 4, rest, key);
    entries_are_readable(b);
    entries_go_by(entries(b), record_text(record), None, key);
    let found = last_given(entries(b), None, key);
    assert(scanned(record_text(record), true, found, key) == found);
}

/// A header reads back as the buffer that it was written for, but for the
/// pixels.
pub proof fn header_reads_back(b: Buffer, record: Option<Seq<char>>)
    requires
        writable(b),
        is_quiet(record),
    ensures
        header_says(header_text(b, record)) == Ok::<Buffer, ReadError>(
            Buffer { pixels: Seq::empty(), ..b },
        ),
{
    entries_give(b);
    header_gives(b, record, "width"@);
    header_gives(b, record, "height"@);
    header_gives(b, record, "samples"@);
    header_gives(b, record, "screen_height"@);
    header_gives(b, record, "background"@);
    header_gives(b, record, "transparent"@);
    header_gives(b, record, "exposure"@);
    header_gives(b, record, "gamma"@);
    header_gives(b, record, "gamma_threshold"@);
    header_gives(b, record, "vibrancy"@);
    triple_reads_back(b.background);
    number::counts_are_numbers(b.width);
    number::counts_are_numbers(b.height);
    reveal_strlit("true");
    reveal_strlit("false");
    assert("true"@.len() != "false"@.len());
}

proof fn word_bytes_length(w: Seq<u32>)
    ensures
        word_bytes(w).len() == 4 * w.len(),
    decreases w.len(),
{
    if w.len() > 0 {
        word_bytes_length(w.drop_last());
    }
}

/// The pixels' bytes read back as the pixels.
proof fn words_read_back(w: Seq<u32>)
    ensures
        words(word_bytes(w)) == w,
    decreases w.len(),
{
    word_bytes_length(w);
    let all = word_bytes(w);
    if w.len() > 0 {
        let front = word_bytes(w.drop_last());
        word_bytes_length(w.drop_last());
        words_read_back(w.drop_last());
        assert forall|i: int| 0 <= i < w.len() implies #[trigger] words(all)[i] == w[i] by {
            if i < w.len() - 1 {
                assert(all.subrange(4 * i, 4 * i + 4) =~= front.subrange(4 * i, 4 * i + 4));
                assert(words(front)[i] == w.drop_last()[i]);
            } else {
                assert(all.subrange(4 * i, 4 * i + 4) =~= bytes::le32(w.last() as nat));
                bytes::le32_reads_back(w.last() as nat);
            }
        }
    }
    assert(words(all) =~= w);
}

/// The length line reads back.
proof fn length_reads_back(n: nat)
    requires
        n <= usize::MAX,
    ensures
        length_of(vstd::utf8::encode_utf8(text::decimal(n))) == Some(n),
        forall|i: int|
            0 <= i < vstd::utf8::encode_utf8(text::decimal(n)).len()
                ==> #[trigger] vstd::utf8::encode_utf8(text::decimal(n))[i] != 10,
{
    let d = text::decimal(n);
    number::decimal_reads_back(n);
    assert(vstd::utf8::is_ascii_chars(d)) by {
        assert forall|i| 0 <= i < d.len() implies '\0' <= #[trigger] d[i] <= '\u{7f}' by {
            assert(text::is_digit(d[i]));
        }
    }
    vstd::utf8::is_ascii_chars_encode_utf8(d);
    vstd::utf8::encode_utf8_valid_utf8(d);
    vstd::utf8::encode_utf8_decode_utf8(d);
    assert(text::is_digit(d[0]));
    assert(text::is_digit(d[d.len() - 1]));
    text::trimmed_stays(d);
    let e = vstd::utf8::encode_utf8(d);
    assert forall|i: int| 0 <= i < e.len() implies #[trigger] e[i] != 10 by {
        assert(text::is_digit(d[i]));
        assert(d[i] as u8 == e[i]);
    }
}

/// Reading gives back what was written: a file that was written for a buffer
/// reads as exactly that buffer, whatever record it carries that assigns
/// nothing to the block and leaves the header within its cap.
pub proof fn a_grade_buffer_reads_back(b: Buffer, record: Option<Seq<char>>)
    requires
        writable(b),
        is_quiet(record),
        vstd::utf8::encode_utf8(header_text(b, record)).len() <= MAX_HEADER_BYTES,
        b.pixels.len() * 4 <= usize::MAX,
    ensures
        file_says(file_bytes(header_text(b, record), b.pixels)) == Ok::<Buffer, ReadError>(b),
{
    let header = header_text(b, record);
    let h = vstd::utf8::encode_utf8(header);
    let line = vstd::utf8::encode_utf8(text::decimal(h.len()));
    let data = file_bytes(header, b.pixels);
    let m = magic_bytes();
    let body = word_bytes(b.pixels);
    let after = h + body;
    let rest = line + (seq![10u8] + after);
    assert(data.take(m.len() as int) =~= m);
    assert(data.skip(m.len() as int) =~= rest);
    length_reads_back(h.len());
    assert forall|k: int| 0 <= k < line.len() implies #[trigger] rest[k] != 10 by {
        assert(rest[k] == line[k]);
    }
    assert(rest[line.len() as int] == 10);
    byte_index_is(rest, 10, line.len() as int);
    assert(rest.take(line.len() as int) =~= line);
    assert(rest.skip(line.len() as int + 1) =~= after);
    assert(after.take(h.len() as int) =~= h);
    assert(after.skip(h.len() as int) =~= body);
    vstd::utf8::encode_utf8_valid_utf8(header);
    vstd::utf8::encode_utf8_decode_utf8(header);
    header_reads_back(b, record);
    word_bytes_length(b.pixels);
    words_read_back(b.pixels);
    assert(pixel_bytes(b.width, b.height) == 4 * b.pixels.len()) by (nonlinear_arith)
        requires
            b.pixels.len() == b.width * b.height * 4,
            pixel_bytes(b.width, b.height) == b.width * b.height * 16,
    ;
}

proof fn byte_index_finds(s: Seq<u8>, b: u8)
    ensures
        0 <= byte_index(s, b) <= s.len(),
        byte_index(s, b) < s.len() ==> s[byte_index(s, b)] == b,
        forall|k: int| 0 <= k < byte_index(s, b) ==> #[trigger] s[k] != b,
    decreases s.len(),
{
    if s.len() > 0 && s[0] != b {
        let t = s.drop_first();
        byte_index_finds(t, b);
        assert forall|k: int| 0 <= k < byte_index(s, b) implies #[trigger] s[k] != b by {
            if k > 0 {
                assert(t[k - 1] == s[k]);
            }
        }
    }
}

/// A file that was cut off anywhere is refused: what a file says, no shorter
/// beginning of it says.
pub proof fn a_cut_file_is_refused(data: Seq<u8>, k: int)
    requires
        file_says(data) is Ok,
        0 <= k < data.len(),
    ensures
        file_says(data.take(k)) is Err,
{
    let m = magic_bytes();
    let cut = data.take(k);
    if k >= m.len() {
        let rest = data.skip(m.len() as int);
        let nl = byte_index(rest, 10);
        let less = cut.skip(m.len() as int);
        let j = k - m.len();
        assert(less =~= rest.take(j));
        assert(cut.take(m.len() as int) =~= m);
        byte_index_finds(rest, 10);
        assert forall|i: int| 0 <= i < nl && i < less.len() implies #[trigger] less[i] != 10 by {
            assert(less[i] == rest[i]);
        }
        if j <= nl {
            byte_index_is(less, 10, j);
        } else {
            assert(less[nl] == rest[nl]);
            byte_index_is(less, 10, nl);
            assert(less.take(nl) =~= rest.take(nl));
            let after = rest.skip(nl + 1);
            let left = less.skip(nl + 1);
            assert(left =~= after.take(j - nl - 1));
            let len = length_of(rest.take(nl))->0;
            if left.len() >= len {
                assert(left.take(len as int) =~= after.take(len as int));
            }
        }
    }
}

/// Without a record there is nothing to be quiet about.
pub proof fn no_record_is_quiet()
    ensures
        is_quiet(None),
{
}

/// A character takes four bytes at most.
proof fn bytes_are_few(s: Seq<char>)
    ensures
        vstd::utf8::encode_utf8(s).len() <= 4 * s.len(),
    decreases s.len(),
{
    if s.len() > 0 {
        bytes_are_few(s.drop_first());
    }
}

/// The digits of a number are no more than of any power of ten above it.
proof fn digits_are_few(n: nat, k: nat)
    requires
        k >= 1,
        n < text::pow10(k),
    ensures
        text::decimal(n).len() <= k,
    decreases k,
{
    if n >= 10 {
        assert(text::pow10(0) == 1);
        if k == 1 {
            assert(text::pow10(1) == 10 * text::pow10(0));
        } else {
            digits_are_few(n / 10, (k - 1) as nat);
        }
    }
}

/// Whether a text is as long as a number's at most: what floating point needs
/// is far below that.
pub open spec fn is_short(s: Seq<char>) -> bool {
    s.len() <= 1000
}

/// Whether every number of a buffer is written shortly.
pub open spec fn writes_shortly(b: Buffer) -> bool {
    &&& is_short(b.samples)
    &&& is_short(b.screen_height)
    &&& is_short(b.background.0)
    &&& is_short(b.background.1)
    &&& is_short(b.background.2)
    &&& is_short(b.exposure)
    &&& is_short(b.gamma)
    &&& is_short(b.gamma_threshold)
    &&& is_short(b.vibrancy)
}

/// Assignments of short keys and values make a text that is not long.
proof fn entries_are_few(pairs: Seq<(Seq<char>, Seq<char>)>)
    requires
        forall|i: int|
            0 <= i < pairs.len() ==> (#[trigger] pairs[i]).0.len() <= 100 && pairs[i].1.len() <= 4000,
    ensures
        entries_text(pairs).len() <= 4200 * pairs.len(),
    decreases pairs.len(),
{
    if pairs.len() > 0 {
        reveal_strlit(" = ");
        assert(pairs[pairs.len() - 1].0.len() <= 100);
        let front = pairs.drop_last();
        assert forall|i: int| 0 <= i < front.len() implies (#[trigger] front[i]).0.len() <= 100
            && front[i].1.len() <= 4000 by {
            assert(front[i] == pairs[i]);
        }
        entries_are_few(front);
    }
}

/// The header of a buffer without a record is within the cap that a reader
/// keeps.
pub proof fn a_header_without_a_record_is_within_its_cap(b: Buffer)
    requires
        b.width <= u32::MAX,
        b.height <= u32::MAX,
        writes_shortly(b),
    ensures
        vstd::utf8::encode_utf8(header_text(b, None)).len() <= MAX_HEADER_BYTES,
{
    let floats = b.width * b.height * 4;
    assert(text::pow10(10) == 10_000_000_000) by {
        reveal_with_fuel(text::pow10, 11);
    }
    assert(text::pow10(20) == 100_000_000_000_000_000_000) by {
        reveal_with_fuel(text::pow10, 21);
    }
    assert(floats < 100_000_000_000_000_000_000) by (nonlinear_arith)
        requires
            b.width <= 0xFFFF_FFFF,
            b.height <= 0xFFFF_FFFF,
            floats == b.width * b.height * 4,
    ;
    digits_are_few(floats, 20);
    digits_are_few(b.width, 10);
    digits_are_few(b.height, 10);
    reveal_strlit("# fracturize grade buffer \u{2014} linear density, pre-tonemap.");
    reveal_strlit("# Re-grade it with `fracturize --retonemap <this file> -r out.png`.");
    reveal_strlit("# The pixels after this header are ");
    reveal_strlit(" f32 RGBA, little-endian.");
    reveal_strlit("[grade_buffer]");
    assert(preamble_text(floats).len() <= 1000);
    reveal_strlit("[");
    reveal_strlit(", ");
    reveal_strlit("]");
    reveal_strlit("true");
    reveal_strlit("false");
    reveal_strlit("width");
    reveal_strlit("height");
    reveal_strlit("samples");
    reveal_strlit("screen_height");
    reveal_strlit("background");
    reveal_strlit("transparent");
    reveal_strlit("exposure");
    reveal_strlit("gamma");
    reveal_strlit("gamma_threshold");
    reveal_strlit("vibrancy");
    assert(triple_text(b.background).len() <= 4000);
    let pairs = entries(b);
    assert(pairs.len() == 10);
    entries_are_few(pairs);
    assert(header_text(b, None).len() <= 43_000);
    bytes_are_few(header_text(b, None));
}

/// Reading gives back what was written without a record, samples and all.
pub proof fn a_plain_grade_buffer_reads_back(b: Buffer)
    requires
        writable(b),
        writes_shortly(b),
        b.pixels.len() * 4 <= usize::MAX,
    ensures
        file_says(file_bytes(header_text(b, None), b.pixels)) == Ok::<Buffer, ReadError>(b),
{
    no_record_is_quiet();
    a_header_without_a_record_is_within_its_cap(b);
    a_grade_buffer_reads_back(b, None);
}

/// A file that does not begin as a grade buffer does is refused by name.
pub proof fn another_file_is_refused(data: Seq<u8>)
    requires
        !magic_bytes().is_prefix_of(data),
    ensures
        file_says(data) == Err::<Buffer, ReadError>(ReadError::NotAGradeBuffer),
{
    let m = magic_bytes();
    if data.len() >= m.len() && data.take(m.len() as int) == m {
        assert(m =~= data.subrange(0, m.len() as int));
    }
}

/// A refusal begins with the file's path and says what is wrong with it, with
/// the numbers in the order of width, height, what they call for and what is
/// there.
pub proof fn a_refusal_says_what_is_wrong(
    path: Seq<char>,
    n: usize,
    key: &'static str,
    width: u32,
    height: u32,
    expected: u128,
    found: usize,
)
    ensures
        ReadError::NotAGradeBuffer.text(path) == path + " is not a fracturize grade buffer"@,
        ReadError::TruncatedLength.text(path) == path + ": truncated header length"@,
        ReadError::UnreadableLength.text(path) == path + ": unreadable header length"@,
        ReadError::HeaderClaims(n).text(path) == path + ": header claims "@ + text::decimal(
            n as nat,
        ) + " bytes"@,
        ReadError::TruncatedHeader.text(path) == path + ": truncated header"@,
        ReadError::NotUtf8.text(path) == path + ": header is not UTF-8"@,
        ReadError::Missing(key).text(path) == path + ": header has no `"@ + key@ + "`"@,
        ReadError::NotANumber(key).text(path) == path + ": `"@ + key@ + "` is not a number"@,
        ReadError::NotThreeNumbers.text(path) == path + ": `background` is not three numbers"@,
        (ReadError::WrongSize { width, height, expected, found }).text(path) == path
            + ": header says "@ + text::decimal(width as nat) + "x"@ + text::decimal(height as nat)
            + " ("@ + text::decimal(expected as nat) + " bytes of pixels) but the file has "@
            + text::decimal(found as nat),
{
}

/// The pixels of a buffer are four words each, and a word is four bytes of
/// which the first weighs least.
pub proof fn pixels_are_low_byte_first(w: Seq<u32>, i: int)
    requires
        0 <= i < w.len(),
    ensures
        word_bytes(w).len() == 4 * w.len(),
        ({
            let b = word_bytes(w);
            ((b[4 * i + 3] * 256 + b[4 * i + 2]) * 256 + b[4 * i + 1]) * 256 + b[4 * i] == w[i]
        }),
    decreases w.len(),
{
    let rest = w.drop_last();
    words_take_four_bytes(rest);
    bytes::bytes_weigh_by_their_order(w.last() as nat);
    if i < rest.len() {
        pixels_are_low_byte_first(rest, i);
    }
}

proof fn words_take_four_bytes(w: Seq<u32>)
    ensures
        word_bytes(w).len() == 4 * w.len(),
    decreases w.len(),
{
    if w.len() > 0 {
        words_take_four_bytes(w.drop_last());
    }
}

/// A read pixel word is its four bytes, of which the first weighs least.
pub proof fn pixels_are_read_low_byte_first(body: Seq<u8>, i: int)
    requires
        0 <= i,
        4 * i + 4 <= body.len(),
    ensures
        words(body).len() == body.len() / 4,
        words(body)[i] == ((body[4 * i + 3] * 256 + body[4 * i + 2]) * 256 + body[4 * i + 1]) * 256
            + body[4 * i],
{
    let b = body.subrange(4 * i, 4 * i + 4);
    bytes::bytes_are_read_by_their_order(b);
    assert(b[0] == body[4 * i] && b[1] == body[4 * i + 1] && b[2] == body[4 * i + 2] && b[3]
        == body[4 * i + 3]);
}

/// A file starts with the line that tells what it is, and its header's length
/// stands on a line of its own before the header.
pub proof fn a_file_starts_with_its_line(header: Seq<char>, pixels: Seq<u32>)
    ensures
        ({
            let line = vstd::utf8::encode_utf8("fracturize-grade 1\n"@);
            let h = vstd::utf8::encode_utf8(header);
            let count = vstd::utf8::encode_utf8(text::decimal(h.len()));
            let f = file_bytes(header, pixels);
            &&& f.take(line.len() as int) == line
            &&& f.subrange(line.len() as int, line.len() as int + count.len()) == count
            &&& f[line.len() as int + count.len()] == 10
            &&& f.subrange(
                line.len() as int + count.len() + 1,
                line.len() as int + count.len() + 1 + h.len(),
            ) == h
            &&& f.skip(line.len() as int + count.len() + 1 + h.len()) == word_bytes(pixels)
        }),
{
    let line = vstd::utf8::encode_utf8("fracturize-grade 1\n"@);
    let h = vstd::utf8::encode_utf8(header);
    let count = vstd::utf8::encode_utf8(text::decimal(h.len()));
    let f = file_bytes(header, pixels);
    let (a, c) = (line.len() as int, count.len() as int);
    assert(f.take(a) =~= line);
    assert(f.subrange(a, a + c) =~= count);
    assert(f.subrange(a + c + 1, a + c + 1 + h.len()) =~= h);
    assert(f.skip(a + c + 1 + h.len()) =~= word_bytes(pixels));
}

/// A pixel takes sixteen bytes, so a row more takes sixteen for each column.
pub proof fn a_row_more_takes_its_bytes(width: nat, height: nat)
    ensures
        pixel_bytes(width, 0) == 0,
        pixel_bytes(width, height + 1) == pixel_bytes(width, height) + 16 * width,
        pixel_bytes(width, height) == pixel_bytes(height, width),
{
    assert(width * 0 == 0 && width * (height + 1) == width * height + width && width * height
        == height * width) by (nonlinear_arith);
}

} // verus!
