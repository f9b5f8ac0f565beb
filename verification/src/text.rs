//! Text: decimal numbers, padding, trimming and splitting, over sequences of
//! characters.

use vstd::prelude::*;

verus! {

/// Appending one character, `String::push`: the text grows by that character
/// at its end and nothing else changes.
pub assume_specification[ String::push ](s: &mut String, ch: char)
    ensures
        final(s)@ == old(s)@.push(ch),
;

/// `n` copies of `c`.
pub open spec fn repeated(c: char, n: nat) -> Seq<char> {
    Seq::new(n, |i: int| c)
}

/// The character of the digit `d`, for `d < 10`.
pub open spec fn digit_char(d: nat) -> char {
    ('0' as nat + d) as char
}

/// `n` in decimal, without leading zeros.
pub open spec fn decimal(n: nat) -> Seq<char>
    decreases n,
{
    if n < 10 {
        seq![digit_char(n)]
    } else {
        decimal(n / 10).push(digit_char(n % 10))
    }
}

/// The low `width` decimal digits of `n`, with leading zeros kept.
pub open spec fn digits_padded(n: nat, width: nat) -> Seq<char>
    decreases width,
{
    if width == 0 {
        Seq::empty()
    } else {
        digits_padded(n / 10, (width - 1) as nat).push(digit_char(n % 10))
    }
}

/// Ten to the power `n`.
pub open spec fn pow10(n: nat) -> nat
    decreases n,
{
    if n == 0 {
        1
    } else {
        10 * pow10((n - 1) as nat)
    }
}

/// `num / den` rounded to the nearest integer, a tie going to the even one.
pub open spec fn round_half_even(num: nat, den: nat) -> nat {
    let q = num / den;
    let twice = 2 * (num % den);
    if twice < den || (twice == den && q % 2 == 0) {
        q
    } else {
        q + 1
    }
}

/// A count of units of `10^-decimals` as a decimal number with that many
/// digits after the point, and no point when there are none.
pub open spec fn point_text(units: nat, decimals: nat) -> Seq<char> {
    if decimals == 0 {
        decimal(units)
    } else {
        decimal(units / pow10(decimals)) + seq!['.'] + digits_padded(units, decimals)
    }
}

/// `num / den` to `decimals` places, ties to even.
pub open spec fn ratio_text(num: nat, den: nat, decimals: nat) -> Seq<char> {
    point_text(round_half_even(num * pow10(decimals), den), decimals)
}

/// The magnitude of an integer.
pub open spec fn magnitude_of(v: int) -> nat {
    if v < 0 {
        (-v) as nat
    } else {
        v as nat
    }
}

/// A signed quantity in units of `1/den`, to `decimals` places.
pub open spec fn signed_ratio_text(v: int, den: nat, decimals: nat) -> Seq<char> {
    if v < 0 {
        seq!['-'] + ratio_text(magnitude_of(v), den, decimals)
    } else {
        ratio_text(magnitude_of(v), den, decimals)
    }
}

/// `s` with spaces after it up to `width` characters.
pub open spec fn padded_right(s: Seq<char>, width: nat) -> Seq<char> {
    if s.len() >= width {
        s
    } else {
        s + repeated(' ', (width - s.len()) as nat)
    }
}

/// `s` with spaces before it up to `width` characters.
pub open spec fn padded_left(s: Seq<char>, width: nat) -> Seq<char> {
    if s.len() >= width {
        s
    } else {
        repeated(' ', (width - s.len()) as nat) + s
    }
}

fn digit(d: u8) -> (c: char)
    requires
        d < 10,
    ensures
        c == digit_char(d as nat),
{
    (48u8 + d) as char
}

/// A text of one's own that reads the same.
pub fn owned(s: &str) -> (r: String)
    ensures
        r@ == s@,
{
    let mut r = String::new();
    r.append(s);
    assert(r@ =~= s@);
    r
}

/// The characters of a text, for access by position.
pub fn chars_of(s: &str) -> (v: Vec<char>)
    ensures
        v@ == s@,
{
    let mut v: Vec<char> = Vec::new();
    for c in it: s.chars()
        invariant
            v@ == it.seq().take(it.index() as int),
            it.seq() == s@,
    {
        v.push(c);
    }
    v
}

/// Append `n` copies of `c`.
pub fn push_repeated(out: &mut String, c: char, n: usize)
    ensures
        final(out)@ == old(out)@ + repeated(c, n as nat),
{
    let mut i: usize = 0;
    while i < n
        invariant
            i <= n,
            out@ == old(out)@ + repeated(c, i as nat),
        decreases n - i,
    {
        out.push(c);
        i += 1;
        assert(out@ =~= old(out)@ + repeated(c, i as nat));
    }
}

/// Append the characters of `v` from `from` up to `to`.
pub fn push_range(out: &mut String, v: &Vec<char>, from: usize, to: usize)
    requires
        from <= to <= v.len(),
    ensures
        final(out)@ == old(out)@ + v@.subrange(from as int, to as int),
{
    let mut i: usize = from;
    while i < to
        invariant
            from <= i <= to <= v.len(),
            out@ == old(out)@ + v@.subrange(from as int, i as int),
        decreases to - i,
    {
        out.push(v[i]);
        i += 1;
        assert(out@ =~= old(out)@ + v@.subrange(from as int, i as int));
    }
}

/// The characters of `v` from `from` up to `to`, as a text.
pub fn string_of_range(v: &Vec<char>, from: usize, to: usize) -> (s: String)
    requires
        from <= to <= v.len(),
    ensures
        s@ == v@.subrange(from as int, to as int),
{
    let mut s = String::new();
    push_range(&mut s, v, from, to);
    assert(s@ =~= v@.subrange(from as int, to as int));
    s
}

/// Append `n` in decimal.
pub fn push_decimal(out: &mut String, n: u128)
    ensures
        final(out)@ == old(out)@ + decimal(n as nat),
    decreases n,
{
    if n >= 10 {
        push_decimal(out, n / 10);
    }
    out.push(digit((n % 10) as u8));
    assert(out@ =~= old(out)@ + decimal(n as nat));
}

/// `n` in decimal.
pub fn decimal_string(n: u128) -> (s: String)
    ensures
        s@ == decimal(n as nat),
{
    let mut s = String::new();
    push_decimal(&mut s, n);
    assert(s@ =~= decimal(n as nat));
    s
}

/// Append the low `width` decimal digits of `n`.
pub fn push_digits(out: &mut String, n: u128, width: usize)
    ensures
        final(out)@ == old(out)@ + digits_padded(n as nat, width as nat),
    decreases width,
{
    if width > 0 {
        push_digits(out, n / 10, width - 1);
        out.push(digit((n % 10) as u8));
    }
    assert(out@ =~= old(out)@ + digits_padded(n as nat, width as nat));
}

/// Ten to the power `n`, for the powers that fit.
pub fn pow10_of(n: usize) -> (p: u128)
    requires
        n <= 38,
    ensures
        p == pow10(n as nat),
{
    let mut p: u128 = 1;
    let mut i: usize = 0;
    proof {
        pow10_grows(38);
    }
    while i < n
        invariant
            i <= n <= 38,
            p == pow10(i as nat),
            forall|k: nat| k <= 38 ==> #[trigger] pow10(k) <= u128::MAX,
        decreases n - i,
    {
        assert(pow10((i + 1) as nat) == 10 * pow10(i as nat));
        p = p * 10;
        i += 1;
    }
    p
}

proof fn pow10_grows(n: nat)
    requires
        n <= 38,
    ensures
        forall|k: nat| k <= n ==> 0 < #[trigger] pow10(k) <= u128::MAX,
    decreases n,
{
    if n == 0 {
        assert(pow10(0) == 1);
    } else {
        pow10_grows((n - 1) as nat);
        pow10_exact(n);
        assert forall|k: nat| k <= n implies 0 < #[trigger] pow10(k) <= u128::MAX by {
            if k == n {
                pow10_exact(38);
                pow10_monotone(n, 38);
            }
        }
    }
}

proof fn pow10_exact(n: nat)
    ensures
        pow10(n) > 0,
        pow10(38) == 100_000_000_000_000_000_000_000_000_000_000_000_000,
    decreases n,
{
    if n > 0 {
        pow10_exact((n - 1) as nat);
    }
    reveal_with_fuel(pow10, 39);
}

pub(crate) proof fn pow10_monotone(a: nat, b: nat)
    requires
        a <= b,
    ensures
        pow10(a) <= pow10(b),
    decreases b - a,
{
    if a < b {
        pow10_monotone(a, (b - 1) as nat);
        pow10_exact((b - 1) as nat);
    }
}

/// A power of ten is positive.
pub proof fn pow10_positive(n: nat)
    ensures
        pow10(n) > 0,
{
    pow10_exact(n);
}

/// `num / den` to the nearest integer, ties to even.
pub fn rounded(num: u128, den: u128) -> (q: u128)
    requires
        0 < den,
        2 * den <= u128::MAX,
    ensures
        q == round_half_even(num as nat, den as nat),
{
    let q: u128 = num / den;
    let r: u128 = num % den;
    let twice: u128 = 2 * r;
    if twice < den || (twice == den && q % 2 == 0) {
        q
    } else {
        assert(den > 1);
        assert(q <= num / 2) by (nonlinear_arith)
            requires
                den >= 2,
                q == num / den,
        ;
        q + 1
    }
}

/// Append a count of units of `10^-decimals` as a decimal number.
pub fn push_point(out: &mut String, units: u128, decimals: usize)
    requires
        decimals <= 38,
    ensures
        final(out)@ == old(out)@ + point_text(units as nat, decimals as nat),
{
    if decimals == 0 {
        push_decimal(out, units);
    } else {
        let p: u128 = pow10_of(decimals);
        proof {
            pow10_positive(decimals as nat);
        }
        push_decimal(out, units / p);
        out.push('.');
        push_digits(out, units, decimals);
    }
    assert(out@ =~= old(out)@ + point_text(units as nat, decimals as nat));
}

/// Append `num / den` to `decimals` places, ties to even.
pub fn push_ratio(out: &mut String, num: u128, den: u128, decimals: usize)
    requires
        0 < den,
        2 * den <= u128::MAX,
        decimals <= 38,
        num * pow10(decimals as nat) <= u128::MAX,
    ensures
        final(out)@ == old(out)@ + ratio_text(num as nat, den as nat, decimals as nat),
{
    let p: u128 = pow10_of(decimals);
    push_point(out, rounded(num * p, den), decimals);
}

/// Append a signed quantity in units of `1/den`, to `decimals` places.
pub fn push_signed_ratio(out: &mut String, v: i64, den: u64, decimals: usize)
    requires
        0 < den,
        decimals <= 18,
    ensures
        final(out)@ == old(out)@ + signed_ratio_text(v as int, den as nat, decimals as nat),
{
    proof {
        pow10_monotone(decimals as nat, 18);
        assert(pow10(18) == 1_000_000_000_000_000_000) by {
            reveal_with_fuel(pow10, 19);
        }
        assert(forall|m: int| 0 <= m <= 0x8000_0000_0000_0000 ==> #[trigger] (m * pow10(
            decimals as nat,
        )) <= u128::MAX) by {
            assert forall|m: int| 0 <= m <= 0x8000_0000_0000_0000 implies #[trigger] (m * pow10(
                decimals as nat,
            )) <= u128::MAX by {
                let p = pow10(decimals as nat) as int;
                assert(m * p <= 0x8000_0000_0000_0000 * 1_000_000_000_000_000_000)
                    by (nonlinear_arith)
                    requires
                        0 <= m <= 0x8000_0000_0000_0000,
                        0 <= p <= 1_000_000_000_000_000_000,
                ;
            }
        }
    }
    if v < 0 {
        out.push('-');
        let m: u128 = (-(v as i128)) as u128;
        push_ratio(out, m, den as u128, decimals);
    } else {
        push_ratio(out, v as u128, den as u128, decimals);
    }
    assert(out@ =~= old(out)@ + signed_ratio_text(v as int, den as nat, decimals as nat));
}

/// How many characters a text has.
pub fn char_count(s: &str) -> (n: usize)
    ensures
        n == s@.len(),
{
    s.unicode_len()
}

/// Append `s` with spaces after it up to `width` characters.
pub fn push_padded_right(out: &mut String, s: &str, width: usize)
    ensures
        final(out)@ == old(out)@ + padded_right(s@, width as nat),
{
    let n: usize = char_count(s);
    out.append(s);
    if n < width {
        push_repeated(out, ' ', width - n);
    }
    assert(out@ =~= old(out)@ + padded_right(s@, width as nat));
}

/// Append `s` with spaces before it up to `width` characters.
pub fn push_padded_left(out: &mut String, s: &str, width: usize)
    ensures
        final(out)@ == old(out)@ + padded_left(s@, width as nat),
{
    let n: usize = char_count(s);
    if n < width {
        push_repeated(out, ' ', width - n);
    }
    out.append(s);
    assert(out@ =~= old(out)@ + padded_left(s@, width as nat));
}

/// A Unicode white-space character.
pub open spec fn is_space(c: char) -> bool {
    let n = c as int;
    ||| 9 <= n <= 13
    ||| n == 32
    ||| n == 0x85
    ||| n == 0xA0
    ||| n == 0x1680
    ||| 0x2000 <= n <= 0x200A
    ||| n == 0x2028
    ||| n == 0x2029
    ||| n == 0x202F
    ||| n == 0x205F
    ||| n == 0x3000
}

/// `s` without white space at its end.
pub open spec fn trimmed_end(s: Seq<char>) -> Seq<char>
    decreases s.len(),
{
    if s.len() > 0 && is_space(s.last()) {
        trimmed_end(s.drop_last())
    } else {
        s
    }
}

/// `s` without white space at its start.
pub open spec fn trimmed_start(s: Seq<char>) -> Seq<char>
    decreases s.len(),
{
    if s.len() > 0 && is_space(s[0]) {
        trimmed_start(s.drop_first())
    } else {
        s
    }
}

/// `s` without white space at either end.
pub open spec fn trimmed(s: Seq<char>) -> Seq<char> {
    trimmed_start(trimmed_end(s))
}

/// Test a character for white space.
pub fn space(c: char) -> (b: bool)
    ensures
        b == is_space(c),
{
    let n: u32 = c as u32;
    (9 <= n && n <= 13) || n == 32 || n == 0x85 || n == 0xA0 || n == 0x1680 || (0x2000 <= n && n
        <= 0x200A) || n == 0x2028 || n == 0x2029 || n == 0x202F || n == 0x205F || n == 0x3000
}

/// Where the text from `from` up to `to` ends once trailing white space is
/// left off.
pub fn trim_end_at(v: &Vec<char>, from: usize, to: usize) -> (e: usize)
    requires
        from <= to <= v.len(),
    ensures
        from <= e <= to,
        v@.subrange(from as int, e as int) == trimmed_end(v@.subrange(from as int, to as int)),
{
    let mut e: usize = to;
    while e > from && space(v[e - 1])
        invariant
            from <= e <= to <= v.len(),
            trimmed_end(v@.subrange(from as int, e as int)) == trimmed_end(
                v@.subrange(from as int, to as int),
            ),
        decreases e,
    {
        let ghost cut = v@.subrange(from as int, e as int);
        assert(cut.drop_last() =~= v@.subrange(from as int, e - 1));
        e -= 1;
    }
    e
}

/// Where the text from `from` up to `to` starts once leading white space is
/// left off.
pub fn trim_start_at(v: &Vec<char>, from: usize, to: usize) -> (b: usize)
    requires
        from <= to <= v.len(),
    ensures
        from <= b <= to,
        v@.subrange(b as int, to as int) == trimmed_start(v@.subrange(from as int, to as int)),
{
    let mut b: usize = from;
    while b < to && space(v[b])
        invariant
            from <= b <= to <= v.len(),
            trimmed_start(v@.subrange(b as int, to as int)) == trimmed_start(
                v@.subrange(from as int, to as int),
            ),
        decreases to - b,
    {
        let ghost cut = v@.subrange(b as int, to as int);
        assert(cut.drop_first() =~= v@.subrange(b + 1, to as int));
        b += 1;
    }
    b
}

/// The bounds of the text from `from` up to `to` without white space at
/// either end.
pub fn trim_at(v: &Vec<char>, from: usize, to: usize) -> (r: (usize, usize))
    requires
        from <= to <= v.len(),
    ensures
        from <= r.0 <= r.1 <= to,
        v@.subrange(r.0 as int, r.1 as int) == trimmed(v@.subrange(from as int, to as int)),
{
    let e: usize = trim_end_at(v, from, to);
    let b: usize = trim_start_at(v, from, e);
    (b, e)
}

/// `s` without white space at its end.
pub fn trim_end(s: &str) -> (r: String)
    ensures
        r@ == trimmed_end(s@),
{
    let v = chars_of(s);
    let e: usize = trim_end_at(&v, 0, v.len());
    assert(v@.subrange(0, v.len() as int) =~= s@);
    string_of_range(&v, 0, e)
}

/// An ASCII letter in lower case, any other character as it is.
pub open spec fn lower(c: char) -> char {
    if 'A' <= c <= 'Z' {
        (c as nat + 32) as char
    } else {
        c
    }
}

/// Every ASCII letter in lower case.
pub open spec fn lowered(s: Seq<char>) -> Seq<char> {
    Seq::new(s.len(), |i: int| lower(s[i]))
}

fn lower_of(c: char) -> (r: char)
    ensures
        r == lower(c),
{
    if 'A' <= c && c <= 'Z' {
        let n: u8 = c as u8;
        (n + 32) as char
    } else {
        c
    }
}

/// Whether two texts differ at most in the case of ASCII letters.
pub fn same_ignoring_case(a: &str, b: &str) -> (r: bool)
    ensures
        r == (lowered(a@) == lowered(b@)),
{
    let x = chars_of(a);
    let y = chars_of(b);
    if x.len() != y.len() {
        assert(lowered(a@).len() != lowered(b@).len());
        return false;
    }
    let mut i: usize = 0;
    while i < x.len()
        invariant
            i <= x.len(),
            x.len() == y.len(),
            x@ == a@,
            y@ == b@,
            forall|k: int| 0 <= k < i ==> lower(x@[k]) == lower(y@[k]),
        decreases x.len() - i,
    {
        if lower_of(x[i]) != lower_of(y[i]) {
            assert(lowered(a@)[i as int] != lowered(b@)[i as int]);
            return false;
        }
        i += 1;
    }
    assert(lowered(a@) =~= lowered(b@));
    true
}

/// Whether two texts are the same.
pub fn same(a: &str, b: &str) -> (r: bool)
    ensures
        r == (a@ == b@),
{
    let x = chars_of(a);
    let y = chars_of(b);
    assert(x@.subrange(0, x.len() as int) =~= a@);
    range_is(&x, 0, x.len(), &y)
}

/// Whether the text from `from` up to `to` is `w`.
pub fn range_is(v: &Vec<char>, from: usize, to: usize, w: &Vec<char>) -> (r: bool)
    requires
        from <= to <= v.len(),
    ensures
        r == (v@.subrange(from as int, to as int) == w@),
{
    if to - from != w.len() {
        assert(v@.subrange(from as int, to as int).len() != w@.len());
        return false;
    }
    let mut i: usize = 0;
    while i < w.len()
        invariant
            i <= w.len(),
            w.len() == to - from,
            from <= to <= v.len(),
            forall|k: int| 0 <= k < i ==> v@[from + k] == w@[k],
        decreases w.len() - i,
    {
        if v[from + i] != w[i] {
            assert(v@.subrange(from as int, to as int)[i as int] != w@[i as int]);
            return false;
        }
        i += 1;
    }
    assert(v@.subrange(from as int, to as int) =~= w@);
    true
}

/// A decimal digit's character.
pub open spec fn is_digit(c: char) -> bool {
    '0' <= c <= '9'
}

/// The number that a run of digits writes.
pub open spec fn digits_value(s: Seq<char>) -> nat
    decreases s.len(),
{
    if s.len() == 0 {
        0
    } else {
        10 * digits_value(s.drop_last()) + (s.last() as nat - '0' as nat) as nat
    }
}

/// A text that is nothing but digits, and at least one.
pub open spec fn all_digits(s: Seq<char>) -> bool {
    s.len() > 0 && forall|i: int| 0 <= i < s.len() ==> is_digit(#[trigger] s[i])
}

/// An unsigned number: digits, with at most one plus sign before them, and a
/// value of at most `max`.
pub open spec fn unsigned_value(s: Seq<char>, max: nat) -> Option<nat> {
    let body = if s.len() > 0 && s[0] == '+' {
        s.drop_first()
    } else {
        s
    };
    if all_digits(body) && digits_value(body) <= max {
        Some(digits_value(body))
    } else {
        None
    }
}

/// More digits never make a smaller number.
proof fn digits_value_grows(s: Seq<char>, k: int)
    requires
        0 <= k <= s.len(),
    ensures
        digits_value(s.take(k)) <= digits_value(s),
    decreases s.len() - k,
{
    if k < s.len() {
        digits_value_grows(s, k + 1);
        assert(s.take(k + 1).drop_last() =~= s.take(k));
    } else {
        assert(s.take(k) =~= s);
    }
}

/// Read the text from `from` up to `to` as an unsigned number of at most
/// `max`.
pub fn parse_unsigned(v: &Vec<char>, from: usize, to: usize, max: u64) -> (r: Option<u64>)
    requires
        from <= to <= v.len(),
    ensures
        match unsigned_value(v@.subrange(from as int, to as int), max as nat) {
            Some(n) => r == Some(n as u64) && n <= max,
            None => r is None,
        },
{
    let ghost whole = v@.subrange(from as int, to as int);
    let mut start: usize = from;
    if from < to && v[from] == '+' {
        start = from + 1;
        assert(whole.drop_first() =~= v@.subrange(start as int, to as int));
    }
    let ghost body = v@.subrange(start as int, to as int);
    assert(body == if whole.len() > 0 && whole[0] == '+' {
        whole.drop_first()
    } else {
        whole
    });
    if start == to {
        return None;
    }
    let mut n: u64 = 0;
    let mut i: usize = start;
    while i < to
        invariant
            start <= i <= to <= v.len(),
            body == v@.subrange(start as int, to as int),
            body == (if whole.len() > 0 && whole[0] == '+' {
                whole.drop_first()
            } else {
                whole
            }),
            whole == v@.subrange(from as int, to as int),
            n == digits_value(body.take(i - start)),
            n <= max,
            forall|k: int| 0 <= k < i - start ==> is_digit(#[trigger] body[k]),
        decreases to - i,
    {
        let c = v[i];
        assert(body[i - start] == c);
        if !('0' <= c && c <= '9') {
            assert(!is_digit(body[i - start]));
            return None;
        }
        let d: u64 = (c as u32 - 48) as u64;
        proof {
            assert(body.take(i - start + 1).drop_last() =~= body.take(i - start));
            digits_value_grows(body, i - start + 1);
        }
        let next: u128 = n as u128 * 10 + d as u128;
        if next > max as u128 {
            return None;
        }
        n = next as u64;
        i += 1;
    }
    assert(body.take(i - start) =~= body);
    Some(n)
}

/// Texts one after another with `sep` between them.
pub open spec fn joined(parts: Seq<Seq<char>>, sep: Seq<char>) -> Seq<char>
    decreases parts.len(),
{
    if parts.len() == 0 {
        Seq::empty()
    } else if parts.len() == 1 {
        parts[0]
    } else {
        joined(parts.drop_last(), sep) + sep + parts.last()
    }
}

/// What each of several texts reads.
pub open spec fn views(parts: Seq<String>) -> Seq<Seq<char>> {
    Seq::new(parts.len(), |i: int| parts[i]@)
}

/// Join texts with `sep` between them.
pub fn join(parts: &Vec<String>, sep: &str) -> (s: String)
    ensures
        s@ == joined(views(parts@), sep@),
{
    let mut s = String::new();
    let mut i: usize = 0;
    while i < parts.len()
        invariant
            i <= parts.len(),
            s@ == joined(views(parts@).take(i as int), sep@),
        decreases parts.len() - i,
    {
        let ghost before = views(parts@).take(i as int);
        let ghost after = views(parts@).take(i + 1);
        assert(after.drop_last() =~= before);
        if i > 0 {
            s.append(sep);
        }
        s.append(parts[i].as_str());
        assert(s@ =~= joined(after, sep@)) by {
            if i == 0 {
                assert(before.len() == 0);
                assert(joined(before, sep@) =~= Seq::<char>::empty());
            }
        }
        i += 1;
    }
    assert(views(parts@).take(i as int) =~= views(parts@));
    s
}

/// The first position of `c`, or the length where it does not occur.
pub open spec fn index_of(s: Seq<char>, c: char) -> int
    decreases s.len(),
{
    if s.len() == 0 || s[0] == c {
        0
    } else {
        1 + index_of(s.drop_first(), c)
    }
}

/// The first position of a character: it is there, and nowhere before.
pub proof fn index_of_finds(s: Seq<char>, c: char)
    ensures
        0 <= index_of(s, c) <= s.len(),
        index_of(s, c) < s.len() ==> s[index_of(s, c)] == c,
        forall|k: int| 0 <= k < index_of(s, c) ==> #[trigger] s[k] != c,
    decreases s.len(),
{
    if s.len() > 0 && s[0] != c {
        let t = s.drop_first();
        index_of_finds(t, c);
        assert forall|k: int| 0 <= k < index_of(s, c) implies #[trigger] s[k] != c by {
            if k > 0 {
                assert(s[k] == t[k - 1]);
            }
        }
    }
}

/// A position with the character there and nowhere before is the first one.
pub proof fn index_of_is(s: Seq<char>, c: char, i: int)
    requires
        0 <= i <= s.len(),
        i < s.len() ==> s[i] == c,
        forall|k: int| 0 <= k < i ==> #[trigger] s[k] != c,
    ensures
        index_of(s, c) == i,
    decreases s.len(),
{
    if i > 0 {
        let t = s.drop_first();
        assert(s[0] != c);
        assert forall|k: int| 0 <= k < i - 1 implies #[trigger] t[k] != c by {
            assert(t[k] == s[k + 1]);
        }
        index_of_is(t, c, i - 1);
    }
}

/// Where `c` first occurs in the text from `from` up to `to`; `to` where it
/// does not.
pub fn find(v: &Vec<char>, from: usize, to: usize, c: char) -> (e: usize)
    requires
        from <= to <= v.len(),
    ensures
        from <= e <= to,
        e - from == index_of(v@.subrange(from as int, to as int), c),
{
    let ghost s = v@.subrange(from as int, to as int);
    let mut e: usize = from;
    while e < to && v[e] != c
        invariant
            from <= e <= to <= v.len(),
            s == v@.subrange(from as int, to as int),
            forall|k: int| 0 <= k < e - from ==> #[trigger] s[k] != c,
        decreases to - e,
    {
        assert(s[e - from] == v@[e as int]);
        e += 1;
    }
    proof {
        index_of_is(s, c, e - from);
    }
    e
}

/// `std::str::from_utf8`: the text that bytes write in UTF-8, and nothing for
/// bytes that are not valid UTF-8.
#[verifier::external_body]
fn from_utf8(v: &[u8]) -> (r: Option<&str>)
    ensures
        r is Some <==> vstd::utf8::valid_utf8(v@),
        r is Some ==> vstd::utf8::encode_utf8((r->0)@) == v@,
{
    std::str::from_utf8(v).ok()
}

/// The characters that bytes write in UTF-8.
pub fn utf8_chars(v: &[u8]) -> (r: Option<Vec<char>>)
    ensures
        r is Some <==> vstd::utf8::valid_utf8(v@),
        r is Some ==> (r->0)@ == vstd::utf8::decode_utf8(v@),
{
    match from_utf8(v) {
        None => None,
        Some(s) => {
            proof {
                vstd::utf8::encode_utf8_decode_utf8(s@);
            }
            Some(chars_of(s))
        },
    }
}

/// Text without white space at its ends stays as it is.
pub proof fn trimmed_stays(s: Seq<char>)
    requires
        s.len() == 0 || (!is_space(s[0]) && !is_space(s.last())),
    ensures
        trimmed(s) == s,
{
}

/// White space before and after goes, however much there is.
pub proof fn trimmed_drops_blanks(before: Seq<char>, s: Seq<char>, after: Seq<char>)
    requires
        s.len() > 0,
        !is_space(s[0]),
        !is_space(s.last()),
        forall|i: int| 0 <= i < before.len() ==> is_space(#[trigger] before[i]),
        forall|i: int| 0 <= i < after.len() ==> is_space(#[trigger] after[i]),
    ensures
        trimmed(before + s + after) == s,
    decreases before.len() + after.len(),
{
    let whole = before + s + after;
    if after.len() > 0 {
        assert(whole.last() == after[after.len() - 1]);
        assert(whole.drop_last() =~= before + s + after.drop_last());
        assert forall|i: int| 0 <= i < after.drop_last().len() implies is_space(
            #[trigger] after.drop_last()[i],
        ) by {
            assert(after.drop_last()[i] == after[i]);
        }
        trimmed_drops_blanks(before, s, after.drop_last());
    } else {
        assert(whole =~= before + s);
        assert(whole.last() == s.last());
        if before.len() > 0 {
            let rest = before.drop_first();
            assert(whole[0] == before[0]);
            assert(whole.drop_first() =~= rest + s + after);
            assert forall|i: int| 0 <= i < rest.len() implies is_space(#[trigger] rest[i]) by {
                assert(rest[i] == before[i + 1]);
            }
            trimmed_drops_blanks(rest, s, after);
            assert((rest + s + after).last() == s.last());
        } else {
            assert(whole =~= s);
        }
    }
}

/// One space before or after goes.
pub proof fn trimmed_drops_spaces(s: Seq<char>)
    requires
        s.len() > 0,
        !is_space(s[0]),
        !is_space(s.last()),
    ensures
        trimmed(s.push(' ')) == s,
        trimmed(seq![' '] + s) == s,
{
    reveal_with_fuel(trimmed_end, 2);
    reveal_with_fuel(trimmed_start, 2);
    assert(s.push(' ').drop_last() =~= s);
    assert((seq![' '] + s).last() == s.last());
    assert((seq![' '] + s).drop_first() =~= s);
}

/// Where the first word of `s` ends: its first white space, or its end.
pub open spec fn word_end(s: Seq<char>) -> int
    decreases s.len(),
{
    if s.len() == 0 || is_space(s[0]) {
        0
    } else {
        1 + word_end(s.drop_first())
    }
}

/// The words of a text: what stands between its white space.
pub open spec fn words(s: Seq<char>) -> Seq<Seq<char>>
    decreases s.len(),
    via words_shrink
{
    let t = trimmed_start(s);
    if t.len() == 0 {
        Seq::empty()
    } else {
        seq![t.take(word_end(t))] + words(t.skip(word_end(t)))
    }
}

#[via_fn]
proof fn words_shrink(s: Seq<char>) {
    let t = trimmed_start(s);
    trimmed_start_shrinks(s);
    if t.len() > 0 {
        let e = word_end_at(t);
        assert(t.skip(word_end(t)).len() < t.len());
    }
}

/// Leaving off white space at the start never makes a text longer, and what
/// is left does not start with any.
pub proof fn trimmed_start_shrinks(s: Seq<char>)
    ensures
        trimmed_start(s).len() <= s.len(),
        trimmed_start(s).len() > 0 ==> !is_space(trimmed_start(s)[0]),
    decreases s.len(),
{
    if s.len() > 0 && is_space(s[0]) {
        trimmed_start_shrinks(s.drop_first());
    }
}

/// The end of the first word: within the text, after no white space, and
/// before white space unless the text ends there.
proof fn word_end_at(s: Seq<char>) -> (e: int)
    ensures
        e == word_end(s),
        0 <= e <= s.len(),
        s.len() > 0 && !is_space(s[0]) ==> e > 0,
        e < s.len() ==> is_space(s[e]),
        forall|k: int| 0 <= k < e ==> !is_space(#[trigger] s[k]),
    decreases s.len(),
{
    if s.len() > 0 && !is_space(s[0]) {
        let t = s.drop_first();
        let e = word_end_at(t);
        assert forall|k: int| 0 <= k < e + 1 implies !is_space(#[trigger] s[k]) by {
            if k > 0 {
                assert(s[k] == t[k - 1]);
            }
        }
        e + 1
    } else {
        0
    }
}

/// A position with no white space before it and white space or the end there
/// is the end of the first word.
proof fn word_end_is(s: Seq<char>, e: int)
    requires
        0 <= e <= s.len(),
        e < s.len() ==> is_space(s[e]),
        forall|k: int| 0 <= k < e ==> !is_space(#[trigger] s[k]),
    ensures
        word_end(s) == e,
    decreases s.len(),
{
    if e > 0 {
        let t = s.drop_first();
        assert(!is_space(s[0]));
        assert forall|k: int| 0 <= k < e - 1 implies !is_space(#[trigger] t[k]) by {
            assert(t[k] == s[k + 1]);
        }
        word_end_is(t, e - 1);
    }
}

/// Where the word that starts at `from` ends.
pub fn word_stop(v: &Vec<char>, from: usize) -> (e: usize)
    requires
        from <= v.len(),
    ensures
        from <= e <= v.len(),
        e - from == word_end(v@.skip(from as int)),
        from < v.len() && !is_space(v@[from as int]) ==> e > from,
{
    let ghost s = v@.skip(from as int);
    let mut e: usize = from;
    while e < v.len() && !space(v[e])
        invariant
            from <= e <= v.len(),
            s == v@.skip(from as int),
            forall|k: int| 0 <= k < e - from ==> !is_space(#[trigger] s[k]),
        decreases v.len() - e,
    {
        assert(s[e - from] == v@[e as int]);
        e += 1;
    }
    proof {
        word_end_is(s, e - from);
    }
    e
}

/// Whether `p` stands at position `i` of `s`.
pub open spec fn stands_at(s: Seq<char>, p: Seq<char>, i: int) -> bool {
    0 <= i && i + p.len() <= s.len() && s.subrange(i, i + p.len()) == p
}

/// The first position of a text in another, where it occurs.
#[verifier::opaque]
pub open spec fn first_of(s: Seq<char>, p: Seq<char>) -> Option<int> {
    if exists|i: int| stands_at(s, p, i) {
        Some(choose|i: int| stands_at(s, p, i) && forall|k: int| 0 <= k < i ==> !stands_at(s, p, k))
    } else {
        None
    }
}

/// A position with the text there and nowhere before is the first one.
proof fn first_of_is(s: Seq<char>, p: Seq<char>, i: int)
    requires
        stands_at(s, p, i),
        forall|k: int| 0 <= k < i ==> !stands_at(s, p, k),
    ensures
        first_of(s, p) == Some(i),
{
    reveal(first_of);
    let j = choose|j: int| stands_at(s, p, j) && forall|k: int| 0 <= k < j ==> !stands_at(s, p, k);
    assert(stands_at(s, p, j) && forall|k: int| 0 <= k < j ==> !stands_at(s, p, k));
    if i < j {
        assert(!stands_at(s, p, i));
    }
    if j < i {
        assert(!stands_at(s, p, j));
    }
}

/// Where `p` first stands in `v` from `from` on.
pub fn find_text(v: &Vec<char>, from: usize, to: usize, p: &str) -> (r: Option<usize>)
    requires
        from <= to <= v.len(),
    ensures
        match first_of(v@.subrange(from as int, to as int), p@) {
            Some(i) => r == Some((from + i) as usize) && 0 <= i && from + i + p@.len() <= to,
            None => r is None,
        },
{
    reveal(first_of);
    let w = chars_of(p);
    let ghost s = v@.subrange(from as int, to as int);
    let mut i: usize = from;
    while i <= to && w.len() <= to - i
        invariant
            from <= i <= to + 1,
            to <= v.len(),
            w@ == p@,
            s == v@.subrange(from as int, to as int),
            forall|k: int| 0 <= k < i - from ==> !stands_at(s, p@, k),
        decreases to + 1 - i,
    {
        assert(s.subrange(i - from, i - from + w.len()) =~= v@.subrange(
            i as int,
            i + w.len() as int,
        ));
        if range_is(v, i, i + w.len(), &w) {
            proof {
                first_of_is(s, p@, i - from);
            }
            return Some(i);
        }
        if i == to {
            assert(forall|k: int| stands_at(s, p@, k) ==> 0 <= k <= to - from);
            assert(forall|k: int| !stands_at(s, p@, k)) by {
                assert forall|k: int| !stands_at(s, p@, k) by {
                    if stands_at(s, p@, k) {
                        assert(k == i - from);
                    }
                }
            }
            reveal(first_of);
            return None;
        }
        i += 1;
    }
    assert forall|k: int| !stands_at(s, p@, k) by {
        if stands_at(s, p@, k) {
            assert(k < i - from);
        }
    }
    None
}

/// Every `from` replaced by `to`.
pub open spec fn replaced(s: Seq<char>, from: char, to: char) -> Seq<char> {
    Seq::new(
        s.len(),
        |i: int|
            if s[i] == from {
                to
            } else {
                s[i]
            },
    )
}

/// Replace a character by another throughout.
pub fn replace(s: &str, from: char, to: char) -> (r: String)
    ensures
        r@ == replaced(s@, from, to),
{
    let v = chars_of(s);
    let mut r = String::new();
    let mut i: usize = 0;
    while i < v.len()
        invariant
            i <= v.len(),
            v@ == s@,
            r@ == replaced(s@, from, to).take(i as int),
        decreases v.len() - i,
    {
        if v[i] == from {
            r.push(to);
        } else {
            r.push(v[i]);
        }
        i += 1;
        assert(r@ =~= replaced(s@, from, to).take(i as int));
    }
    assert(replaced(s@, from, to).take(i as int) =~= replaced(s@, from, to));
    r
}

/// Where a text first stands in another, it stands.
pub proof fn first_of_finds(s: Seq<char>, p: Seq<char>)
    ensures
        match first_of(s, p) {
            Some(i) => stands_at(s, p, i) && forall|k: int| 0 <= k < i ==> !stands_at(s, p, k),
            None => forall|k: int| !stands_at(s, p, k),
        },
{
    reveal(first_of);
    if exists|i: int| stands_at(s, p, i) {
        let i = choose|i: int| stands_at(s, p, i);
        earliest(s, p, i);
    }
}

/// A text that stands somewhere has a first place to stand.
proof fn earliest(s: Seq<char>, p: Seq<char>, i: int)
    requires
        stands_at(s, p, i),
    ensures
        exists|j: int| stands_at(s, p, j) && forall|k: int| 0 <= k < j ==> !stands_at(s, p, k),
    decreases i,
{
    if exists|k: int| 0 <= k < i && stands_at(s, p, k) {
        let k = choose|k: int| 0 <= k < i && stands_at(s, p, k);
        earliest(s, p, k);
    } else {
        assert(forall|k: int| 0 <= k < i ==> !stands_at(s, p, k));
    }
}

/// What stands before the first place of a text in another, or all of it.
pub open spec fn before(s: Seq<char>, p: Seq<char>) -> Seq<char> {
    match first_of(s, p) {
        Some(i) => s.take(i),
        None => s,
    }
}

/// What stands behind each place of a text in another, up to the next place.
pub open spec fn chunks(s: Seq<char>, p: Seq<char>) -> Seq<Seq<char>>
    decreases s.len(),
    when p.len() > 0
    via chunks_shrink
{
    match first_of(s, p) {
        Some(i) => {
            let rest = s.skip(i + p.len());
            seq![before(rest, p)] + chunks(rest, p)
        },
        None => Seq::empty(),
    }
}

#[via_fn]
proof fn chunks_shrink(s: Seq<char>, p: Seq<char>) {
    first_of_finds(s, p);
}

/// Cut a text at each place of another, and leave off what stands before the
/// first.
pub fn chunks_of(s: &str, p: &str) -> (r: Vec<String>)
    requires
        p@.len() > 0,
    ensures
        views(r@) == chunks(s@, p@),
{
    let v = chars_of(s);
    let len: usize = v.len();
    let skip: usize = char_count(p);
    let mut r: Vec<String> = Vec::new();
    let mut from: usize = 0;
    assert(v@.subrange(0, len as int) =~= s@);
    assert(views(r@) + chunks(s@, p@) =~= chunks(s@, p@));
    loop
        invariant
            from <= len == v@.len(),
            skip == p@.len() > 0,
            views(r@) + chunks(v@.subrange(from as int, len as int), p@) == chunks(s@, p@),
        ensures
            views(r@) == chunks(s@, p@),
        decreases len - from,
    {
        let ghost rest = v@.subrange(from as int, len as int);
        match find_text(&v, from, len, p) {
            None => {
                assert(views(r@) =~= chunks(s@, p@));
                break;
            },
            Some(i) => {
                let start: usize = i + skip;
                let ghost next = v@.subrange(start as int, len as int);
                assert(rest.skip(i - from + skip) =~= next);
                let end: usize = match find_text(&v, start, len, p) {
                    Some(j) => j,
                    None => len,
                };
                let piece = string_of_range(&v, start, end);
                let ghost shown = piece@;
                assert(shown =~= before(next, p@));
                let ghost had = views(r@);
                r.push(piece);
                assert(views(r@) =~= had.push(shown));
                assert(had.push(shown) + chunks(next, p@) =~= had + (seq![shown] + chunks(
                    next,
                    p@,
                )));
                from = start;
            },
        }
    }
    r
}

/// The first word of a text, if it has one.
pub open spec fn first_word(s: Seq<char>) -> Option<Seq<char>> {
    let t = trimmed_start(s);
    if t.len() == 0 {
        None
    } else {
        Some(t.take(word_end(t)))
    }
}

/// The first word of a text, if it has one.
pub fn first_word_of(s: &str) -> (r: Option<String>)
    ensures
        match first_word(s@) {
            Some(w) => r is Some && (r->0)@ == w,
            None => r is None,
        },
{
    let v = chars_of(s);
    let len: usize = v.len();
    assert(v@.subrange(0, len as int) =~= s@);
    let b: usize = trim_start_at(&v, 0, len);
    let ghost t = trimmed_start(s@);
    assert(v@.skip(b as int) =~= t);
    if b == len {
        return None;
    }
    let e: usize = word_stop(&v, b);
    let w = string_of_range(&v, b, e);
    assert(w@ =~= t.take(word_end(t)));
    Some(w)
}

/// Where the last word of `s` starts: behind its last white space.
pub open spec fn word_start(s: Seq<char>) -> int
    decreases s.len(),
{
    if s.len() == 0 || is_space(s.last()) {
        s.len() as int
    } else {
        word_start(s.drop_last())
    }
}

/// The last word of a text, if it has one.
pub open spec fn last_word(s: Seq<char>) -> Option<Seq<char>> {
    let t = trimmed_end(s);
    if t.len() == 0 {
        None
    } else {
        Some(t.skip(word_start(t)))
    }
}

/// The last word of the first `to` characters of a text, if there is one.
pub fn last_word_of(v: &Vec<char>, from: usize, to: usize) -> (r: Option<String>)
    requires
        from <= to <= v@.len(),
    ensures
        match last_word(v@.subrange(from as int, to as int)) {
            Some(w) => r is Some && (r->0)@ == w,
            None => r is None,
        },
{
    let e: usize = trim_end_at(v, from, to);
    let ghost t = v@.subrange(from as int, e as int);
    if e == from {
        return None;
    }
    let mut b: usize = e;
    assert(v@.subrange(from as int, b as int) =~= t);
    while b > from && !space(v[b - 1])
        invariant
            from <= b <= e <= v@.len(),
            word_start(v@.subrange(from as int, b as int)) == word_start(t),
        decreases b,
    {
        let ghost cut = v@.subrange(from as int, b as int);
        assert(cut.drop_last() =~= v@.subrange(from as int, b - 1));
        assert(cut.last() == v@[b - 1]);
        b -= 1;
    }
    let ghost cut = v@.subrange(from as int, b as int);
    assert(b > from ==> cut.last() == v@[b - 1]);
    assert(word_start(t) == b - from);
    let w = string_of_range(v, b, e);
    assert(w@ =~= t.skip(b - from));
    Some(w)
}

/// The words of a text.
pub fn words_of(s: &str) -> (r: Vec<String>)
    ensures
        views(r@) == words(s@),
{
    let v = chars_of(s);
    let len: usize = v.len();
    let mut r: Vec<String> = Vec::new();
    let mut from: usize = 0;
    assert(v@.skip(0) =~= s@);
    assert(views(r@) + words(s@) =~= words(s@));
    loop
        invariant
            from <= len == v@.len(),
            views(r@) + words(v@.skip(from as int)) == words(s@),
        ensures
            views(r@) == words(s@),
        decreases len - from,
    {
        let ghost rest = v@.skip(from as int);
        assert(v@.subrange(from as int, len as int) =~= rest);
        let b: usize = trim_start_at(&v, from, len);
        let ghost t = trimmed_start(rest);
        assert(v@.skip(b as int) =~= t);
        if b == len {
            assert(views(r@) =~= words(s@));
            break;
        }
        proof {
            trimmed_start_shrinks(rest);
            assert(t[0] == v@[b as int]);
        }
        let e: usize = word_stop(&v, b);
        let w = string_of_range(&v, b, e);
        let ghost shown = w@;
        assert(shown =~= t.take(word_end(t)));
        assert(t.skip(word_end(t)) =~= v@.skip(e as int));
        let ghost had = views(r@);
        r.push(w);
        assert(views(r@) =~= had.push(shown));
        assert(had.push(shown) + words(v@.skip(e as int)) =~= had + (seq![shown] + words(
            v@.skip(e as int),
        )));
        from = e;
    }
    r
}

/// A quotient is rounded to the nearest whole number, and to the even one of two
/// that are equally near.
pub proof fn a_quotient_is_rounded_to_the_nearest(num: nat, den: nat)
    requires
        den > 0,
    ensures
        ({
            let q = round_half_even(num, den);
            &&& -(den as int) <= 2 * (q * den - num) <= den
            &&& 2 * (q * den - num) == den || 2 * (num - q * den) == den ==> q % 2 == 0
        }),
{
    let (q, r) = (num / den, num % den);
    vstd::arithmetic::div_mod::lemma_fundamental_div_mod(num as int, den as int);
    vstd::arithmetic::div_mod::lemma_mod_bound(num as int, den as int);
    assert(q * den == den * q && (q + 1) * den == den * q + den) by (nonlinear_arith);
}

/// Padding makes a text as wide as it is told to where it is narrower, with blanks
/// on one side of it, and leaves a wider one.
pub proof fn padding_keeps_the_text(s: Seq<char>, width: nat)
    ensures
        s.len() >= width ==> padded_left(s, width) == s && padded_right(s, width) == s,
        s.len() < width ==> {
            let (l, r, k) = (padded_left(s, width), padded_right(s, width), width - s.len());
            &&& l.len() == width && r.len() == width
            &&& l.skip(k) == s && r.take(s.len() as int) == s
            &&& forall|i: int| 0 <= i < k ==> (#[trigger] l[i]) == ' '
            &&& forall|i: int| s.len() <= i < width ==> (#[trigger] r[i]) == ' '
        },
{
    if s.len() < width {
        let k = width - s.len();
        assert(padded_left(s, width).skip(k) =~= s);
        assert(padded_right(s, width).take(s.len() as int) =~= s);
    }
}

/// A number written to a width has that many digits, and they are its last ones.
pub proof fn padded_digits_are_the_last_ones(n: nat, width: nat)
    ensures
        digits_padded(n, width).len() == width,
        digits_value(digits_padded(n, width)) == n % pow10(width),
        forall|i: int| 0 <= i < width ==> is_digit(#[trigger] digits_padded(n, width)[i]),
    decreases width,
{
    if width > 0 {
        let w = (width - 1) as nat;
        padded_digits_are_the_last_ones(n / 10, w);
        let (front, all) = (digits_padded(n / 10, w), digits_padded(n, width));
        assert(all == front.push(digit_char(n % 10)));
        assert(all.drop_last() =~= front);
        assert forall|i: int| 0 <= i < width implies is_digit(#[trigger] all[i]) by {
            if i < w {
                assert(all[i] == front[i]);
            }
        }
        pow10_positive(w);
        let p = pow10(w) as int;
        vstd::arithmetic::div_mod::lemma_breakdown(n as int, 10, p);
        assert(10 * p == pow10(width));
    } else {
        assert(n % 1 == 0);
    }
}

/// Joined parts stand one after another with what joins them between: one part
/// more adds that and itself.
pub proof fn joining_puts_parts_one_after_another(
    parts: Seq<Seq<char>>,
    sep: Seq<char>,
    next: Seq<char>,
)
    ensures
        joined(Seq::empty(), sep).len() == 0,
        joined(seq![next], sep) == next,
        parts.len() > 0 ==> joined(parts.push(next), sep) == joined(parts, sep) + sep + next,
{
    assert(parts.push(next).drop_last() =~= parts);
}

/// The last digit of a number is what is left of it by tens, and those before
/// it write its tens.
pub proof fn digits_go_by_tens(n: nat)
    ensures
        ({
            let d = decimal(n);
            &&& d.len() > 0
            &&& d.last() as int == 48 + n % 10
            &&& n >= 10 ==> d.drop_last() == decimal(n / 10)
            &&& n < 10 ==> d.len() == 1
        }),
{
    if n >= 10 {
        assert(decimal(n).drop_last() =~= decimal(n / 10));
    }
}

/// One more digit makes ten of what was read before it.
pub proof fn one_more_digit_makes_tens(s: Seq<char>, c: char)
    requires
        is_digit(c),
    ensures
        digits_value(s.push(c)) == 10 * digits_value(s) + (c as int - 48),
        48 <= c as int <= 57,
{
    assert(s.push(c).drop_last() =~= s);
}

/// No visible ASCII character is blank; the space, the tab and the ends of
/// lines are.
pub proof fn what_is_seen_is_not_blank(c: char)
    ensures
        33 <= c as int <= 126 ==> !is_space(c),
        c == ' ' || c == '\t' || c == '\n' || c == '\r' ==> is_space(c),
        is_space(c) && (c as int) < 128 ==> c == ' ' || 9 <= c as int <= 13,
{
}

/// Trimming leaves no blank at either end, and takes nothing but blanks.
pub proof fn trimming_takes_only_blanks(s: Seq<char>)
    ensures
        ({
            let t = trimmed(s);
            &&& t.len() > 0 ==> !is_space(t[0]) && !is_space(t.last())
            &&& exists|i: int, j: int|
                0 <= i <= j <= s.len() && t == #[trigger] s.subrange(i, j) && (forall|k: int|
                    0 <= k < i || j <= k < s.len() ==> is_space(#[trigger] s[k]))
        }),
{
    let e = trimmed_end(s);
    an_end_is_trimmed(s);
    a_start_is_trimmed(e);
    let t = trimmed(s);
    let (i, j) = (e.len() - t.len(), e.len() as int);
    assert(t =~= s.subrange(i, j));
    assert forall|k: int| 0 <= k < i || j <= k < s.len() implies is_space(#[trigger] s[k]) by {
        if k < i {
            assert(s[k] == e[k]);
        }
    }
    if t.len() > 0 {
        assert(t.last() == e.last());
    }
}

proof fn an_end_is_trimmed(s: Seq<char>)
    ensures
        ({
            let e = trimmed_end(s);
            &&& e.len() <= s.len()
            &&& e == s.take(e.len() as int)
            &&& e.len() > 0 ==> !is_space(e.last())
            &&& forall|k: int| e.len() <= k < s.len() ==> is_space(#[trigger] s[k])
        }),
    decreases s.len(),
{
    let e = trimmed_end(s);
    if s.len() > 0 && is_space(s.last()) {
        let r = s.drop_last();
        an_end_is_trimmed(r);
        assert(e =~= s.take(e.len() as int));
        assert forall|k: int| e.len() <= k < s.len() implies is_space(#[trigger] s[k]) by {
            if k < r.len() {
                assert(s[k] == r[k]);
            }
        }
    } else {
        assert(s =~= s.take(s.len() as int));
    }
}

proof fn a_start_is_trimmed(s: Seq<char>)
    ensures
        ({
            let e = trimmed_start(s);
            &&& e.len() <= s.len()
            &&& e == s.skip(s.len() - e.len())
            &&& e.len() > 0 ==> !is_space(e[0])
            &&& forall|k: int| 0 <= k < s.len() - e.len() ==> is_space(#[trigger] s[k])
        }),
    decreases s.len(),
{
    let e = trimmed_start(s);
    if s.len() > 0 && is_space(s[0]) {
        let r = s.drop_first();
        a_start_is_trimmed(r);
        assert(e =~= s.skip(s.len() - e.len()));
        assert forall|k: int| 0 <= k < s.len() - e.len() implies is_space(#[trigger] s[k]) by {
            if k > 0 {
                assert(s[k] == r[k - 1]);
            }
        }
    } else {
        assert(s =~= s.skip(0));
    }
}

} // verus!
