//! Numbers as text: which texts write a number, and the whole part of one.
//!
//! A number is an optional sign before `inf`, `infinity` or `nan` in either
//! case, or before decimal digits with at most one point among them and an
//! optional exponent.

use vstd::prelude::*;
use crate::text;

verus! {

/// Where the run of digits that starts at `i` ends.
pub open spec fn run_end(s: Seq<char>, i: int) -> int
    decreases s.len() - i,
{
    if 0 <= i < s.len() && text::is_digit(s[i]) {
        run_end(s, i + 1)
    } else {
        i
    }
}

/// A run of digits ends at or after its start and inside the text.
proof fn run_end_bounds(s: Seq<char>, i: int)
    requires
        0 <= i <= s.len(),
    ensures
        i <= run_end(s, i) <= s.len(),
        forall|k: int| i <= k < run_end(s, i) ==> text::is_digit(#[trigger] s[k]),
    decreases s.len() - i,
{
    if i < s.len() && text::is_digit(s[i]) {
        run_end_bounds(s, i + 1);
    }
}

/// A text without one leading sign.
pub open spec fn unsigned(s: Seq<char>) -> Seq<char> {
    if s.len() > 0 && (s[0] == '+' || s[0] == '-') {
        s.drop_first()
    } else {
        s
    }
}

/// Where the digits after the point end, or those before it if there is no
/// point.
pub open spec fn digits_end(b: Seq<char>) -> int {
    let i = run_end(b, 0);
    if i < b.len() && b[i] == '.' {
        run_end(b, i + 1)
    } else {
        i
    }
}

/// The digits of a decimal number, without its point.
pub open spec fn digits_of(b: Seq<char>) -> Seq<char> {
    let i = run_end(b, 0);
    if i < b.len() && b[i] == '.' {
        b.take(i) + b.subrange(i + 1, run_end(b, i + 1))
    } else {
        b.take(i)
    }
}

/// The exponent that stands at the end of a decimal number: none is zero, and
/// `None` is a tail that is no exponent.
pub open spec fn exponent_of(tail: Seq<char>) -> Option<int> {
    if tail.len() == 0 {
        Some(0)
    } else if tail[0] == 'e' || tail[0] == 'E' {
        let e = unsigned(tail.drop_first());
        if text::all_digits(e) {
            if tail[1] == '-' {
                Some(-text::digits_value(e))
            } else {
                Some(text::digits_value(e) as int)
            }
        } else {
            None
        }
    } else {
        None
    }
}

/// Whether an unsigned text is a decimal number.
pub open spec fn is_decimal(b: Seq<char>) -> bool {
    digits_of(b).len() > 0 && exponent_of(b.skip(digits_end(b))) is Some
}

/// Whether an unsigned text is an infinity.
pub open spec fn is_infinite(b: Seq<char>) -> bool {
    text::lowered(b) == "inf"@ || text::lowered(b) == "infinity"@
}

/// Whether a text writes a number.
pub open spec fn is_number(s: Seq<char>) -> bool {
    let b = unsigned(s);
    is_decimal(b) || is_infinite(b) || text::lowered(b) == "nan"@
}

/// The whole number that the first `p` of some digits write, zeros standing
/// for digits past the last.
pub open spec fn whole_part(digits: Seq<char>, p: int) -> nat {
    if p <= 0 {
        0
    } else if p <= digits.len() {
        text::digits_value(digits.take(p))
    } else {
        text::digits_value(digits) * text::pow10((p - digits.len()) as nat)
    }
}

/// The least power of two that is not below a number.
pub open spec fn binade(n: nat) -> nat
    decreases n,
{
    if n <= 1 {
        1
    } else {
        2 * binade((n + 1) / 2)
    }
}

/// Two to the 54th: half the gap between double-precision numbers below a
/// power of two is that power over this.
pub const HALF_GAPS: u64 = 0x40_0000_0000_0000;

/// How far digits after a point fall short of rounding up to one, where half a
/// gap is `b` over [`HALF_GAPS`]: nothing is left where they do.
pub open spec fn short_of(rest: Seq<char>, b: int) -> int {
    (text::pow10(rest.len()) - text::digits_value(rest)) * HALF_GAPS - text::pow10(rest.len()) * b
}

/// The whole part of a number as double precision holds it: where the digits
/// after the point bring it within half a gap of the next whole number, it is
/// that one.
pub open spec fn held_whole(digits: Seq<char>, p: int) -> nat {
    let w = whole_part(digits, p);
    if 0 <= p < digits.len() && short_of(digits.skip(p), binade(w + 1) as int) <= 0 {
        w + 1
    } else {
        w
    }
}

/// A number of at most `u32::MAX`: larger ones count as that.
pub open spec fn clamped(n: nat) -> nat {
    if n > u32::MAX {
        u32::MAX as nat
    } else {
        n
    }
}

/// How many digits of an unsigned decimal number stand before its point once
/// the exponent is applied.
pub open spec fn point_of(b: Seq<char>) -> int {
    run_end(b, 0) + exponent_of(b.skip(digits_end(b)))->0
}

/// The whole part of a number as a 32-bit count, of what double precision
/// holds of it: a negative number and `nan`
/// count as zero, and what is too large as the largest count.
pub open spec fn whole_u32(s: Seq<char>) -> nat {
    let b = unsigned(s);
    if s.len() > 0 && s[0] == '-' {
        0
    } else if is_decimal(b) {
        clamped(held_whole(digits_of(b), point_of(b)))
    } else if is_infinite(b) {
        u32::MAX as nat
    } else {
        0
    }
}

/// More digits never make a smaller whole part.
proof fn whole_part_grows(digits: Seq<char>, p: int, q: int)
    requires
        p <= q,
    ensures
        whole_part(digits, p) <= whole_part(digits, q),
    decreases q - p,
{
    if p < q {
        whole_part_grows(digits, p, q - 1);
        whole_part_steps(digits, q - 1);
    }
}

/// One more digit makes ten of each.
proof fn whole_part_steps(digits: Seq<char>, p: int)
    ensures
        whole_part(digits, p) <= whole_part(digits, p + 1),
        0 <= p < digits.len() ==> whole_part(digits, p + 1) == 10 * whole_part(digits, p) + (
        digits[p] as nat - '0' as nat) as nat,
        p >= digits.len() ==> whole_part(digits, p + 1) == 10 * whole_part(digits, p),
{
    if p < 0 {
        assert(whole_part(digits, p) == 0);
    } else if p < digits.len() {
        let longer = digits.take(p + 1);
        let d: nat = (digits[p] as nat - '0' as nat) as nat;
        assert(longer.drop_last() =~= digits.take(p));
        assert(longer.last() == digits[p]);
        assert(text::digits_value(longer) == 10 * text::digits_value(digits.take(p)) + d);
        if p == 0 {
            assert(digits.take(0) =~= Seq::<char>::empty());
            assert(text::digits_value(Seq::<char>::empty()) == 0);
        }
        assert(whole_part(digits, p) == text::digits_value(digits.take(p)));
        assert(whole_part(digits, p + 1) == 10 * whole_part(digits, p) + d);
    } else {
        let v = text::digits_value(digits);
        let k = (p - digits.len()) as nat;
        let t = text::pow10(k);
        assert(text::pow10(0) == 1);
        assert(text::pow10(k + 1) == 10 * t);
        assert(v * (10 * t) == 10 * (v * t)) by (nonlinear_arith);
        assert(digits.take(digits.len() as int) =~= digits);
        if p == 0 {
            assert(digits =~= Seq::<char>::empty());
            assert(v == 0);
            assert(v * (10 * t) == 0) by (nonlinear_arith)
                requires
                    v == 0,
            ;
        } else if k == 0 {
            assert(v * t == v) by (nonlinear_arith)
                requires
                    t == 1,
            ;
            assert(whole_part(digits, p) == v);
        } else {
            assert(whole_part(digits, p) == v * t);
        }
        assert(whole_part(digits, p + 1) == v * (10 * t));
        assert(whole_part(digits, p + 1) == 10 * whole_part(digits, p));
    }
}

/// Without a digit that counts there is nothing to carry on.
proof fn whole_part_stays_zero(digits: Seq<char>, p: int)
    requires
        p >= digits.len(),
        text::digits_value(digits) == 0,
    ensures
        whole_part(digits, p) == 0,
{
    assert(digits.take(digits.len() as int) =~= digits);
    if p > digits.len() {
        let k = text::pow10((p - digits.len()) as nat);
        assert(0 * k == 0);
    }
}

/// One more digit makes ten of what is left, less the digit.
proof fn short_steps(rest: Seq<char>, i: int, b: int)
    requires
        0 <= i < rest.len(),
        text::is_digit(rest[i]),
    ensures
        short_of(rest.take(i + 1), b) == 10 * short_of(rest.take(i), b) - (rest[i] as int
            - '0' as int) * HALF_GAPS,
{
    let longer = rest.take(i + 1);
    assert(longer.drop_last() =~= rest.take(i));
    let t = text::pow10(i as nat) as int;
    let f = text::digits_value(rest.take(i)) as int;
    let d = rest[i] as int - '0' as int;
    let m = HALF_GAPS as int;
    assert(text::pow10((i + 1) as nat) == 10 * t);
    assert(text::digits_value(longer) == 10 * f + d);
    assert((10 * t - (10 * f + d)) * m - (10 * t) * b == 10 * ((t - f) * m - t * b) - d * m)
        by (nonlinear_arith);
}

/// Once nothing is left, or more than any digits make up for, no digits that
/// follow change it.
proof fn short_stays(rest: Seq<char>, i: int, b: int)
    requires
        0 <= i <= rest.len(),
        forall|k: int| 0 <= k < rest.len() ==> text::is_digit(#[trigger] rest[k]),
    ensures
        short_of(rest.take(i), b) <= 0 ==> short_of(rest, b) <= 0,
        short_of(rest.take(i), b) >= HALF_GAPS ==> short_of(rest, b) >= HALF_GAPS,
    decreases rest.len() - i,
{
    if i == rest.len() {
        assert(rest.take(i) =~= rest);
    } else {
        assert(text::is_digit(rest[i]));
        short_steps(rest, i, b);
        short_stays(rest, i + 1, b);
    }
}

/// The least power of two that is not below a number.
fn binade_of(n: u64) -> (b: u64)
    requires
        1 <= n <= 0x1_0000_0000,
    ensures
        b == binade(n as nat),
        1 <= b <= 0x1_0000_0000,
    decreases n,
{
    if n <= 1 {
        1
    } else {
        proof {
            binade_bound(n as nat);
        }
        2 * binade_of((n + 1) / 2)
    }
}

/// A power of two that is not below a number is below twice it.
proof fn binade_bound(n: nat)
    requires
        1 <= n <= 0x1_0000_0000,
    ensures
        1 <= binade(n) <= 0x1_0000_0000,
{
    reveal_with_fuel(binade, 34);
}

/// Whether the digits from `p` on bring a number up to `next`.
fn rounds_up(digits: &Vec<char>, p: usize, next: u64) -> (r: bool)
    requires
        p <= digits@.len(),
        1 <= next <= 0x1_0000_0000,
        forall|i: int| 0 <= i < digits.len() ==> text::is_digit(#[trigger] digits@[i]),
    ensures
        r == (short_of(digits@.skip(p as int), binade(next as nat) as int) <= 0),
{
    let b: u64 = binade_of(next);
    let ghost rest = digits@.skip(p as int);
    assert(forall|k: int| 0 <= k < rest.len() ==> #[trigger] rest[k] == digits@[p + k]);
    let mut left: i128 = HALF_GAPS as i128 - b as i128;
    let mut i: usize = p;
    assert(rest.take(0) =~= Seq::<char>::empty());
    assert(text::pow10(0) == 1 && text::digits_value(Seq::<char>::empty()) == 0);
    while i < digits.len()
        invariant
            p <= i <= digits@.len(),
            rest == digits@.skip(p as int),
            forall|k: int| 0 <= k < rest.len() ==> text::is_digit(#[trigger] rest[k]),
            left == short_of(rest.take(i - p), b as int),
            -0x1_0000_0000 <= left < HALF_GAPS,
            b == binade(next as nat),
        decreases digits@.len() - i,
    {
        if left <= 0 {
            proof {
                short_stays(rest, i - p, b as int);
            }
            return true;
        }
        assert(rest[i - p] == digits@[i as int]);
        assert(text::is_digit(rest[i - p]));
        proof {
            short_steps(rest, i - p, b as int);
        }
        let d: i128 = (digits[i] as u32 - 48) as i128;
        left = 10 * left - d * HALF_GAPS as i128;
        i += 1;
        if left >= HALF_GAPS as i128 {
            proof {
                short_stays(rest, i - p, b as int);
            }
            return false;
        }
        if left <= 0 {
            proof {
                short_stays(rest, i - p, b as int);
            }
            return true;
        }
    }
    assert(rest.take(i - p) =~= rest);
    left <= 0
}

/// The whole part of some digits with the point after `p` of them, where `p`
/// beyond any length counts alike.
fn whole_clamped(digits: &Vec<char>, p: i128) -> (r: u32)
    requires
        forall|i: int| 0 <= i < digits.len() ==> text::is_digit(#[trigger] digits@[i]),
    ensures
        r == clamped(whole_part(digits@, p as int)),
{
    let mut n: u64 = 0;
    let mut i: usize = 0;
    let len: usize = digits.len();
    while i < len && (i as i128) < p
        invariant
            i <= len,
            len == digits.len(),
            p >= 0 ==> i <= p,
            p < 0 ==> i == 0,
            n == whole_part(digits@, i as int),
            n <= u32::MAX,
            forall|k: int| 0 <= k < digits.len() ==> text::is_digit(#[trigger] digits@[k]),
        decreases len - i,
    {
        proof {
            whole_part_steps(digits@, i as int);
            whole_part_grows(digits@, i + 1, p as int);
        }
        let d: u64 = (digits[i] as u32 - 48) as u64;
        n = n * 10 + d;
        if n > 0xFFFF_FFFF {
            return u32::MAX;
        }
        i += 1;
    }
    if p <= len as i128 {
        proof {
            if p <= 0 {
                assert(whole_part(digits@, 0) == 0);
            }
        }
        return n as u32;
    }
    assert(digits@.take(len as int) =~= digits@);
    if n == 0 {
        proof {
            if len > 0 {
                assert(text::digits_value(digits@) == 0);
            }
            whole_part_stays_zero(digits@, p as int);
        }
        return 0;
    }
    let mut k: i128 = len as i128;
    while k < p
        invariant
            len == digits.len(),
            len <= k <= p,
            n == whole_part(digits@, k as int),
            n <= u32::MAX,
        decreases p - k,
    {
        proof {
            whole_part_steps(digits@, k as int);
            whole_part_grows(digits@, k + 1, p as int);
        }
        n = n * 10;
        if n > 0xFFFF_FFFF {
            return u32::MAX;
        }
        k = k + 1;
    }
    n as u32
}

/// The same of what double precision holds.
fn held_clamped(digits: &Vec<char>, p: i128) -> (r: u32)
    requires
        forall|i: int| 0 <= i < digits.len() ==> text::is_digit(#[trigger] digits@[i]),
    ensures
        r == clamped(held_whole(digits@, p as int)),
{
    let n: u32 = whole_clamped(digits, p);
    if 0 <= p && p < digits.len() as i128 && n < 0xFFFF_FFFF && rounds_up(
        digits,
        p as usize,
        n as u64 + 1,
    ) {
        n + 1
    } else {
        n
    }
}

/// Where the run of digits that starts at `i` ends.
fn run_at(v: &Vec<char>, i: usize) -> (e: usize)
    requires
        i <= v.len(),
    ensures
        e == run_end(v@, i as int),
        i <= e <= v.len(),
{
    let mut e: usize = i;
    while e < v.len() && '0' <= v[e] && v[e] <= '9'
        invariant
            i <= e <= v.len(),
            run_end(v@, i as int) == run_end(v@, e as int),
        decreases v.len() - e,
    {
        e += 1;
    }
    e
}

/// A run of digits that reaches the end is all digits from its start, and the
/// other way round.
proof fn run_reaches_the_end(s: Seq<char>, i: int)
    requires
        0 <= i <= s.len(),
    ensures
        run_end(s, i) == s.len() <==> (forall|k: int|
            i <= k < s.len() ==> text::is_digit(#[trigger] s[k])),
    decreases s.len() - i,
{
    if i < s.len() {
        if text::is_digit(s[i]) {
            run_reaches_the_end(s, i + 1);
            if run_end(s, i + 1) == s.len() {
                assert forall|k: int| i <= k < s.len() implies text::is_digit(#[trigger] s[k]) by {
                    if k > i {
                    }
                }
            }
        }
    }
}

/// The largest exponent that is told apart: beyond any text's length.
pub const FAR: i128 = 100_000_000_000_000_000_000;

/// An exponent within the distance that is told apart.
pub open spec fn near(e: int) -> int {
    if e > FAR {
        FAR as int
    } else if e < -FAR {
        -FAR as int
    } else {
        e
    }
}

/// The value of the digits from `i` up to the end, at most [`FAR`].
fn far_value(v: &Vec<char>, i: usize) -> (n: i128)
    requires
        i <= v.len(),
        forall|k: int| i <= k < v.len() ==> text::is_digit(#[trigger] v@[k]),
    ensures
        n == near(text::digits_value(v@.skip(i as int)) as int),
        0 <= n <= FAR,
{
    let ghost all = v@.skip(i as int);
    let mut n: i128 = 0;
    let mut k: usize = i;
    while k < v.len()
        invariant
            i <= k <= v.len(),
            all == v@.skip(i as int),
            0 <= n <= FAR,
            n == near(text::digits_value(all.take(k - i)) as int),
            forall|j: int| i <= j < v.len() ==> text::is_digit(#[trigger] v@[j]),
        decreases v.len() - k,
    {
        assert(all.take(k - i + 1).drop_last() =~= all.take(k - i));
        assert(all[k - i] == v@[k as int]);
        let d: i128 = (v[k] as u32 - 48) as i128;
        let next: i128 = n * 10 + d;
        n = if next > FAR {
            FAR
        } else {
            next
        };
        k += 1;
    }
    assert(all.take(k - i) =~= all);
    n
}

/// Past any length, the point's place no longer matters.
proof fn far_points_are_alike(digits: Seq<char>, whole: int, e: int)
    requires
        0 <= whole <= digits.len(),
        digits.len() < 0x1_0000_0000_0000_0000,
        forall|i: int| 0 <= i < digits.len() ==> text::is_digit(#[trigger] digits[i]),
    ensures
        clamped(whole_part(digits, whole + e)) == clamped(whole_part(digits, whole + near(e))),
        clamped(held_whole(digits, whole + e)) == clamped(held_whole(digits, whole + near(e))),
{
    if e > FAR {
        let near_point = whole + FAR;
        whole_part_grows(digits, near_point, whole + e);
        if text::digits_value(digits) == 0 {
            whole_part_stays_zero(digits, near_point);
            whole_part_stays_zero(digits, whole + e);
        } else {
            let k = (near_point - digits.len()) as nat;
            tens_grow(k);
            let v = text::digits_value(digits);
            let p = text::pow10(k);
            assert(v * p >= p) by (nonlinear_arith)
                requires
                    v >= 1,
            ;
        }
    }
}

proof fn tens_grow(k: nat)
    ensures
        text::pow10(k) > k,
    decreases k,
{
    if k > 0 {
        tens_grow((k - 1) as nat);
    }
}

/// The whole part of the number that a text writes, as a 32-bit count; `None`
/// where the text writes no number.
pub fn parse_whole(s: &str) -> (r: Option<u32>)
    ensures
        r is Some <==> is_number(s@),
        r is Some ==> r->0 == whole_u32(s@),
{
    let v = text::chars_of(s);
    let mut b: Vec<char> = Vec::new();
    let negative = v.len() > 0 && v[0] == '-';
    let signed = v.len() > 0 && (v[0] == '+' || v[0] == '-');
    let mut i: usize = if signed {
        1
    } else {
        0
    };
    let ghost start = i as int;
    while i < v.len()
        invariant
            0 <= start <= i <= v.len(),
            b@ == v@.subrange(start, i as int),
        decreases v.len() - i,
    {
        b.push(v[i]);
        i += 1;
        assert(b@ =~= v@.subrange(start, i as int));
    }
    assert(b@ =~= unsigned(s@));
    match parse_unsigned_whole(&b) {
        None => None,
        Some(n) => if negative {
            Some(0)
        } else {
            Some(n)
        },
    }
}

/// Whether a text writes a number.
pub fn writes_number(s: &str) -> (b: bool)
    ensures
        b == is_number(s@),
{
    parse_whole(s).is_some()
}

fn parse_unsigned_whole(b: &Vec<char>) -> (r: Option<u32>)
    ensures
        r is Some <==> is_decimal(b@) || is_infinite(b@) || text::lowered(b@) == "nan"@,
        r is Some ==> r->0 == (if is_decimal(b@) {
            clamped(held_whole(digits_of(b@), point_of(b@)))
        } else if is_infinite(b@) {
            u32::MAX as nat
        } else {
            0
        }),
{
    if let Some(n) = parse_decimal_whole(b) {
        return Some(n);
    }
    let t = text::string_of_range(b, 0, b.len());
    assert(t@ =~= b@);
    proof {
        word_lowers();
    }
    if text::same_ignoring_case(t.as_str(), "inf") {
        return Some(u32::MAX);
    }
    if text::same_ignoring_case(t.as_str(), "infinity") {
        return Some(u32::MAX);
    }
    if text::same_ignoring_case(t.as_str(), "nan") {
        return Some(0);
    }
    None
}

proof fn word_lowers()
    ensures
        text::lowered("inf"@) == "inf"@,
        text::lowered("infinity"@) == "infinity"@,
        text::lowered("nan"@) == "nan"@,
        "nan"@ != "inf"@,
        "nan"@ != "infinity"@,
{
    reveal_strlit("inf");
    reveal_strlit("infinity");
    reveal_strlit("nan");
    assert(text::lowered("inf"@) =~= "inf"@);
    assert(text::lowered("infinity"@) =~= "infinity"@);
    assert(text::lowered("nan"@) =~= "nan"@);
    assert("nan"@[0] != "inf"@[0]);
    assert("nan"@[0] != "infinity"@[0]);
}

/// The digits of a decimal number, how many stand before its point, and where
/// the last one ends.
fn collect_digits(b: &Vec<char>) -> (r: (Vec<char>, usize, usize))
    ensures
        r.0@ == digits_of(b@),
        r.1 == run_end(b@, 0),
        r.2 == digits_end(b@),
        r.1 <= r.0.len(),
        r.2 <= b.len(),
        forall|k: int| 0 <= k < r.0.len() ==> text::is_digit(#[trigger] r.0@[k]),
{
    let n: usize = b.len();
    let whole: usize = run_at(b, 0);
    proof {
        run_end_bounds(b@, 0);
    }
    let mut digits: Vec<char> = Vec::new();
    let mut i: usize = 0;
    while i < whole
        invariant
            i <= whole <= b.len(),
            digits@ == b@.take(i as int),
        decreases whole - i,
    {
        digits.push(b[i]);
        i += 1;
        assert(digits@ =~= b@.take(i as int));
    }
    let mut end: usize = whole;
    if whole < n && b[whole] == '.' {
        end = run_at(b, whole + 1);
        proof {
            run_end_bounds(b@, whole + 1);
        }
        let ghost front = digits@;
        let mut j: usize = whole + 1;
        assert(digits@ =~= front + b@.subrange(whole + 1, j as int));
        while j < end
            invariant
                whole + 1 <= j <= end <= b.len(),
                digits@ == front + b@.subrange(whole + 1, j as int),
            decreases end - j,
        {
            digits.push(b[j]);
            j += 1;
            assert(digits@ =~= front + b@.subrange(whole + 1, j as int));
        }
    }
    assert forall|k: int| 0 <= k < digits@.len() implies text::is_digit(#[trigger] digits@[k]) by {
        if k < whole {
            assert(digits@[k] == b@[k]);
        } else {
            assert(digits@[k] == b@[k + 1]);
        }
    }
    (digits, whole, end)
}

/// The exponent that stands from `end` on, as far as it is told apart.
fn parse_exponent(b: &Vec<char>, end: usize) -> (r: Option<i128>)
    requires
        end <= b.len(),
    ensures
        r is Some <==> exponent_of(b@.skip(end as int)) is Some,
        r is Some ==> r->0 == near(exponent_of(b@.skip(end as int))->0),
        r is Some ==> -FAR <= r->0 <= FAR,
{
    let n: usize = b.len();
    let ghost tail = b@.skip(end as int);
    if end == n {
        return Some(0);
    }
    assert(tail[0] == b@[end as int]);
    if b[end] != 'e' && b[end] != 'E' {
        return None;
    }
    let mut at: usize = end + 1;
    let mut negative = false;
    if at < n && (b[at] == '+' || b[at] == '-') {
        negative = b[at] == '-';
        at = at + 1;
    }
    let ghost ex = b@.skip(at as int);
    assert(unsigned(tail.drop_first()) =~= ex);
    let stop: usize = run_at(b, at);
    proof {
        run_reaches_the_end(b@, at as int);
        assert(forall|k: int| 0 <= k < ex.len() ==> #[trigger] ex[k] == b@[at + k]);
        if stop != n {
            let k = choose|k: int| at <= k < n && !text::is_digit(#[trigger] b@[k]);
            assert(!text::is_digit(ex[k - at]));
        }
    }
    if at == n || stop != n {
        assert(!text::all_digits(ex));
        return None;
    }
    assert(text::all_digits(ex));
    let x: i128 = far_value(b, at);
    assert(tail[1] == b@[end + 1]);
    if negative {
        Some(-x)
    } else {
        Some(x)
    }
}

fn parse_decimal_whole(b: &Vec<char>) -> (r: Option<u32>)
    ensures
        r is Some <==> is_decimal(b@),
        r is Some ==> r->0 == clamped(held_whole(digits_of(b@), point_of(b@))),
{
    let (digits, whole, end) = collect_digits(b);
    if digits.len() == 0 {
        return None;
    }
    match parse_exponent(b, end) {
        None => None,
        Some(e) => {
            proof {
                far_points_are_alike(
                    digits@,
                    whole as int,
                    exponent_of(b@.skip(end as int))->0,
                );
            }
            Some(held_clamped(&digits, whole as i128 + e))
        },
    }
}

/// Five, so many times with itself.
pub open spec fn pow5(n: nat) -> nat
    decreases n,
{
    if n == 0 {
        1
    } else {
        5 * pow5((n - 1) as nat)
    }
}

/// How many binary digits a number has.
pub open spec fn bits(n: nat) -> nat
    decreases n,
{
    if n == 0 {
        0
    } else {
        1 + bits(n / 2)
    }
}

/// How many binary places below the point a number just under `n + 1` is
/// rounded up from: half the distance between neighbours, in single
/// precision.
pub open spec fn half_step(n: nat) -> nat {
    (25 - bits(n)) as nat
}

/// The whole part of a number in single precision, where that is below 256:
/// the digits' own, or one more where rounding reaches the next number.
pub open spec fn single_whole(digits: Seq<char>, p: int) -> nat {
    let j = half_step(whole_part(digits, p));
    (whole_part(digits, p + j) + pow5(j)) / text::pow10(j)
}

/// A number in single precision as a byte: what is below zero and `nan` count
/// as zero, and what is too large as 255.
pub open spec fn byte_of(s: Seq<char>) -> nat {
    let b = unsigned(s);
    if s.len() > 0 && s[0] == '-' {
        0
    } else if is_decimal(b) {
        if whole_part(digits_of(b), point_of(b)) >= 255 {
            255
        } else {
            single_whole(digits_of(b), point_of(b))
        }
    } else if is_infinite(b) {
        255
    } else {
        0
    }
}

/// A few more digits keep within the next whole number.
proof fn more_digits_stay_below(digits: Seq<char>, p: int, j: nat)
    requires
        forall|i: int| 0 <= i < digits.len() ==> text::is_digit(#[trigger] digits[i]),
    ensures
        whole_part(digits, p + j) < (whole_part(digits, p) + 1) * text::pow10(j),
    decreases j,
{
    let w = whole_part(digits, p);
    if j == 0 {
        assert((w + 1) * 1 == w + 1);
    } else {
        let k = (j - 1) as nat;
        more_digits_stay_below(digits, p, k);
        whole_part_steps(digits, p + k);
        let t = text::pow10(k);
        assert((w + 1) * (10 * t) == 10 * ((w + 1) * t)) by (nonlinear_arith);
        if p + k < 0 {
            assert(whole_part(digits, p + j) == 0) by {
                if p + j > 0 {
                    assert(false);
                }
            }
            text::pow10_positive(j);
            assert((w + 1) * text::pow10(j) > 0) by (nonlinear_arith)
                requires
                    w >= 0,
                    text::pow10(j) > 0,
            ;
        }
    }
}

/// Where the point lies past any length, more digits do not tell it apart.
proof fn far_digits_are_alike(digits: Seq<char>, whole: int, e: int, j: nat)
    requires
        0 <= whole <= digits.len(),
        digits.len() < 0x1_0000_0000_0000_0000,
        j <= 25,
        whole_part(digits, whole + near(e)) < 255,
    ensures
        whole_part(digits, whole + e + j) == whole_part(digits, whole + near(e) + j),
{
    if e > FAR {
        let point = whole + FAR;
        let k = (point - digits.len()) as nat;
        let v = text::digits_value(digits);
        let t = text::pow10(k);
        tens_grow(k);
        assert(v == 0) by {
            if v > 0 {
                assert(v * t >= t) by (nonlinear_arith)
                    requires
                        v >= 1,
                ;
            }
        }
        whole_part_stays_zero(digits, whole + e + j);
        whole_part_stays_zero(digits, point + j);
    }
}

/// The whole part of some digits, where it is not too large.
fn whole_exact(digits: &Vec<char>, p: i128) -> (r: u128)
    requires
        forall|i: int| 0 <= i < digits.len() ==> text::is_digit(#[trigger] digits@[i]),
        whole_part(digits@, p as int) <= 10_000_000_000_000_000_000_000_000_000_000,
    ensures
        r == whole_part(digits@, p as int),
{
    let mut n: u128 = 0;
    let mut i: usize = 0;
    let len: usize = digits.len();
    while i < len && (i as i128) < p
        invariant
            i <= len,
            len == digits.len(),
            p >= 0 ==> i <= p,
            p < 0 ==> i == 0,
            n == whole_part(digits@, i as int),
            n <= whole_part(digits@, p as int),
            whole_part(digits@, p as int) <= 10_000_000_000_000_000_000_000_000_000_000,
            forall|k: int| 0 <= k < digits.len() ==> text::is_digit(#[trigger] digits@[k]),
        decreases len - i,
    {
        proof {
            whole_part_steps(digits@, i as int);
            whole_part_grows(digits@, i + 1, p as int);
        }
        let d: u128 = (digits[i] as u32 - 48) as u128;
        n = n * 10 + d;
        i += 1;
    }
    if p <= len as i128 {
        proof {
            if p <= 0 {
                assert(whole_part(digits@, 0) == 0);
            }
        }
        return n;
    }
    assert(digits@.take(len as int) =~= digits@);
    if n == 0 {
        proof {
            if len > 0 {
                assert(text::digits_value(digits@) == 0);
            }
            whole_part_stays_zero(digits@, p as int);
        }
        return 0;
    }
    let mut k: i128 = len as i128;
    while k < p
        invariant
            len == digits.len(),
            len <= k <= p,
            n == whole_part(digits@, k as int),
            n <= whole_part(digits@, p as int),
            whole_part(digits@, p as int) <= 10_000_000_000_000_000_000_000_000_000_000,
        decreases p - k,
    {
        proof {
            whole_part_steps(digits@, k as int);
            whole_part_grows(digits@, k + 1, p as int);
        }
        n = n * 10;
        k = k + 1;
    }
    n
}

/// Binary digits, powers of five and of ten for a number below 256.
fn steps_of(n: u32) -> (r: (usize, u128, u128))
    requires
        n < 255,
    ensures
        r.0 == half_step(n as nat),
        r.0 <= 25,
        r.1 == pow5(half_step(n as nat)),
        r.2 == text::pow10(half_step(n as nat)),
        r.1 <= 1_000_000_000_000_000_000,
        0 < r.2 <= 10_000_000_000_000_000_000_000_000,
{
    let mut j: usize = 25;
    let mut m: u32 = n;
    while m > 0
        invariant
            m <= n < 255,
            17 <= j <= 25,
            j as int - bits(m as nat) == 25 - bits(n as nat),
            j == 25 || (j == 24 && m <= 127) || (j == 23 && m <= 63) || (j == 22 && m <= 31) || (j
                == 21 && m <= 15) || (j == 20 && m <= 7) || (j == 19 && m <= 3) || (j == 18 && m
                <= 1) || (j == 17 && m == 0),
        decreases m,
    {
        m = m / 2;
        j = j - 1;
    }
    assert(pow5(25) == 298_023_223_876_953_125) by {
        reveal_with_fuel(pow5, 26);
    }
    assert(text::pow10(25) == 10_000_000_000_000_000_000_000_000) by {
        reveal_with_fuel(text::pow10, 26);
    }
    let mut fives: u128 = 1;
    let mut tens: u128 = 1;
    let mut k: usize = 0;
    while k < j
        invariant
            k <= j <= 25,
            fives == pow5(k as nat),
            tens == text::pow10(k as nat),
            fives <= tens,
            k <= 24 ==> fives * 5 <= 1_000_000_000_000_000_000,
            fives <= 1_000_000_000_000_000_000,
            0 < tens <= 10_000_000_000_000_000_000_000_000,
            pow5(25) == 298_023_223_876_953_125,
            text::pow10(25) == 10_000_000_000_000_000_000_000_000,
        decreases j - k,
    {
        proof {
            powers_grow((k + 1) as nat, 25);
            if k + 1 <= 24 {
                powers_grow((k + 2) as nat, 25);
            }
        }
        fives = fives * 5;
        tens = tens * 10;
        k += 1;
    }
    (j, fives, tens)
}

proof fn powers_grow(a: nat, b: nat)
    requires
        a <= b,
    ensures
        pow5(a) <= pow5(b),
        text::pow10(a) <= text::pow10(b),
    decreases b - a,
{
    if a < b {
        powers_grow(a, (b - 1) as nat);
    }
}

fn decimal_byte(b: &Vec<char>) -> (r: Option<u8>)
    ensures
        r is Some <==> is_decimal(b@),
        r is Some ==> r->0 == (if whole_part(digits_of(b@), point_of(b@)) >= 255 {
            255
        } else {
            single_whole(digits_of(b@), point_of(b@))
        }),
{
    let (digits, whole, end) = collect_digits(b);
    if digits.len() == 0 {
        return None;
    }
    match parse_exponent(b, end) {
        None => None,
        Some(e) => {
            let ghost far = exponent_of(b@.skip(end as int))->0;
            let p: i128 = whole as i128 + e;
            proof {
                far_points_are_alike(digits@, whole as int, far);
            }
            let n: u32 = whole_clamped(&digits, p);
            if n >= 255 {
                return Some(255);
            }
            let (j, fives, tens) = steps_of(n);
            proof {
                far_digits_are_alike(digits@, whole as int, far, j as nat);
                more_digits_stay_below(digits@, p as int, j as nat);
                assert((n + 1) * tens <= 255 * tens) by (nonlinear_arith)
                    requires
                        n < 255,
                        tens > 0,
                ;
            }
            let w: u128 = whole_exact(&digits, p + j as i128);
            let r: u128 = (w + fives) / tens;
            proof {
                assert(fives <= tens) by {
                    fives_below_tens(j as nat);
                }
                assert(r < 256) by (nonlinear_arith)
                    requires
                        w + fives < 256 * tens,
                        tens > 0,
                        r == (w + fives) / tens as int,
                ;
            }
            Some(r as u8)
        },
    }
}

proof fn fives_below_tens(j: nat)
    ensures
        pow5(j) <= text::pow10(j),
    decreases j,
{
    if j > 0 {
        fives_below_tens((j - 1) as nat);
    }
}

/// The number that a text writes, in single precision, as a byte; `None` where
/// the text writes no number.
pub fn parse_byte(s: &str) -> (r: Option<u8>)
    ensures
        r is Some <==> is_number(s@),
        r is Some ==> r->0 == byte_of(s@),
{
    let v = text::chars_of(s);
    let len: usize = v.len();
    let negative = len > 0 && v[0] == '-';
    let start: usize = if len > 0 && (v[0] == '+' || v[0] == '-') {
        1
    } else {
        0
    };
    let t = text::string_of_range(&v, start, len);
    assert(t@ =~= unsigned(s@));
    let b = text::chars_of(t.as_str());
    let n: u8 = match decimal_byte(&b) {
        Some(n) => n,
        None => {
            proof {
                word_lowers();
            }
            if text::same_ignoring_case(t.as_str(), "inf") || text::same_ignoring_case(
                t.as_str(),
                "infinity",
            ) {
                255
            } else if text::same_ignoring_case(t.as_str(), "nan") {
                0
            } else {
                return None;
            }
        },
    };
    if negative {
        Some(0)
    } else {
        Some(n)
    }
}

/// A character that can stand in a number.
pub open spec fn number_char(c: char) -> bool {
    text::is_digit(c) || c == '.' || c == '+' || c == '-' || 'a' <= c <= 'z' || 'A' <= c <= 'Z'
}

proof fn letters_only(b: Seq<char>, word: Seq<char>, i: int)
    requires
        text::lowered(b) == word,
        forall|k: int| 0 <= k < word.len() ==> 'a' <= #[trigger] word[k] <= 'z',
        0 <= i < b.len(),
    ensures
        number_char(b[i]),
{
    assert(text::lowered(b)[i] == text::lower(b[i]));
    assert(text::lowered(b).len() == b.len());
}

/// A number is a text of digits, letters, signs and points, and not empty.
pub proof fn numbers_use_number_chars(s: Seq<char>)
    requires
        is_number(s),
    ensures
        s.len() > 0,
        forall|i: int| 0 <= i < s.len() ==> number_char(#[trigger] s[i]),
{
    let b = unsigned(s);
    reveal_strlit("inf");
    reveal_strlit("infinity");
    reveal_strlit("nan");
    assert(text::lowered(b).len() == b.len());
    assert forall|i: int| 0 <= i < b.len() implies number_char(#[trigger] b[i]) by {
        if is_decimal(b) {
            decimal_chars(b, i);
        } else if text::lowered(b) == "inf"@ {
            letters_only(b, "inf"@, i);
        } else if text::lowered(b) == "infinity"@ {
            letters_only(b, "infinity"@, i);
        } else {
            letters_only(b, "nan"@, i);
        }
    }
    if is_decimal(b) {
        run_end_bounds(b, 0);
    }
    assert forall|i: int| 0 <= i < s.len() implies number_char(#[trigger] s[i]) by {
        if b != s {
            if i > 0 {
                assert(s[i] == b[i - 1]);
            }
        }
    }
}

proof fn decimal_chars(b: Seq<char>, i: int)
    requires
        is_decimal(b),
        0 <= i < b.len(),
    ensures
        number_char(b[i]),
{
    let w = run_end(b, 0);
    let e = digits_end(b);
    run_end_bounds(b, 0);
    if w < b.len() && b[w] == '.' {
        run_end_bounds(b, w + 1);
    }
    if i >= e {
        let tail = b.skip(e);
        assert(tail[i - e] == b[i]);
        if i > e {
            let x = tail.drop_first();
            let u = unsigned(x);
            assert(x[i - e - 1] == b[i]);
            if u == x {
                assert(text::is_digit(u[i - e - 1]));
            } else if i - e - 1 > 0 {
                assert(u[i - e - 2] == b[i]);
                assert(text::is_digit(u[i - e - 2]));
            }
        }
    }
}

/// The digits of a number write that number.
pub proof fn decimal_reads_back(n: nat)
    ensures
        text::digits_value(text::decimal(n)) == n,
        text::all_digits(text::decimal(n)),
    decreases n,
{
    if n < 10 {
        assert(text::decimal(n).drop_last() =~= Seq::<char>::empty());
        assert(text::digits_value(Seq::<char>::empty()) == 0);
    } else {
        decimal_reads_back(n / 10);
        let d = text::decimal(n);
        assert(d.drop_last() =~= text::decimal(n / 10));
        assert forall|i: int| 0 <= i < d.len() implies text::is_digit(#[trigger] d[i]) by {
            if i < d.len() - 1 {
                assert(d[i] == text::decimal(n / 10)[i]);
            }
        }
    }
}

/// A count in decimal is a number, and reads as that count.
pub proof fn counts_are_numbers(n: nat)
    requires
        n <= u32::MAX,
    ensures
        is_number(text::decimal(n)),
        whole_u32(text::decimal(n)) == n,
{
    decimal_reads_back(n);
    let d = text::decimal(n);
    assert(text::is_digit(d[0]));
    assert(unsigned(d) == d);
    run_reaches_the_end(d, 0);
    assert(run_end(d, 0) == d.len());
    assert(digits_of(d) =~= d);
    assert(d.skip(d.len() as int).len() == 0);
    assert(d.take(d.len() as int) =~= d);
}

/// The number next above that is a power of two: it is as large as it has to be,
/// and half of it is not.
pub proof fn a_binade_is_the_next_power_of_two(n: nat)
    requires
        n >= 1,
    ensures
        n <= binade(n) < 2 * n,
        n > 1 ==> binade(n) % 2 == 0,
        binade(2 * n) == 2 * binade(n),
    decreases n,
{
    if n > 1 {
        a_binade_is_the_next_power_of_two(((n + 1) / 2) as nat);
    }
    assert((2 * n + 1) / 2 == n);
}

/// So many bits hold a number, and one bit less does not.
pub proof fn bits_hold_their_number(n: nat)
    ensures
        n < vstd::arithmetic::power2::pow2(bits(n)),
        n > 0 ==> vstd::arithmetic::power2::pow2((bits(n) - 1) as nat) <= n,
    decreases n,
{
    if n == 0 {
        vstd::arithmetic::power2::lemma2_to64();
    } else {
        bits_hold_their_number(n / 2);
        let k = bits(n / 2);
        vstd::arithmetic::power2::lemma_pow2_unfold((k + 1) as nat);
        if k > 0 {
            vstd::arithmetic::power2::lemma_pow2_unfold(k);
        } else {
            vstd::arithmetic::power2::lemma2_to64();
        }
    }
}

proof fn taking_digits_divides(d: Seq<char>, p: int)
    requires
        0 <= p <= d.len(),
        forall|i: int| 0 <= i < d.len() ==> text::is_digit(#[trigger] d[i]),
    ensures
        ({
            let (w, ten) = (text::digits_value(d.take(p)), text::pow10((d.len() - p) as nat));
            w * ten <= text::digits_value(d) < (w + 1) * ten
        }),
    decreases d.len(),
{
    if p < d.len() {
        let front = d.drop_last();
        assert forall|i: int| 0 <= i < front.len() implies text::is_digit(#[trigger] front[i]) by {
            assert(front[i] == d[i]);
        }
        taking_digits_divides(front, p);
        assert(front.take(p) =~= d.take(p));
        let (w, ten) = (text::digits_value(d.take(p)), text::pow10((front.len() - p) as nat));
        assert(text::is_digit(d[d.len() - 1]));
        assert(text::pow10((d.len() - p) as nat) == 10 * ten);
        assert(w * (10 * ten) == 10 * (w * ten) && (w + 1) * (10 * ten) == 10 * ((w + 1) * ten))
            by (nonlinear_arith);
    } else {
        assert(d.take(p) =~= d);
        let w = text::digits_value(d);
        assert(w * 1 == w && (w + 1) * 1 == w + 1);
    }
}

/// The whole part of a number is what its digits come to with the point where it
/// stands, rounded down.
pub proof fn a_whole_part_is_rounded_down(d: Seq<char>, p: int)
    requires
        forall|i: int| 0 <= i < d.len() ==> text::is_digit(#[trigger] d[i]),
    ensures
        0 <= p <= d.len() ==> whole_part(d, p) * text::pow10((d.len() - p) as nat)
            <= text::digits_value(d) < (whole_part(d, p) + 1) * text::pow10((d.len() - p) as nat),
        p > d.len() ==> whole_part(d, p) == text::digits_value(d) * text::pow10(
            (p - d.len()) as nat,
        ),
        p < 0 ==> whole_part(d, p) == 0,
{
    if 0 <= p <= d.len() {
        taking_digits_divides(d, p);
        if p == 0 {
            assert(text::digits_value(d.take(0)) == 0);
        }
    }
}

proof fn a_run_ends_at_its_mark(s: Seq<char>, from: int, end: int)
    requires
        0 <= from <= end <= s.len(),
        forall|k: int| from <= k < end ==> text::is_digit(#[trigger] s[k]),
        end < s.len() ==> !text::is_digit(s[end]),
    ensures
        run_end(s, from) == end,
    decreases end - from,
{
    if from < end {
        a_run_ends_at_its_mark(s, from + 1, end);
    }
}

/// An exponent is the number behind its letter, in either case, less than
/// nothing where a minus stands before it; where there is no letter it is none.
pub proof fn an_exponent_is_what_its_digits_say(d: Seq<char>)
    requires
        text::all_digits(d),
    ensures
        exponent_of(seq!['e'] + d) == Some(text::digits_value(d) as int),
        exponent_of(seq!['E'] + d) == Some(text::digits_value(d) as int),
        exponent_of(seq!['e', '+'] + d) == Some(text::digits_value(d) as int),
        exponent_of(seq!['E', '-'] + d) == Some(-(text::digits_value(d) as int)),
        exponent_of(seq!['e', '-'] + d) == Some(-(text::digits_value(d) as int)),
        exponent_of(Seq::empty()) == Some(0int),
        exponent_of(d) is None,
        exponent_of(seq!['e']) is None,
{
    assert(text::is_digit(d[0]));
    assert((seq!['e'] + d).drop_first() =~= d);
    assert((seq!['E'] + d).drop_first() =~= d);
    assert((seq!['e', '+'] + d).drop_first() =~= seq!['+'] + d);
    assert((seq!['e', '-'] + d).drop_first() =~= seq!['-'] + d);
    assert((seq!['E', '-'] + d).drop_first() =~= seq!['-'] + d);
    assert((seq!['+'] + d).drop_first() =~= d);
    assert((seq!['-'] + d).drop_first() =~= d);
    assert(seq!['e'].drop_first().len() == 0);
}

/// Digits with a point among them write a number: its digits are those on both
/// sides, and as many of them stand before the point as were written there.
pub proof fn a_point_parts_the_digits(a: Seq<char>, b: Seq<char>)
    requires
        text::all_digits(a),
        text::all_digits(b),
    ensures
        ({
            let s = a + seq!['.'] + b;
            &&& is_number(s)
            &&& digits_of(s) == a + b
            &&& point_of(s) == a.len()
        }),
{
    let s = a + seq!['.'] + b;
    let n = a.len() as int;
    assert forall|k: int| 0 <= k < n implies text::is_digit(#[trigger] s[k]) by {
        assert(s[k] == a[k]);
    }
    assert(s[n] == '.');
    assert forall|k: int| n + 1 <= k < s.len() implies text::is_digit(#[trigger] s[k]) by {
        assert(s[k] == b[k - n - 1]);
    }
    a_run_ends_at_its_mark(s, 0, n);
    a_run_ends_at_its_mark(s, n + 1, s.len() as int);
    assert(s.take(n) =~= a);
    assert(s.subrange(n + 1, s.len() as int) =~= b);
    assert(s.skip(s.len() as int).len() == 0);
    assert(text::is_digit(s[0]));
    assert(unsigned(s) == s);
}

/// A sign, plus or minus, makes no difference to whether a text writes a
/// number.
pub proof fn a_sign_may_stand_before_a_number(s: Seq<char>)
    requires
        s.len() > 0,
        s[0] != '+',
        s[0] != '-',
    ensures
        is_number(seq!['-'] + s) == is_number(s),
        is_number(seq!['+'] + s) == is_number(s),
        whole_u32(seq!['-'] + s) == 0,
        whole_u32(seq!['+'] + s) == whole_u32(s),
{
    assert((seq!['-'] + s).drop_first() =~= s);
    assert((seq!['+'] + s).drop_first() =~= s);
}

} // verus!
