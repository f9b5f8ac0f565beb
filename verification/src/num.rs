//! Products that fit, and quotients as binary floating point rounds them.

use crate::text;
use vstd::prelude::*;

verus! {

/// The product of two 32-bit numbers, in full.
pub fn product(a: u32, b: u32) -> (p: u64)
    ensures
        p == a * b,
{
    assert(0 <= a * b <= 0xFFFF_FFFE_0000_0001) by (nonlinear_arith)
        requires
            0 <= a <= 0xFFFF_FFFF,
            0 <= b <= 0xFFFF_FFFF,
    ;
    a as u64 * b as u64
}

/// Half the range of a single-precision significand.
pub const SINGLE: u64 = 8_388_608;

/// Half the range of a double-precision significand.
pub const DOUBLE: u64 = 4_503_599_627_370_496;

/// `num` doubled until it is at least `least`, and `scale` as often.
pub open spec fn doubled(num: nat, scale: nat, least: nat) -> (nat, nat)
    decreases 2 * least - num,
{
    if num == 0 || num >= least {
        (num, scale)
    } else {
        doubled(2 * num, 2 * scale, least)
    }
}

/// The binary floating-point number nearest to `num / den`, ties to an even
/// significand: a significand, and the power of two it is divided by. `half`
/// is half the range of significands, and the quotient is below twice that.
pub open spec fn nearest(num: nat, den: nat, half: nat) -> (nat, nat) {
    let d = doubled(num, 1, den * half);
    (text::round_half_even(d.0, den), d.1)
}

/// `num / den` as floating point holds it, to `decimals` places.
pub open spec fn float_text(num: nat, den: nat, half: nat, decimals: nat) -> Seq<char> {
    let f = nearest(num, den, half);
    text::ratio_text(f.0, f.1, decimals)
}

/// Compute the nearest floating-point number to a quotient.
pub fn nearest_of(num: u128, den: u128, half: u64) -> (f: (u64, u128))
    requires
        0 < den <= 0x4_0000_0000_0000_0000,
        0 < half <= DOUBLE,
        num < 2 * half * den,
    ensures
        (f.0 as nat, f.1 as nat) == nearest(num as nat, den as nat, half as nat),
        f.0 <= 2 * half,
        0 < f.1,
        num > 0 ==> f.1 <= 2 * half * den,
        num > 0 ==> f.0 >= half,
        num == 0 ==> f.1 == 1,
{
    let d: u128 = den;
    let h: u128 = half as u128;
    assert(d * h <= 0x40_0000_0000_0000_0000_0000_0000_0000 && d * h == den * half && d * h >= 1)
        by (nonlinear_arith)
        requires
            1 <= d <= 0x4_0000_0000_0000_0000,
            1 <= h <= 0x10_0000_0000_0000,
            d == den,
            h == half,
    ;
    let least: u128 = d * h;
    assert(2 * half * den == 2 * least) by (nonlinear_arith)
        requires
            least == den * half,
    ;
    let mut n: u128 = num;
    let mut s: u128 = 1;
    while n != 0 && n < least
        invariant
            least <= 0x40_0000_0000_0000_0000_0000_0000_0000,
            n < 2 * least,
            1 <= s,
            num > 0 ==> s <= n,
            num == 0 ==> n == 0 && s == 1,
            doubled(n as nat, s as nat, least as nat) == doubled(num as nat, 1, least as nat),
        decreases 2 * least - n,
    {
        n = 2 * n;
        s = 2 * s;
    }
    let q: u128 = text::rounded(n, d);
    proof {
        assert(n <= 2 * least);
        assert(q <= 2 * h) by (nonlinear_arith)
            requires
                n < 2 * least,
                least == d * h,
                d >= 1,
                q == n / d || q == n / d + 1,
                q == text::round_half_even(n as nat, d as nat),
        {
            assert(n / d < 2 * h) by (nonlinear_arith)
                requires
                    n < 2 * (d * h),
                    d >= 1,
            ;
        }
        if num > 0 {
            assert(n >= least);
            assert(q >= h) by (nonlinear_arith)
                requires
                    n >= least,
                    least == d * h,
                    d >= 1,
                    q >= n / d,
            ;
        }
    }
    (q as u64, s)
}

/// Append `num / den` as floating point holds it, to `decimals` places.
pub fn push_float(out: &mut String, num: u128, den: u64, half: u64, decimals: usize)
    requires
        0 < den,
        0 < half <= DOUBLE,
        num < 2 * half * den,
        decimals <= 3,
    ensures
        final(out)@ == old(out)@ + float_text(num as nat, den as nat, half as nat, decimals as nat),
{
    let f = nearest_of(num, den as u128, half);
    proof {
        assert(text::pow10(0) == 1 && text::pow10(1) == 10 && text::pow10(2) == 100
            && text::pow10(3) == 1000) by {
            reveal_with_fuel(text::pow10, 4);
        }
        assert(f.0 * text::pow10(decimals as nat) <= 0x20_0000_0000_0000 * 1000) by (nonlinear_arith)
            requires
                0 <= f.0 <= 0x20_0000_0000_0000,
                0 <= text::pow10(decimals as nat) <= 1000,
        ;
        assert(2 * half * den <= 0x20_0000_0000_0000 * 0xFFFF_FFFF_FFFF_FFFF) by (nonlinear_arith)
            requires
                half <= 0x10_0000_0000_0000,
                den <= 0xFFFF_FFFF_FFFF_FFFF,
        ;
    }
    text::push_ratio(out, f.0 as u128, f.1, decimals);
}

/// The step between the floating-point numbers around a whole number: as many
/// halvings as bring it below the range of significands, of which `half` is
/// half.
pub open spec fn step_at(n: nat, half: nat) -> nat
    decreases n,
{
    if half == 0 || n < 2 * half {
        1
    } else {
        2 * step_at(n / 2, half)
    }
}

/// A whole number as floating point holds it, ties to an even significand.
pub open spec fn held(n: nat, half: nat) -> nat {
    text::round_half_even(n, step_at(n, half)) * step_at(n, half)
}

/// The single-precision number nearest to `num / den`, ties to an even
/// significand, as a quotient of whole numbers.
pub open spec fn single(num: nat, den: nat) -> (nat, nat) {
    let step = step_at(num / den, SINGLE as nat);
    if step == 1 {
        nearest(num, den, SINGLE as nat)
    } else {
        (text::round_half_even(num, den * step) * step, 1)
    }
}

/// A quantity in units of `1 / den` as single precision holds it, to
/// `decimals` places.
pub open spec fn single_text(v: int, den: nat, decimals: nat) -> Seq<char> {
    let f = single(text::magnitude_of(v), den);
    if v < 0 {
        seq!['-'] + text::ratio_text(f.0, f.1, decimals)
    } else {
        text::ratio_text(f.0, f.1, decimals)
    }
}

/// The quotient of two whole numbers that single precision holds, as single
/// precision divides them, to one place.
pub open spec fn quotient_text(num: nat, den: nat) -> Seq<char> {
    if den == 0 {
        if num == 0 {
            "NaN"@
        } else {
            "inf"@
        }
    } else {
        single_text(num as int, den, 1)
    }
}

/// The step between the floating-point numbers around a whole number.
fn step_of(n: u128, half: u64) -> (step: u128)
    requires
        0 < half <= DOUBLE,
        n <= 0x100_0000_0000_0000_0000_0000_0000_0000,
    ensures
        step == step_at(n as nat, half as nat),
        1 <= step,
        n < 2 * half * step,
        step == 1 || half * step <= n,
{
    let mut left: u128 = n;
    let mut step: u128 = 1;
    while left >= 2 * half as u128
        invariant
            0 < half <= DOUBLE,
            n <= 0x100_0000_0000_0000_0000_0000_0000_0000,
            1 <= step,
            step == 1 || half * step <= n,
            left == n / step,
            step_at(n as nat, half as nat) == step * step_at(left as nat, half as nat),
        decreases left,
    {
        proof {
            vstd::arithmetic::div_mod::lemma_div_denominator(n as int, step as int, 2);
            let rest = step_at((left / 2) as nat, half as nat);
            assert(step * (2 * rest) == (2 * step) * rest) by (nonlinear_arith);
            assert(n >= half * (2 * step) && n >= 2 * step) by (nonlinear_arith)
                requires
                    left == n / step,
                    left >= 2 * half,
                    half >= 1,
                    step >= 1,
            ;
        }
        left = left / 2;
        step = 2 * step;
    }
    assert(step * 1 == step);
    assert(n < 2 * half * step) by (nonlinear_arith)
        requires
            left == n / step,
            left < 2 * half,
            step >= 1,
    ;
    step
}

/// A whole number as floating point holds it.
pub fn held_of(n: u64, half: u64) -> (r: u128)
    requires
        0 < half <= DOUBLE,
    ensures
        r == held(n as nat, half as nat),
        r <= 2 * n,
        n > 0 ==> r > 0,
{
    let step: u128 = step_of(n as u128, half);
    assert(2 * step <= u128::MAX) by (nonlinear_arith)
        requires
            step == 1 || half * step <= n,
            half >= 1,
            n <= 0xFFFF_FFFF_FFFF_FFFF,
    ;
    let q: u128 = text::rounded(n as u128, step);
    assert((n as nat / step as nat) < 2 * half) by (nonlinear_arith)
        requires
            n < 2 * half * step,
            step >= 1,
    ;
    if step == 1 {
        assert(n as nat / 1 == n && n as nat % 1 == 0);
        assert(q == n);
    }
    assert(q * step <= 2 * n) by (nonlinear_arith)
        requires
            q <= 2 * half,
            step >= 1,
            step == 1 ==> q == n,
            step == 1 || half * step <= n,
            q >= 0,
            n >= 0,
    ;
    if n > 0 {
        assert(n as nat / step as nat >= 1) by (nonlinear_arith)
            requires
                step == 1 || half * step <= n,
                half >= 1,
                step >= 1,
                n >= 1,
        ;
        assert(q * step > 0) by (nonlinear_arith)
            requires
                q >= 1,
                step >= 1,
        ;
    }
    q * step
}

/// The single-precision number nearest to a quotient.
pub fn single_of(num: u128, den: u64) -> (f: (u128, u128))
    requires
        0 < den,
        num <= 0x100_0000_0000_0000_0000_0000_0000_0000,
    ensures
        (f.0 as nat, f.1 as nat) == single(num as nat, den as nat),
        f.0 <= 2 * SINGLE || f.0 <= 2 * num,
        0 < f.1 <= 2 * SINGLE * den,
{
    let whole: u128 = num / den as u128;
    assert(whole <= num) by (nonlinear_arith)
        requires
            whole == num / den as u128,
            den >= 1,
    ;
    let step: u128 = step_of(whole, SINGLE);
    assert(1 <= 2 * SINGLE * den) by (nonlinear_arith)
        requires
            den >= 1,
            SINGLE == 8_388_608,
    ;
    if step == 1 {
        assert(num < 2 * SINGLE * den) by (nonlinear_arith)
            requires
                whole == num / den as u128,
                whole < 2 * SINGLE,
                den >= 1,
                num >= 0,
        ;
        let f = nearest_of(num, den as u128, SINGLE);
        (f.0 as u128, f.1)
    } else {
        assert(den * step <= num) by (nonlinear_arith)
            requires
                whole == num / den as u128,
                SINGLE * step <= whole,
                SINGLE == 8_388_608,
                den >= 1,
                step >= 1,
        ;
        assert(den * step > 0) by (nonlinear_arith)
            requires
                den >= 1,
                step >= 1,
        ;
        let grain: u128 = den as u128 * step;
        let q: u128 = text::rounded(num, grain);
        proof {
            grains_add_up(num as int, den as int, step as int, q as int);
        }
        (q * step, 1)
    }
}

/// The double-precision number nearest to `num / den`, as a quotient of whole
/// numbers.
pub open spec fn double(num: nat, den: nat) -> (nat, nat) {
    let step = step_at(num / den, DOUBLE as nat);
    if step == 1 {
        nearest(num, den, DOUBLE as nat)
    } else {
        (text::round_half_even(num, den * step) * step, 1)
    }
}

/// How much coarser single precision is than double.
pub const COARSER: u64 = 0x2000_0000;

/// A double-precision number as single precision holds it: 29 bits of its
/// significand are rounded off.
pub open spec fn narrowed(f: (nat, nat)) -> (nat, nat) {
    if f.0 <= 2 * DOUBLE {
        (text::round_half_even(f.0, COARSER as nat) * COARSER as nat, f.1)
    } else {
        single(f.0, f.1)
    }
}

/// The double-precision number nearest to a quotient.
pub fn double_of(num: u128, den: u128) -> (f: (u128, u128))
    requires
        0 < den <= 0x4_0000_0000_0000_0000,
        num <= 0x4_0000_0000_0000_0000,
    ensures
        (f.0 as nat, f.1 as nat) == double(num as nat, den as nat),
        f.0 <= 2 * DOUBLE || (f.0 <= 2 * num && f.1 == 1),
        0 < f.1 <= 2 * DOUBLE * den,
{
    let whole: u128 = num / den;
    assert(whole <= num) by (nonlinear_arith)
        requires
            whole == num / den,
            den >= 1,
    ;
    let step: u128 = step_of(whole, DOUBLE);
    assert(1 <= 2 * DOUBLE * den) by (nonlinear_arith)
        requires
            den >= 1,
            DOUBLE == 4_503_599_627_370_496,
    ;
    if step == 1 {
        assert(num < 2 * DOUBLE * den) by (nonlinear_arith)
            requires
                whole == num / den,
                whole < 2 * DOUBLE,
                den >= 1,
        ;
        let f = nearest_of(num, den, DOUBLE);
        (f.0 as u128, f.1)
    } else {
        assert(den * step <= num && den * step > 0) by (nonlinear_arith)
            requires
                whole == num / den,
                DOUBLE * step <= whole,
                DOUBLE == 4_503_599_627_370_496,
                den >= 1,
                step >= 1,
        ;
        let grain: u128 = den * step;
        let q: u128 = text::rounded(num, grain);
        proof {
            grains_add_up(num as int, den as int, step as int, q as int);
        }
        (q * step, 1)
    }
}

/// A double-precision number as single precision holds it.
pub fn narrow(f: (u128, u128)) -> (g: (u128, u128))
    requires
        0 < f.1,
        f.0 <= 2 * DOUBLE || (f.0 <= 0x10_0000_0000_0000_0000 && f.1 == 1),
    ensures
        (g.0 as nat, g.1 as nat) == narrowed((f.0 as nat, f.1 as nat)),
        g.0 <= 4 * DOUBLE || g.0 <= 2 * f.0,
        0 < g.1,
        g.1 <= f.1 || g.1 <= 2 * SINGLE,
{
    if f.0 <= 2 * DOUBLE as u128 {
        let q: u128 = text::rounded(f.0, COARSER as u128);
        assert(q <= 0x100_0001) by {
            assert(f.0 as nat / 0x2000_0000 <= 0x100_0000);
        }
        assert(0 <= q * COARSER <= 0x100_0001 * 0x2000_0000) by (nonlinear_arith)
            requires
                0 <= q <= 0x100_0001,
                COARSER == 0x2000_0000,
        ;
        (q * COARSER as u128, f.1)
    } else {
        single_of(f.0, 1)
    }
}

/// Rounded to a grain and multiplied by its step, a number is at most doubled.
proof fn grains_add_up(num: int, den: int, step: int, q: int)
    requires
        den >= 1,
        step >= 1,
        0 < den * step <= num,
        0 <= q <= num / (den * step) + 1,
    ensures
        q * step <= 2 * num,
{
    let grain = den * step;
    assert(num / grain * grain <= num) by (nonlinear_arith)
        requires
            grain >= 1,
            num >= 0,
    ;
    assert(q * grain <= num + grain) by (nonlinear_arith)
        requires
            q <= num / grain + 1,
            num / grain * grain <= num,
            grain >= 1,
    ;
    assert(q * step <= q * grain) by (nonlinear_arith)
        requires
            grain == den * step,
            den >= 1,
            step >= 1,
            q >= 0,
    ;
}

/// Append a quantity in units of `1 / den` as single precision holds it.
pub fn push_single(out: &mut String, v: i64, den: u64, decimals: usize)
    requires
        0 < den,
        decimals <= 18,
    ensures
        final(out)@ == old(out)@ + single_text(v as int, den as nat, decimals as nat),
{
    let size: u64 = if v < 0 {
        out.push('-');
        (-(v as i128)) as u64
    } else {
        v as u64
    };
    let f = single_of(size as u128, den);
    proof {
        text::pow10_monotone(decimals as nat, 18);
        assert(text::pow10(18) == 1_000_000_000_000_000_000) by {
            reveal_with_fuel(text::pow10, 19);
        }
        assert(f.0 * text::pow10(decimals as nat) <= 0x2_0000_0000_0000_0000
            * 1_000_000_000_000_000_000) by (nonlinear_arith)
            requires
                0 <= f.0 <= 0x2_0000_0000_0000_0000,
                0 <= text::pow10(decimals as nat) <= 1_000_000_000_000_000_000,
        ;
        assert(2 * SINGLE * den <= 16_777_216 * 0xFFFF_FFFF_FFFF_FFFF) by (nonlinear_arith)
            requires
                SINGLE == 8_388_608,
                den <= 0xFFFF_FFFF_FFFF_FFFF,
        ;
    }
    text::push_ratio(out, f.0, f.1, decimals);
    assert(out@ =~= old(out)@ + single_text(v as int, den as nat, decimals as nat));
}

/// Append the quotient of two whole numbers that single precision holds.
pub fn push_quotient(out: &mut String, num: u64, den: u64)
    requires
        num <= 0x2_0000_0000,
        den <= 0x2_0000_0000,
    ensures
        final(out)@ == old(out)@ + quotient_text(num as nat, den as nat),
{
    if den == 0 {
        if num == 0 {
            out.append("NaN");
        } else {
            out.append("inf");
        }
    } else {
        push_single(out, num as i64, den, 1);
    }
}

/// Doubling keeps a number in proportion.
proof fn doubling_keeps_proportion(num: nat, scale: nat, least: nat)
    requires
        0 < num,
        0 < scale,
    ensures
        doubled(num, scale, least).0 * scale == num * doubled(num, scale, least).1,
        doubled(num, scale, least).0 >= least,
        doubled(num, scale, least).1 > 0,
    decreases 2 * least - num,
{
    if num < least {
        doubling_keeps_proportion(2 * num, 2 * scale, least);
        let d = doubled(2 * num, 2 * scale, least);
        assert(d.0 * scale == num * d.1) by (nonlinear_arith)
            requires
                d.0 * (2 * scale) == (2 * num) * d.1,
        ;
    }
}

/// What single precision holds of a number up to `m` thousandths does not
/// round past them.
pub proof fn a_single_stays_within(num: nat, den: nat, m: nat)
    requires
        0 < den,
        num * 1000 <= m * den,
        m <= 99_999,
    ensures
        text::round_half_even(single(num, den).0 * 1000, single(num, den).1) <= m,
{
    let half = SINGLE as nat;
    assert(num / den < 100) by (nonlinear_arith)
        requires
            num * 1000 <= m * den,
            m <= 99_999,
            0 < den,
    ;
    assert(step_at(num / den, half) == 1);
    let f = nearest(num, den, half);
    if num == 0 {
        assert(f == (0nat, 1nat)) by {
            assert(0nat / den == 0 && 0nat % den == 0) by (nonlinear_arith)
                requires
                    den > 0,
            ;
        }
    } else {
        doubling_keeps_proportion(num, 1, den * half);
        let n = doubled(num, 1, den * half).0;
        let d = doubled(num, 1, den * half).1;
        assert(n == num * d);
        let q = n / den;
        assert(2 * (f.0 * den) <= 2 * n + den) by (nonlinear_arith)
            requires
                f.0 == q || (f.0 == q + 1 && 2 * (n % den) >= den),
                q == n / den,
                den > 0,
        {
            vstd::arithmetic::div_mod::lemma_fundamental_div_mod(n as int, den as int);
        }
        let dd = den as int;
        let scale = d as int;
        vstd::arithmetic::mul::lemma_mul_inequality((num * 1000) as int, m * dd, scale);
        let nd = n as int;
        assert((num * 1000) * scale == 1000 * nd) by (nonlinear_arith)
            requires
                nd == num * scale,
        ;
        let md = m * scale;
        assert((m * dd) * scale == dd * md) by (nonlinear_arith)
            requires
                md == m * scale,
        ;
        if d < 83_886 {
            assert(md <= 8_388_416_115) by (nonlinear_arith)
                requires
                    md == m * scale,
                    0 <= m <= 99_999,
                    0 <= scale <= 83_885,
            ;
            vstd::arithmetic::mul::lemma_mul_inequality(md, 8_388_416_115, dd);
            assert(md * dd == dd * md) by (nonlinear_arith);
            assert(den * half == 8_388_608 * dd) by (nonlinear_arith)
                requires
                    half == 8_388_608,
                    dd == den,
            ;
            assert(false);
        }
        let fd = f.0 * dd;
        assert(dd * (2000 * f.0) <= dd * (2 * md + 1000)) by (nonlinear_arith)
            requires
                2 * fd <= 2 * nd + dd,
                fd == f.0 * dd,
                1000 * nd <= dd * md,
        ;
        assert(2000 * f.0 <= 2 * md + 1000) by (nonlinear_arith)
            requires
                dd * (2000 * f.0) <= dd * (2 * md + 1000),
                dd > 0,
        ;
        let t = f.0 * 1000;
        let w = t / d;
        vstd::arithmetic::div_mod::lemma_fundamental_div_mod(t as int, d as int);
        assert(w <= m) by (nonlinear_arith)
            requires
                2 * t <= 2 * (m * d) + 1000,
                t == d * w + t % d,
                t % d >= 0,
                d >= 83_886,
        ;
        if w == m {
            assert(2 * (t % d) < d) by (nonlinear_arith)
                requires
                    2 * t <= 2 * (m * d) + 1000,
                    t == d * w + t % d,
                    w == m,
                    d >= 83_886,
            ;
        }
    }
}

/// A hundred times a double-precision significand, as floating point holds
/// it: seven or eight bits more, of which the lowest are rounded off.
pub open spec fn hundredfold(significand: nat) -> nat {
    let p = 100 * significand;
    if p < 128 * DOUBLE {
        text::round_half_even(p, 64) * 64
    } else {
        text::round_half_even(p, 128) * 128
    }
}

/// A share in per cent as floating point holds it, to one place.
pub open spec fn share_text(part: nat, total: nat) -> Seq<char> {
    let f = nearest(part, total, DOUBLE as nat);
    text::ratio_text(hundredfold(f.0), f.1, 1)
}

/// Append a share in per cent, to one place.
pub fn push_share(out: &mut String, part: u64, total: u64)
    requires
        0 < total,
        part <= total,
    ensures
        final(out)@ == old(out)@ + share_text(part as nat, total as nat),
{
    assert(part < 2 * DOUBLE * total) by (nonlinear_arith)
        requires
            part <= total,
            0 < total,
            DOUBLE == 4_503_599_627_370_496,
    ;
    let f = nearest_of(part as u128, total as u128, DOUBLE);
    let p: u128 = 100 * f.0 as u128;
    let h: u128 = if p < 128 * DOUBLE as u128 {
        text::rounded(p, 64) * 64
    } else {
        text::rounded(p, 128) * 128
    };
    proof {
        assert(text::pow10(1) == 10) by {
            reveal_with_fuel(text::pow10, 2);
        }
        assert(2 * DOUBLE * total <= 0x20_0000_0000_0000 * 0xFFFF_FFFF_FFFF_FFFF) by (nonlinear_arith)
            requires
                DOUBLE == 4_503_599_627_370_496,
                total <= 0xFFFF_FFFF_FFFF_FFFF,
        ;
    }
    text::push_ratio(out, h, f.1, 1);
}

/// The quotient of `t` by `d` rounded down, and what is left.
pub fn floor_divide(t: i64, d: i64) -> (r: (i64, i64))
    requires
        0 < d,
    ensures
        r.0 == t as int / d as int,
        r.1 == t as int % d as int,
        0 <= r.1 < d,
{
    if t >= 0 {
        (t / d, t % d)
    } else {
        let a: i64 = -(t + 1);
        let k: i64 = a / d;
        let m: i64 = a % d;
        proof {
            let dd = d as int;
            vstd::arithmetic::div_mod::lemma_fundamental_div_mod(a as int, dd);
            assert(t == (-k - 1) * dd + (dd - 1 - m)) by (nonlinear_arith)
                requires
                    a == dd * k + m,
                    a == -(t + 1),
            ;
            vstd::arithmetic::div_mod::lemma_fundamental_div_mod_converse(
                t as int,
                dd,
                -k - 1,
                dd - 1 - m,
            );
        }
        (-k - 1, d - 1 - m)
    }
}

/// Whether `r` is the whole part of the square root of `n`.
pub open spec fn is_root(n: nat, r: nat) -> bool {
    r * r <= n < (r + 1) * (r + 1)
}

/// The whole part of a square root.
pub open spec fn root(n: nat) -> nat {
    choose|r: nat| is_root(n, r)
}

/// Every number has a root.
pub(crate) proof fn root_is_whole_part(n: nat)
    ensures
        is_root(n, root(n)),
    decreases n,
{
    if n == 0 {
        let zero = 0nat;
        assert(zero * zero <= n < (zero + 1) * (zero + 1)) by (nonlinear_arith)
            requires
                zero == 0,
                n == 0,
        ;
        assert(is_root(n, zero));
    } else {
        root_is_whole_part((n - 1) as nat);
        let r = root((n - 1) as nat);
        if (r + 1) * (r + 1) <= n {
            assert((r + 2) * (r + 2) > (r + 1) * (r + 1) + 1) by (nonlinear_arith)
                requires
                    r >= 0,
            ;
            assert(is_root(n, r + 1));
        } else {
            assert(is_root(n, r));
        }
    }
}

/// There is only one whole part.
proof fn root_is(n: nat, r: nat)
    requires
        is_root(n, r),
    ensures
        root(n) == r,
{
    let s = root(n);
    assert(is_root(n, s));
    assert(r == s) by (nonlinear_arith)
        requires
            r * r <= n < (r + 1) * (r + 1),
            s * s <= n < (s + 1) * (s + 1),
            r >= 0,
            s >= 0,
    ;
}

/// The whole part of a square root.
pub fn root_of(n: u128) -> (r: u64)
    ensures
        r == root(n as nat),
        is_root(n as nat, r as nat),
{
    let mut lo: u128 = 0;
    let mut hi: u128 = 0x1_0000_0000_0000_0000;
    assert(hi * hi > n) by (nonlinear_arith)
        requires
            hi == 0x1_0000_0000_0000_0000,
            n <= 0xFFFF_FFFF_FFFF_FFFF_FFFF_FFFF_FFFF_FFFF,
    ;
    while hi - lo > 1
        invariant
            lo < hi <= 0x1_0000_0000_0000_0000,
            lo * lo <= n,
            hi * hi > n,
        decreases hi - lo,
    {
        let mid: u128 = lo + (hi - lo) / 2;
        assert(mid * mid <= 0xFFFF_FFFF_FFFF_FFFF_FFFF_FFFF_FFFF_FFFF) by (nonlinear_arith)
            requires
                0 <= mid <= 0xFFFF_FFFF_FFFF_FFFF,
        ;
        if mid * mid <= n {
            lo = mid;
        } else {
            hi = mid;
        }
    }
    assert((lo + 1) * (lo + 1) == hi * hi) by (nonlinear_arith)
        requires
            hi == lo + 1,
    ;
    proof {
        root_is(n as nat, lo as nat);
    }
    lo as u64
}

/// A number in proportion to another, both in units of `1 / UNIT`, rounded
/// down.
pub open spec fn scaled(v: int, by: int) -> int {
    v * by / 1_000_000_000
}

/// The largest size of a number that can be scaled: a million.
pub const SCALABLE: i64 = 1_000_000_000_000_000;

/// The largest size of a number to scale by: a thousand.
pub const LARGEST_FACTOR: i64 = 1_000_000_000_000;

/// A number in proportion to another.
pub fn scale(v: i64, by: i64) -> (r: i64)
    requires
        -SCALABLE <= v <= SCALABLE,
        -LARGEST_FACTOR <= by <= LARGEST_FACTOR,
    ensures
        r == scaled(v as int, by as int),
        -1_000_000_000_000_000_000 <= r <= 1_000_000_000_000_000_000,
{
    assert(-1_000_000_000_000_000_000_000_000_000 <= v * by
        <= 1_000_000_000_000_000_000_000_000_000) by (nonlinear_arith)
        requires
            -1_000_000_000_000_000 <= v <= 1_000_000_000_000_000,
            -1_000_000_000_000 <= by <= 1_000_000_000_000,
    ;
    let p: i128 = v as i128 * by as i128;
    if p >= 0 {
        (p / 1_000_000_000) as i64
    } else {
        let q: i128 = (999_999_999 - p) / 1_000_000_000;
        assert(p / 1_000_000_000 == -((999_999_999 - p) / 1_000_000_000));
        (-q) as i64
    }
}

/// `v`, and not outside two bounds.
pub open spec fn clamped(v: int, low: int, high: int) -> int {
    if v < low {
        low
    } else if v > high {
        high
    } else {
        v
    }
}

/// A number brought into a range.
pub fn clamp(v: i64, low: i64, high: i64) -> (r: i64)
    ensures
        r == clamped(v as int, low as int, high as int),
{
    if v < low {
        low
    } else if v > high {
        high
    } else {
        v
    }
}

/// Whether `v` is the product of two numbers, all three in billionths, rounded
/// down.
pub open spec fn is_product(v: int, a: int, b: int) -> bool {
    v * 1_000_000_000 <= a * b < v * 1_000_000_000 + 1_000_000_000
}

/// Scaling multiplies, and loses less than a billionth.
pub proof fn scaling_multiplies(v: int, by: int)
    ensures
        is_product(scaled(v, by), v, by),
{
    let p = v * by;
    assert(p / 1_000_000_000 * 1_000_000_000 <= p < p / 1_000_000_000 * 1_000_000_000 + 1_000_000_000);
}

/// A number of ordinary size, scaled, is of a size that a machine holds.
pub proof fn scaling_stays_in_range(v: int, by: int)
    requires
        -SCALABLE <= v <= SCALABLE,
        -LARGEST_FACTOR <= by <= LARGEST_FACTOR,
    ensures
        -1_000_000_000_000_000_000 <= scaled(v, by) <= 1_000_000_000_000_000_000,
{
    assert(-1_000_000_000_000_000_000_000_000_000 <= v * by
        <= 1_000_000_000_000_000_000_000_000_000) by (nonlinear_arith)
        requires
            -1_000_000_000_000_000 <= v <= 1_000_000_000_000_000,
            -1_000_000_000_000 <= by <= 1_000_000_000_000,
    ;
}

/// What is held between two bounds is between them, and as it was where it was
/// between them already.
pub proof fn clamping_holds(v: int, low: int, high: int)
    requires
        low <= high,
    ensures
        low <= clamped(v, low, high) <= high,
        low <= v <= high ==> clamped(v, low, high) == v,
        v <= low ==> clamped(v, low, high) == low,
        v >= high ==> clamped(v, low, high) == high,
{
}

/// Doubling goes on until a number is large enough and not twice that.
proof fn doubling_stops_in_time(num: nat, scale: nat, least: nat)
    requires
        0 < num < least,
    ensures
        doubled(num, scale, least).0 < 2 * least,
    decreases 2 * least - num,
{
    if 2 * num < least {
        doubling_stops_in_time(2 * num, 2 * scale, least);
    } else {
        assert(doubled(2 * num, 2 * scale, least) == (2 * num, 2 * scale));
    }
}

/// The nearest floating-point number to a quotient is within half a unit of its
/// last place of it, and its significand has the digits that it should.
pub proof fn the_nearest_is_within_half_a_unit(num: nat, den: nat, half: nat)
    requires
        0 < den,
        0 < half,
        0 < num,
    ensures
        ({
            let f = nearest(num, den, half);
            &&& f.1 > 0
            &&& -(den as int) <= 2 * (f.0 * den - num * f.1) <= den
            &&& f.0 >= half
            &&& num < den * half ==> f.0 <= 2 * half
        }),
{
    let least = den * half;
    let d = doubled(num, 1, least);
    doubling_keeps_proportion(num, 1, least);
    assert(d.0 == num * d.1);
    text::a_quotient_is_rounded_to_the_nearest(d.0, den);
    let q = text::round_half_even(d.0, den);
    assert(q >= half) by (nonlinear_arith)
        requires
            2 * (q * den - d.0) >= -(den as int),
            d.0 >= den * half,
            den > 0,
    ;
    if num < least {
        doubling_stops_in_time(num, 1, least);
        assert(q <= 2 * half) by (nonlinear_arith)
            requires
                2 * (q * den - d.0) <= den,
                d.0 < 2 * (den * half),
                den > 0,
        ;
    }
}

/// The step at a number is the one with which its significand has the digits that
/// it should, and what is held of a number is a whole number of steps within half
/// a step of it.
pub proof fn what_is_held_is_within_half_a_step(n: nat, half: nat)
    requires
        0 < half,
    ensures
        ({
            let step = step_at(n, half);
            &&& step > 0
            &&& n < 2 * half * step
            &&& step > 1 ==> half * step <= n
            &&& -(step as int) <= 2 * (held(n, half) - n) <= step
            &&& n < 2 * half ==> held(n, half) == n
        }),
    decreases n,
{
    let step = step_at(n, half);
    if n >= 2 * half {
        what_is_held_is_within_half_a_step(n / 2, half);
        let s = step_at(n / 2, half);
        assert(2 * half * (2 * s) == 2 * (2 * half * s)) by (nonlinear_arith);
        assert(half * (2 * s) == 2 * (half * s)) by (nonlinear_arith);
        if s == 1 {
            assert(half * 1 == half);
        }
    } else {
        assert(2 * half * 1 == 2 * half) by (nonlinear_arith);
    }
    text::a_quotient_is_rounded_to_the_nearest(n, step);
    if n < 2 * half {
        assert(n / 1 == n && n % 1 == 0);
    }
}

/// Doubling keeps a number in proportion to its scale.
pub proof fn doubling_is_in_proportion(num: nat, least: nat)
    requires
        0 < num,
    ensures
        doubled(num, 1, least).0 == num * doubled(num, 1, least).1,
        doubled(num, 1, least).1 > 0,
{
    doubling_keeps_proportion(num, 1, least);
}

/// Narrowing goes to the nearest number that is coarse enough.
pub proof fn narrowing_is_within_half_a_step(f: (nat, nat))
    requires
        f.0 <= 9_007_199_254_740_992,
    ensures
        narrowed(f).1 == f.1,
        narrowed(f).0 % 536_870_912 == 0,
        -536_870_912 <= 2 * (narrowed(f).0 - f.0) <= 536_870_912,
{
    text::a_quotient_is_rounded_to_the_nearest(f.0, COARSER as nat);
}

} // verus!
