//! IEEE 754 binary16 decoded to binary32, on bit patterns.

use vstd::prelude::*;
#[allow(unused_imports)]
use vstd::arithmetic::power2::*;

verus! {

/// A binary32 pattern of a sign, a biased exponent and a fraction.
pub open spec fn single(sign: nat, exp: nat, fraction: nat) -> nat {
    sign * 0x8000_0000 + exp * 0x80_0000 + fraction
}

/// The sign bit of a binary16 pattern.
pub open spec fn half_sign(bits: nat) -> nat {
    bits / 0x8000
}

/// The biased exponent of a binary16 pattern.
pub open spec fn half_exp(bits: nat) -> nat {
    bits / 0x400 % 0x20
}

/// The fraction of a binary16 pattern.
pub open spec fn half_fraction(bits: nat) -> nat {
    bits % 0x400
}

/// How often `m` doubles until its leading one is at bit 10.
pub open spec fn doublings(m: nat) -> nat
    decreases 0x800 - m,
{
    if m == 0 || m >= 0x400 {
        0
    } else {
        1 + doublings(2 * m)
    }
}

/// The binary32 pattern of the number that a binary16 pattern writes.
///
/// Zero keeps its sign, an infinity and a NaN keep their payload, and a
/// subnormal becomes a normal number.
pub open spec fn decoded(bits: nat) -> nat {
    let sign = half_sign(bits);
    let exp = half_exp(bits);
    let fraction = half_fraction(bits);
    if exp == 0x1F {
        single(sign, 0xFF, fraction * 0x2000)
    } else if exp > 0 {
        single(sign, exp + 112, fraction * 0x2000)
    } else if fraction == 0 {
        single(sign, 0, 0)
    } else {
        let k = doublings(fraction);
        single(
            sign,
            (113 - k) as nat,
            ((fraction * pow2(k) - 0x400) * 0x2000) as nat,
        )
    }
}

/// The size of a finite binary16 number, in units of `2^-24`.
pub open spec fn half_units(bits: nat) -> nat {
    if half_exp(bits) == 0 {
        half_fraction(bits)
    } else {
        (0x400 + half_fraction(bits)) * pow2((half_exp(bits) - 1) as nat)
    }
}

/// The doublings bring the leading one to bit 10, in at most ten steps.
proof fn doublings_normalise(m: nat)
    requires
        0 < m < 0x400,
    ensures
        1 <= doublings(m) <= 10,
        0x400 <= m * pow2(doublings(m)) < 0x800,
{
    lemma2_to64();
    assert(m * pow2(10) >= 0x400);
    doublings_reach(m, 10);
}

proof fn doublings_reach(m: nat, left: nat)
    requires
        0 < m < 0x800,
        m * pow2(left) >= 0x400,
    ensures
        doublings(m) <= left,
        m < 0x400 ==> doublings(m) >= 1,
        0x400 <= m * pow2(doublings(m)) < 0x800,
    decreases left,
{
    lemma2_to64();
    if m >= 0x400 {
        assert(m * pow2(0) == m);
    } else {
        if left == 0 {
            assert(m * pow2(0) == m);
        }
        let rest = (left - 1) as nat;
        lemma_pow2_adds(1, rest);
        assert((2 * m) * pow2(rest) == m * pow2(left)) by (nonlinear_arith)
            requires
                pow2(left) == 2 * pow2(rest),
        ;
        doublings_reach(2 * m, rest);
        let k = doublings(2 * m);
        lemma_pow2_adds(1, k);
        assert(m * pow2(1 + k) == (2 * m) * pow2(k)) by (nonlinear_arith)
            requires
                pow2(1 + k) == 2 * pow2(k),
        ;
    }
}

/// Decoding keeps the value: the significand and exponent of the result write
/// the same number, for every finite pattern but zero.
pub proof fn decoding_is_exact(bits: nat)
    requires
        bits < 0x1_0000,
        half_exp(bits) != 0x1F,
        half_units(bits) > 0,
    ensures
        ({
            let s = decoded(bits);
            let exp = s / 0x80_0000 % 0x100;
            let fraction = s % 0x80_0000;
            &&& s / 0x8000_0000 == half_sign(bits)
            &&& 103 <= exp <= 142
            &&& (0x80_0000 + fraction) * pow2((exp - 103) as nat) == half_units(bits) * 0x80_0000
        }),
{
    lemma2_to64();
    let sign = half_sign(bits);
    let e = half_exp(bits);
    let f = half_fraction(bits);
    let s = decoded(bits);
    if e > 0 {
        single_splits(sign, e + 112, f * 0x2000);
        lemma_pow2_adds((e - 1) as nat, 10);
        let p = pow2((e - 1) as nat);
        assert((0x80_0000 + f * 0x2000) * (p * 0x400) == ((0x400 + f) * p) * 0x80_0000)
            by (nonlinear_arith);
    } else {
        let k = doublings(f);
        doublings_normalise(f);
        let lead = f * pow2(k);
        single_splits(sign, (113 - k) as nat, ((lead - 0x400) * 0x2000) as nat);
        lemma_pow2_adds(k, (10 - k) as nat);
        let a = pow2(k);
        let b = pow2((10 - k) as nat);
        assert((0x80_0000 + (lead - 0x400) * 0x2000) * b == f * 0x80_0000) by (nonlinear_arith)
            requires
                lead == f * a,
                a * b == 0x400,
        ;
    }
}

proof fn single_splits(sign: nat, exp: nat, fraction: nat)
    requires
        sign <= 1,
        exp < 0x100,
        fraction < 0x80_0000,
    ensures
        single(sign, exp, fraction) / 0x8000_0000 == sign,
        single(sign, exp, fraction) / 0x80_0000 % 0x100 == exp,
        single(sign, exp, fraction) % 0x80_0000 == fraction,
{
}

/// Decode an IEEE 754 binary16 to the bits of a binary32.
pub fn f16_to_f32(bits: u16) -> (r: u32)
    ensures
        r == decoded(bits as nat),
{
    let sign: u32 = bits as u32 / 0x8000;
    let exp: u32 = bits as u32 / 0x400 % 0x20;
    let mant: u32 = bits as u32 % 0x400;
    if exp == 0 {
        if mant == 0 {
            sign * 0x8000_0000
        } else {
            let mut k: u32 = 0;
            let mut m: u32 = mant;
            proof {
                doublings_normalise(mant as nat);
                lemma2_to64();
                assert(mant * pow2(0) == mant);
            }
            while m < 0x400
                invariant
                    0 < m < 0x800,
                    k + doublings(m as nat) == doublings(mant as nat),
                    doublings(mant as nat) <= 10,
                    m == mant * pow2(k as nat),
                decreases 0x800 - m,
            {
                proof {
                    lemma_pow2_adds(1, k as nat);
                    lemma2_to64();
                    assert(mant * pow2((k + 1) as nat) == 2 * (mant * pow2(k as nat)))
                        by (nonlinear_arith)
                        requires
                            pow2((k + 1) as nat) == 2 * pow2(k as nat),
                    ;
                }
                m = m * 2;
                k = k + 1;
            }
            assert(k == doublings(mant as nat));
            sign * 0x8000_0000 + (113 - k) * 0x80_0000 + (m - 0x400) * 0x2000
        }
    } else if exp == 0x1F {
        sign * 0x8000_0000 + 0xFF * 0x80_0000 + mant * 0x2000
    } else {
        sign * 0x8000_0000 + (exp + 112) * 0x80_0000 + mant * 0x2000
    }
}

/// The sign is kept as it is. Behind it zero stays zero, a normal number moves
/// up by thirteen bits and by the difference of the two biases, an infinity
/// stays one, and a NaN keeps its fraction at the top of the longer one.
pub proof fn decoding_moves_the_bits(bits: nat)
    requires
        bits < 0x1_0000,
    ensures
        ({
            let m = bits % 0x8000;
            let r = decoded(bits) % 0x8000_0000;
            &&& decoded(bits) < 0x1_0000_0000
            &&& decoded(bits) / 0x8000_0000 == bits / 0x8000
            &&& m == 0 ==> r == 0
            &&& 0x400 <= m < 0x7C00 ==> r == m * 0x2000 + 0x3800_0000
            &&& m >= 0x7C00 ==> r == 0x7F80_0000 + (m - 0x7C00) * 0x2000
            &&& 0 < m < 0x400 ==> {
                let exp = r / 0x80_0000;
                &&& 103 <= exp <= 112
                &&& (0x80_0000 + r % 0x80_0000) * pow2((exp - 103) as nat) == m * 0x80_0000
            }
        }),
{
    let m = bits % 0x8000;
    assert(half_exp(bits) == m / 0x400);
    assert(half_fraction(bits) == m % 0x400);
    if 0 < m < 0x400 {
        doublings_normalise(m);
        decoding_is_exact(bits);
        let lead = m * pow2(doublings(m));
        single_splits(
            half_sign(bits),
            (113 - doublings(m)) as nat,
            ((lead - 0x400) * 0x2000) as nat,
        );
    }
}

} // verus!
