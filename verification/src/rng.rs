//! Rolls of two seeded generators: one for new flames and palettes, and one
//! for the variants of a flame.

use rand::rngs::StdRng;
use rand::{Rng, RngCore};
use rand_xoshiro::Xoshiro256PlusPlus;
use vstd::prelude::*;

verus! {

/// The outside generator: opaque, and advanced by every roll.
#[verifier::external_type_specification]
#[verifier::external_body]
pub struct ExStdRng(StdRng);

/// `Rng::gen_range` over the numbers below `n`: one of them. Which one is
/// chance, and nothing is claimed of it.
#[verifier::external_body]
pub(crate) fn below(rng: &mut StdRng, n: usize) -> (r: usize)
    requires
        0 < n,
    ensures
        r < n,
{
    rng.gen_range(0..n)
}

/// `Rng::gen_range` over the 32-bit numbers below `n`: one of them. Which one
/// is chance, and nothing is claimed of it.
#[verifier::external_body]
pub(crate) fn one_below(rng: &mut StdRng, n: u32) -> (r: u32)
    requires
        0 < n,
    ensures
        r < n,
{
    rng.gen_range(0..n)
}

/// `RngCore::next_u32`: 32 bits. Which ones is chance, and nothing is claimed
/// of them.
#[verifier::external_body]
pub(crate) fn next(rng: &mut StdRng) -> (r: u32) {
    rng.next_u32()
}

/// The outside generator for variants: opaque, and advanced by every roll.
#[verifier::external_type_specification]
#[verifier::external_body]
pub struct ExXoshiro256PlusPlus(Xoshiro256PlusPlus);

/// `Rng::gen_range` over the numbers below `n`, on the generator for variants:
/// one of them. Which one is chance, and nothing is claimed of it.
#[verifier::external_body]
pub(crate) fn variant_below(rng: &mut Xoshiro256PlusPlus, n: usize) -> (r: usize)
    requires
        0 < n,
    ensures
        r < n,
{
    rng.gen_range(0..n)
}

/// `RngCore::next_u32` on the generator for variants: 32 bits. Which ones is
/// chance, and nothing is claimed of them.
#[verifier::external_body]
pub(crate) fn variant_next(rng: &mut Xoshiro256PlusPlus) -> (r: u32) {
    rng.next_u32()
}

/// How many rolls there are: a roll is a number below it, and stands for that
/// share of a whole.
pub const ROLLS: u32 = 16_777_216;

/// A roll: the high 24 of 32 bits.
pub fn roll(rng: &mut StdRng) -> (r: u32)
    ensures
        r < ROLLS,
{
    next(rng) / 256
}

/// How many places there are between two numbers.
pub const PLACES: i128 = 8_388_608;

/// The number at place `k` between two numbers.
pub open spec fn place(low: int, high: int, k: int) -> int {
    low + k * (high - low) / PLACES as int
}

/// The number that 32 bits choose from `low` on and below `high`, by the high
/// 23 of them.
pub open spec fn chosen(bits: u32, low: int, high: int) -> int {
    place(low, high, bits as int / 512)
}

/// The number that 32 bits choose from `low` on and below `high`.
pub fn choose_between(bits: u32, low: i64, high: i64) -> (r: i64)
    requires
        low < high,
    ensures
        low <= r < high,
        r == chosen(bits, low as int, high as int),
{
    let k: i128 = (bits / 512) as i128;
    let span: i128 = high as i128 - low as i128;
    assert(0 <= k * span <= (PLACES - 1) * span) by (nonlinear_arith)
        requires
            0 <= k <= PLACES - 1,
            span > 0,
    ;
    assert((PLACES - 1) * span <= 8_388_607 * 0x1_0000_0000_0000_0000) by (nonlinear_arith)
        requires
            0 < span <= 0x1_0000_0000_0000_0000,
            PLACES == 8_388_608,
    ;
    let step: i128 = k * span / PLACES;
    assert(0 <= step < span) by (nonlinear_arith)
        requires
            0 <= k * span <= (PLACES - 1) * span,
            step == k * span / 8_388_608,
            span > 0,
            PLACES == 8_388_608,
    ;
    (low as i128 + step) as i64
}

/// A number from `low` on and below `high`.
pub fn between(rng: &mut StdRng, low: i64, high: i64) -> (r: i64)
    requires
        low < high,
    ensures
        low <= r < high,
        exists|bits: u32| r == #[trigger] chosen(bits, low as int, high as int),
{
    let bits: u32 = next(rng);
    choose_between(bits, low, high)
}

/// A roll of the generator for variants.
pub fn variant_roll(rng: &mut Xoshiro256PlusPlus) -> (r: u32)
    ensures
        r < ROLLS,
{
    variant_next(rng) / 256
}

/// A number from `low` on and below `high`, of the generator for variants.
pub fn variant_between(rng: &mut Xoshiro256PlusPlus, low: i64, high: i64) -> (r: i64)
    requires
        low < high,
    ensures
        low <= r < high,
        exists|bits: u32| r == #[trigger] chosen(bits, low as int, high as int),
{
    let bits: u32 = variant_next(rng);
    choose_between(bits, low, high)
}

/// What is chosen between two numbers lies as far between them as the bits do
/// between none and all, in steps of a 2^23rd.
pub proof fn a_choice_is_as_far_between_as_its_bits(bits: u32, low: int, high: int)
    requires
        low < high,
    ensures
        ({
            let r = chosen(bits, low, high);
            &&& low <= r < high
            &&& 8_388_608 * (r - low) <= (bits / 512) * (high - low) < 8_388_608 * (r - low + 1)
        }),
        chosen(0, low, high) == low,
{
    let (k, span) = ((bits / 512) as int, high - low);
    assert(0 <= k <= 8_388_607);
    assert(0 <= k * span <= 8_388_607 * span) by (nonlinear_arith)
        requires
            0 <= k <= 8_388_607,
            span > 0,
    ;
    assert(0 * span == 0);
}

} // verus!
