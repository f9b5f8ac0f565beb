//! The three hues that the interface spends on X, Y and Z, and the neutrals it
//! spends on everything that is not an axis.
//!
//! One source, because several things wear them and have to agree.

use super::Ink;
use vstd::prelude::*;

verus! {

/// X, Y and Z: warm red, green and blue. Muted, because they are drawn over
/// the artwork, several at a time.
pub const AXIS_SRGB: [[u8; 3]; 3] = [[226, 92, 92], [126, 206, 106], [102, 150, 232]];

/// The neutral that the axes fade toward.
pub const NEUTRAL_SRGB: [u8; 3] = [214, 218, 228];

/// A landmark, not a handle, so it gets no hue at all.
pub const REFERENCE_SRGB: [u8; 3] = [168, 170, 178];

/// The hue of an axis; what is past the last axis has the last one's.
pub open spec fn axis(k: int) -> Ink {
    if k <= 0 {
        Ink::of(226, 92, 92)
    } else if k == 1 {
        Ink::of(126, 206, 106)
    } else {
        Ink::of(102, 150, 232)
    }
}

/// The hue of an axis.
pub fn axis_linear(k: usize) -> (i: Ink)
    ensures
        i == axis(k as int),
{
    let n: usize = if k < 2 {
        k
    } else {
        2
    };
    let c = AXIS_SRGB[n];
    Ink::shown(c[0], c[1], c[2])
}

/// The neutral.
pub fn neutral_linear() -> (i: Ink)
    ensures
        i == Ink::of(214, 218, 228),
{
    Ink::shown(NEUTRAL_SRGB[0], NEUTRAL_SRGB[1], NEUTRAL_SRGB[2])
}

/// The landmark's grey.
pub fn reference_linear() -> (i: Ink)
    ensures
        i == Ink::of(168, 170, 178),
{
    Ink::shown(REFERENCE_SRGB[0], REFERENCE_SRGB[1], REFERENCE_SRGB[2])
}

/// The first axis is red, the second green and every further one blue: its own
/// channel leads the others by eighty or more of 255, and all three
/// lead at above four fifths of full.
pub proof fn an_axis_leads_in_its_channel(k: int)
    ensures
        ({
            let c = axis(k);
            let (lead, a, b) = if k <= 0 {
                (c.red, c.green, c.blue)
            } else if k == 1 {
                (c.green, c.red, c.blue)
            } else {
                (c.blue, c.red, c.green)
            };
            &&& lead > 204
            &&& lead - a >= 80
            &&& lead - b >= 80
            &&& c.linear is None
        }),
{
}

} // verus!
