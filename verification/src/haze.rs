//! Atmospheric haze: one amount, and everything else derived from it.
//!
//! Distance costs a point some of its contribution, so that the pixel resolves
//! toward the background, and some of its saturation. Amounts and distances
//! are integers in units of `1 / UNIT`.

use crate::offline::UNIT;
use vstd::prelude::*;

verus! {

/// The least distance that a band is made for: a hundredth.
pub const NEAREST: i64 = 10_000_000;

/// The largest distance that a band is made for.
pub const FARTHEST: i64 = 500_000_000_000_000_000;

/// The share of saturation that survives at full haze, in hundredths.
pub const MIN_SATURATION: i64 = 35;

/// The distance that a band is made for.
pub open spec fn band_distance(distance: int) -> int {
    if distance < NEAREST {
        NEAREST as int
    } else {
        distance
    }
}

/// Where the haze starts and ends for a camera at a distance: the depth that a
/// form occupies when it is framed at 2.4 times its radius, which is five
/// twelfths of the distance either way.
pub open spec fn band(distance: int) -> (int, int) {
    let d = band_distance(distance);
    (d * 7 / 12, d * 17 / 12)
}

/// Where the haze starts and ends for a camera at a distance.
pub fn auto_band(distance: i64) -> (r: (i64, i64))
    requires
        distance <= FARTHEST,
    ensures
        r.0 == band(distance as int).0,
        r.1 == band(distance as int).1,
{
    let d: i64 = if distance < NEAREST {
        NEAREST
    } else {
        distance
    };
    (d * 7 / 12, d * 17 / 12)
}

/// An amount, and not outside nothing and all.
pub open spec fn held(amount: int) -> int {
    if amount < 0 {
        0
    } else if amount > UNIT {
        UNIT as int
    } else {
        amount
    }
}

/// What is left at the far end of the band: of a point's contribution, and of
/// its saturation.
pub open spec fn left(amount: int) -> (int, int) {
    let a = held(amount);
    (UNIT - a, UNIT - (100 - MIN_SATURATION) * a / 100)
}

/// What is left at the far end of the band, of contribution and saturation.
pub fn falloff(amount: i64) -> (r: (i64, i64))
    ensures
        r.0 == left(amount as int).0,
        r.1 == left(amount as int).1,
{
    let unit: i64 = UNIT as i64;
    let a: i64 = if amount < 0 {
        0
    } else if amount > unit {
        unit
    } else {
        amount
    };
    (unit - a, unit - (100 - MIN_SATURATION) * a / 100)
}

/// The amount that leaves so much of the contribution.
pub open spec fn amount_of(brightness: int) -> int {
    held(UNIT - brightness)
}

/// The amount that a view meant which gave what is left instead.
pub fn amount_from_brightness(brightness: i64) -> (a: i64)
    ensures
        a == amount_of(brightness as int),
{
    let unit: i64 = UNIT as i64;
    if brightness > unit {
        0
    } else if brightness < 0 {
        unit
    } else {
        unit - brightness
    }
}

/// An amount is recovered from what it leaves.
pub proof fn an_amount_round_trips(amount: int)
    requires
        0 <= amount <= UNIT,
    ensures
        amount_of(left(amount).0) == amount,
{
}

/// No haze leaves everything, and full haze nothing of the contribution.
pub proof fn the_ends_are_exact()
    ensures
        left(0) == (UNIT as int, UNIT as int),
        left(UNIT as int).0 == 0,
{
}

/// More haze leaves no more of either, and strictly less of the contribution.
pub proof fn more_haze_leaves_less(a: int, b: int)
    requires
        0 <= a < b <= UNIT,
    ensures
        left(b).0 < left(a).0,
        left(b).1 <= left(a).1,
{
}

/// A closer camera has a band that is nearer at both ends, and every band has
/// depth.
pub proof fn the_band_follows_zoom(a: int, b: int)
    requires
        NEAREST <= a < b,
    ensures
        band(a).0 <= band(b).0,
        band(a).1 <= band(b).1,
        band(a).0 < band(a).1,
{
}

/// The band spans the depth of a form that is framed from 2.4 of its radii: it
/// begins one radius before the focus and ends one behind it.
pub proof fn the_band_is_a_radius_either_way(distance: int)
    requires
        100 * distance >= UNIT,
    ensures
        ({
            let (near, far) = band(distance);
            &&& -12 < 12 * (distance - near) - 5 * distance < 12
            &&& -12 < 12 * (far - distance) - 5 * distance < 12
        }),
{
}

/// A camera closer than a hundredth has the band of one that is that far off.
pub proof fn a_close_camera_has_a_band(distance: int)
    requires
        100 * distance < UNIT,
    ensures
        band(distance) == band(UNIT as int / 100),
{
}

/// Haze takes its amount of what a point adds and 65 hundredths of its amount of
/// the colour, both held to all of it.
pub proof fn haze_takes_its_amount(amount: int)
    ensures
        0 <= amount <= UNIT ==> left(amount).0 + amount == UNIT,
        0 <= amount <= UNIT ==> 100 * (UNIT - left(amount).1) <= 65 * amount < 100 * (UNIT - left(
            amount,
        ).1) + 100,
        amount < 0 ==> left(amount) == left(0),
        amount > UNIT ==> left(amount) == left(UNIT as int),
        0 <= amount <= UNIT ==> amount_of(UNIT - amount) == amount,
        amount > UNIT ==> amount_of(amount) == 0,
        amount < 0 ==> amount_of(amount) == UNIT,
{
}

} // verus!
