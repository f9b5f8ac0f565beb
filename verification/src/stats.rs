//! Statistics of a rendered image: luminance, clipping and hue.
//!
//! The hue histogram catches a palette that collapsed onto one colour, which
//! is hard to see in the picture itself.

use vstd::prelude::*;
use crate::num;
use crate::text;

verus! {

/// Relative luminance is counted in units of `1 / LUMINANCE_UNIT`.
pub const LUMINANCE_UNIT: u64 = 2_550_000;

/// Saturation is counted in units of `1 / SATURATION_UNIT`, rounded down.
pub const SATURATION_UNIT: u64 = 1_000_000_000;

/// The number of hue bins.
pub const BINS: usize = 16;

/// What the pixels of an image add up to.
pub struct Tally {
    pub luminance: nat,
    pub max_luminance: nat,
    /// Pixels that are white
    pub clipped: nat,
    /// Pixels that are black or fully transparent
    pub empty: nat,
    /// Pixels with some colour
    pub colored: nat,
    pub saturation: nat,
    /// Coloured pixels by hue
    pub bins: Seq<nat>,
}

/// The larger of two numbers.
pub open spec fn max2(a: int, b: int) -> int {
    if a >= b {
        a
    } else {
        b
    }
}

/// The smaller of two numbers.
pub open spec fn min2(a: int, b: int) -> int {
    if a <= b {
        a
    } else {
        b
    }
}

/// A pixel's relative luminance.
pub open spec fn luminance(r: int, g: int, b: int) -> int {
    2126 * r + 7152 * g + 722 * b
}

/// How far apart a pixel's channels are.
pub open spec fn spread(r: int, g: int, b: int) -> int {
    max2(max2(r, g), b) - min2(min2(r, g), b)
}

/// A pixel has some colour when its channels are more than a twentieth apart.
pub open spec fn is_colored(r: int, g: int, b: int) -> bool {
    20 * spread(r, g, b) > 255
}

/// A hue is worked out in single precision: its numbers are counted in parts of
/// one, so many of them that each holds its significand.
pub const PARTS: u64 = 0x100_0000_0000;

/// Half as many parts.
pub const HALF_PARTS: u64 = 0x80_0000_0000;

/// The parts of a quotient twice as fine that make one hue bin.
pub const BIN_PARTS: u64 = 0x20_0000_0000;

/// A number of parts as single precision holds it.
pub open spec fn fitted(n: int) -> int {
    num::held(n as nat, num::SINGLE as nat) as int
}

/// A quotient in halves, with one more for what is left over: enough to round
/// it by.
pub open spec fn halves(n: int, d: int) -> int {
    2 * (n / d) + (if n % d == 0 {
        0int
    } else {
        1
    })
}

/// A channel as a share of its range.
pub open spec fn channel(v: int) -> int {
    fitted(halves(v * HALF_PARTS, 255))
}

/// How far two channels are apart, as a share of the pixel's spread.
pub open spec fn lead(gap: int, d: int) -> int {
    if fitted(gap) >= d {
        PARTS as int
    } else {
        fitted(halves(fitted(gap) * HALF_PARTS, d))
    }
}

/// A hue in degrees, so many sixths of a turn round and a lead further or less.
pub open spec fn around(sixths: int, gap: int, d: int) -> int {
    fitted(
        60 * fitted(
            if gap >= 0 {
                sixths * PARTS + lead(gap, d)
            } else {
                sixths * PARTS - lead(-gap, d)
            },
        ),
    )
}

/// The hue of three channels in degrees.
pub open spec fn hue(r: int, g: int, b: int) -> int {
    let top = max2(max2(r, g), b);
    let d = fitted(top - min2(min2(r, g), b));
    if top == r {
        if g < b {
            fitted(360 * PARTS - fitted(60 * lead(b - g, d)))
        } else {
            fitted(60 * lead(g - b, d))
        }
    } else if top == g {
        around(2, b - r, d)
    } else {
        around(4, r - g, d)
    }
}

/// The bin of a coloured pixel: sixteen equal bins around the hue circle, in
/// the precision that the hue is worked out in.
pub open spec fn hue_bin(r: int, g: int, b: int) -> int {
    let h = hue(channel(r), channel(g), channel(b));
    min2(fitted(halves(h, 360)) / (BIN_PARTS as int), BINS - 1)
}

/// A coloured pixel's saturation.
pub open spec fn saturation(r: int, g: int, b: int) -> int {
    spread(r, g, b) * SATURATION_UNIT / max2(max2(r, g), b)
}

/// One more for a condition that holds.
pub open spec fn one_if(c: bool) -> nat {
    if c {
        1
    } else {
        0
    }
}

/// A tally with one more pixel in it.
pub open spec fn with_pixel(t: Tally, r: int, g: int, b: int, a: int) -> Tally {
    let c = is_colored(r, g, b);
    let bin = hue_bin(r, g, b);
    Tally {
        luminance: t.luminance + luminance(r, g, b) as nat,
        max_luminance: max2(t.max_luminance as int, luminance(r, g, b)) as nat,
        clipped: t.clipped + one_if(r == 255 && g == 255 && b == 255),
        empty: t.empty + one_if((r == 0 && g == 0 && b == 0) || a == 0),
        colored: t.colored + one_if(c),
        saturation: if c {
            t.saturation + saturation(r, g, b) as nat
        } else {
            t.saturation
        },
        bins: if c {
            t.bins.update(bin, t.bins[bin] + 1)
        } else {
            t.bins
        },
    }
}

/// A tally of no pixels.
pub open spec fn empty_tally() -> Tally {
    Tally {
        luminance: 0,
        max_luminance: 0,
        clipped: 0,
        empty: 0,
        colored: 0,
        saturation: 0,
        bins: Seq::new(BINS as nat, |i: int| 0nat),
    }
}

/// What the first `n` pixels of RGBA data add up to.
pub open spec fn tally(p: Seq<u8>, n: nat) -> Tally
    decreases n,
{
    if n == 0 {
        empty_tally()
    } else {
        let k = 4 * (n - 1);
        with_pixel(
            tally(p, (n - 1) as nat),
            p[k] as int,
            p[k + 1] as int,
            p[k + 2] as int,
            p[k + 3] as int,
        )
    }
}

/// What the pixels of an image add up to.
pub struct ImageStats {
    pub luminance: u64,
    pub max_luminance: u64,
    pub clipped: u64,
    pub empty: u64,
    pub colored: u64,
    pub saturation: u64,
    pub bins: Vec<u64>,
}

/// The numbers of a vector.
pub open spec fn nats(v: Seq<u64>) -> Seq<nat> {
    Seq::new(v.len(), |i: int| v[i] as nat)
}

impl ImageStats {
    pub open spec fn view(&self) -> Tally {
        Tally {
            luminance: self.luminance as nat,
            max_luminance: self.max_luminance as nat,
            clipped: self.clipped as nat,
            empty: self.empty as nat,
            colored: self.colored as nat,
            saturation: self.saturation as nat,
            bins: nats(self.bins@),
        }
    }
}

/// The hue bin of a coloured pixel is one of the sixteen.
pub proof fn hue_bins_are_in_range(r: int, g: int, b: int)
    requires
        0 <= r <= 255,
        0 <= g <= 255,
        0 <= b <= 255,
        is_colored(r, g, b),
    ensures
        0 <= hue_bin(r, g, b) < BINS,
        0 <= saturation(r, g, b) <= SATURATION_UNIT,
{
    let d = spread(r, g, b);
    let m = max2(max2(r, g), b);
    assert(d > 0);
    assert(0 <= d * SATURATION_UNIT / m <= SATURATION_UNIT) by (nonlinear_arith)
        requires
            0 < d <= m,
            SATURATION_UNIT == 1_000_000_000,
    ;
}

fn larger(a: u32, b: u32) -> (m: u32)
    ensures
        m == max2(a as int, b as int),
{
    if a >= b {
        a
    } else {
        b
    }
}

fn smaller(a: u32, b: u32) -> (m: u32)
    ensures
        m == min2(a as int, b as int),
{
    if a <= b {
        a
    } else {
        b
    }
}

proof fn tally_is_bounded(p: Seq<u8>, n: nat)
    requires
        n * 4 <= p.len(),
    ensures
        tally(p, n).luminance <= n * LUMINANCE_UNIT,
        tally(p, n).clipped <= n,
        tally(p, n).empty <= n,
        tally(p, n).colored <= n,
        tally(p, n).saturation <= n * SATURATION_UNIT,
        tally(p, n).bins.len() == BINS,
        tally(p, n).max_luminance <= LUMINANCE_UNIT,
        forall|i: int| 0 <= i < BINS ==> #[trigger] tally(p, n).bins[i] <= n,
    decreases n,
{
    if n > 0 {
        tally_is_bounded(p, (n - 1) as nat);
        let k = 4 * (n - 1);
        let (r, g, b) = (p[k] as int, p[k + 1] as int, p[k + 2] as int);
        if is_colored(r, g, b) {
            hue_bins_are_in_range(r, g, b);
        }
        assert(n * LUMINANCE_UNIT == (n - 1) * LUMINANCE_UNIT + LUMINANCE_UNIT)
            by (nonlinear_arith);
        assert(n * SATURATION_UNIT == (n - 1) * SATURATION_UNIT + SATURATION_UNIT)
            by (nonlinear_arith);
    }
}

/// Room in a tally for one more pixel.
spec fn has_room(t: Tally) -> bool {
    &&& t.luminance <= 0xFFFF_FFFF * LUMINANCE_UNIT
    &&& t.clipped <= 0xFFFF_FFFF
    &&& t.empty <= 0xFFFF_FFFF
    &&& t.colored <= 0xFFFF_FFFF
    &&& t.saturation <= 0xFFFF_FFFF * SATURATION_UNIT
    &&& t.bins.len() == BINS
    &&& forall|i: int| 0 <= i < BINS ==> #[trigger] t.bins[i] <= 0xFFFF_FFFF
}

fn fit(n: u64) -> (r: u64)
    requires
        n <= 0x1000_0000_0000_0000,
    ensures
        r == fitted(n as int),
        r <= 2 * n,
{
    num::held_of(n, num::SINGLE) as u64
}

fn halve(n: u128, d: u64) -> (r: u128)
    requires
        d > 0,
        n <= 0x1000_0000_0000_0000_0000_0000,
    ensures
        r == halves(n as int, d as int),
        r <= 2 * (n as int / d as int) + 1,
{
    let whole: u128 = n / d as u128;
    assert(whole <= n) by (nonlinear_arith)
        requires
            whole == n / d as u128,
            d >= 1,
    ;
    if n % d as u128 == 0 {
        2 * whole
    } else {
        2 * whole + 1
    }
}

fn channel_of(v: u32) -> (c: u64)
    requires
        v <= 255,
    ensures
        c == channel(v as int),
        c <= 2 * PARTS + 2,
{
    assert(v * HALF_PARTS <= 255 * HALF_PARTS) by (nonlinear_arith)
        requires
            v <= 255,
    ;
    fit(halve(v as u128 * HALF_PARTS as u128, 255) as u64)
}

fn lead_of(gap: u64, d: u64) -> (l: u64)
    requires
        gap <= 4 * PARTS,
        d <= 8 * PARTS,
    ensures
        l == lead(gap as int, d as int),
        l <= 2 * PARTS,
{
    let n: u64 = fit(gap);
    if n >= d {
        PARTS
    } else {
        assert(n * HALF_PARTS <= 8 * PARTS * HALF_PARTS) by (nonlinear_arith)
            requires
                n <= 8 * PARTS,
        ;
        assert((n * HALF_PARTS) / d as int <= HALF_PARTS - 1) by (nonlinear_arith)
            requires
                0 <= n < d,
                HALF_PARTS == 0x80_0000_0000,
        ;
        fit(halve(n as u128 * HALF_PARTS as u128, d) as u64)
    }
}

fn around_of(sixths: u64, from: u64, to: u64, d: u64) -> (h: u64)
    requires
        2 <= sixths <= 4,
        from <= 4 * PARTS,
        to <= 4 * PARTS,
        d <= 8 * PARTS,
    ensures
        h == around(sixths as int, to - from, d as int),
        h <= 1440 * PARTS,
{
    let sum: u64 = if to >= from {
        sixths * PARTS + lead_of(to - from, d)
    } else {
        sixths * PARTS - lead_of(from - to, d)
    };
    fit(60 * fit(sum))
}

fn bin_of(red: u32, green: u32, blue: u32) -> (bin: usize)
    requires
        red <= 255,
        green <= 255,
        blue <= 255,
    ensures
        bin == hue_bin(red as int, green as int, blue as int),
{
    let (r, g, b): (u64, u64, u64) = (channel_of(red), channel_of(green), channel_of(blue));
    let most: u64 = if r >= g {
        r
    } else {
        g
    };
    let top: u64 = if most >= b {
        most
    } else {
        b
    };
    let least: u64 = if r <= g {
        r
    } else {
        g
    };
    let low: u64 = if least <= b {
        least
    } else {
        b
    };
    let d: u64 = fit(top - low);
    let h: u64 = if top == r {
        if g < b {
            fit(360 * PARTS - fit(60 * lead_of(b - g, d)))
        } else {
            fit(60 * lead_of(g - b, d))
        }
    } else if top == g {
        around_of(2, r, b, d)
    } else {
        around_of(4, g, r, d)
    };
    assert(h == hue(r as int, g as int, b as int));
    let bin: u64 = fit(halve(h as u128, 360) as u64) / BIN_PARTS;
    if bin < BINS as u64 {
        bin as usize
    } else {
        BINS - 1
    }
}

fn add_color(s: &mut ImageStats, r: u32, g: u32, b: u32, d: u32, top: u32)
    requires
        has_room(old(s)@),
        r <= 255,
        g <= 255,
        b <= 255,
        is_colored(r as int, g as int, b as int),
        d == spread(r as int, g as int, b as int),
        top == max2(max2(r as int, g as int), b as int),
    ensures
        final(s)@ == (Tally {
            colored: old(s)@.colored + 1,
            saturation: old(s)@.saturation + saturation(r as int, g as int, b as int) as nat,
            bins: old(s)@.bins.update(
                hue_bin(r as int, g as int, b as int),
                old(s)@.bins[hue_bin(r as int, g as int, b as int)] + 1,
            ),
            ..old(s)@
        }),
{
    proof {
        hue_bins_are_in_range(r as int, g as int, b as int);
    }
    let ghost before = s@.bins;
    s.colored = s.colored + 1;
    s.saturation = s.saturation + d as u64 * SATURATION_UNIT / top as u64;
    let bin: usize = bin_of(r, g, b);
    let count: u64 = s.bins[bin];
    assert(before[bin as int] == count);
    s.bins.set(bin, count + 1);
    assert(s@.bins =~= before.update(bin as int, before[bin as int] + 1));
}

fn add_pixel(s: &mut ImageStats, r: u32, g: u32, b: u32, a: u32)
    requires
        has_room(old(s)@),
        r <= 255,
        g <= 255,
        b <= 255,
        a <= 255,
    ensures
        final(s)@ == with_pixel(old(s)@, r as int, g as int, b as int, a as int),
{
    let top: u32 = larger(larger(r, g), b);
    let d: u32 = top - smaller(smaller(r, g), b);
    if 20 * d > 255 {
        add_color(s, r, g, b, d, top);
    }
    let l: u64 = (2126 * r + 7152 * g + 722 * b) as u64;
    s.luminance = s.luminance + l;
    if l > s.max_luminance {
        s.max_luminance = l;
    }
    if r == 255 && g == 255 && b == 255 {
        s.clipped = s.clipped + 1;
    }
    if (r == 0 && g == 0 && b == 0) || a == 0 {
        s.empty = s.empty + 1;
    }
}

/// Add up the pixels of RGBA data.
pub fn measure(pixels: &Vec<u8>) -> (s: ImageStats)
    requires
        pixels.len() % 4 == 0,
        pixels.len() / 4 <= u32::MAX,
    ensures
        s@ == tally(pixels@, (pixels.len() / 4) as nat),
{
    let mut s = ImageStats {
        luminance: 0,
        max_luminance: 0,
        clipped: 0,
        empty: 0,
        colored: 0,
        saturation: 0,
        bins: vec![0u64; BINS],
    };
    let n: usize = pixels.len() / 4;
    let mut i: usize = 0;
    assert(s@.bins =~= empty_tally().bins);
    while i < n
        invariant
            i <= n,
            n * 4 == pixels.len(),
            n <= u32::MAX,
            s@ == tally(pixels@, i as nat),
        decreases n - i,
    {
        proof {
            tally_is_bounded(pixels@, i as nat);
            assert(i * LUMINANCE_UNIT <= 0xFFFF_FFFF * LUMINANCE_UNIT) by (nonlinear_arith)
                requires
                    i <= 0xFFFF_FFFF,
            ;
            assert(i * SATURATION_UNIT <= 0xFFFF_FFFF * SATURATION_UNIT) by (nonlinear_arith)
                requires
                    i <= 0xFFFF_FFFF,
            ;
        }
        add_pixel(
            &mut s,
            pixels[4 * i] as u32,
            pixels[4 * i + 1] as u32,
            pixels[4 * i + 2] as u32,
            pixels[4 * i + 3] as u32,
        );
        i += 1;
    }
    s
}

/// The largest of several numbers, zero if there are none.
pub open spec fn largest(v: Seq<nat>) -> nat
    decreases v.len(),
{
    if v.len() == 0 {
        0
    } else {
        max2(largest(v.drop_last()) as int, v.last() as int) as nat
    }
}

/// How many bins hold more than `limit` pixels.
pub open spec fn bins_over(v: Seq<nat>, limit: nat) -> nat
    decreases v.len(),
{
    if v.len() == 0 {
        0
    } else {
        bins_over(v.drop_last(), limit) + one_if(v.last() > limit)
    }
}

/// The bar for an eighth of `0..=7`.
pub open spec fn bar(level: int) -> char {
    (0x2581 + level) as char
}

/// The bins as a row of bars, the fullest at full height.
pub open spec fn sparkline(v: Seq<nat>, top: nat) -> Seq<char> {
    Seq::new(v.len(), |i: int| bar((v[i] * 7 / top) as int))
}

/// A share of the image in per cent, to one place, five characters wide.
pub open spec fn percent_text(part: nat, total: nat) -> Seq<char> {
    text::padded_left(num::share_text(part, total), 5)
}

/// The part of the report on luminance.
pub open spec fn luminance_text(t: Tally, total: nat) -> Seq<char> {
    "\nlumin    mean "@ + text::ratio_text(t.luminance, total * LUMINANCE_UNIT as nat, 3)
        + "   max "@ + text::ratio_text(t.max_luminance, LUMINANCE_UNIT as nat, 3)
        + "\n         clipped "@ + percent_text(t.clipped, total) + "%   empty "@ + percent_text(
        t.empty,
        total,
    ) + "%\n"@ + if t.clipped * 100 > 5 * total {
        "         note: >5% clipped \u{2014} consider lowering exposure\n"@
    } else {
        ""@
    } + if t.empty * 100 > 80 * total {
        "         note: >80% empty \u{2014} attractor may be too small in frame\n"@
    } else {
        ""@
    }
}

/// Whether nearly all colour sits in one or two bins.
pub open spec fn looks_monochrome(t: Tally, total: nat) -> bool {
    bins_over(t.bins, largest(t.bins) / 4) <= 2 && t.colored * 10 > total
}

/// The note on a palette that may have collapsed.
pub open spec fn monochrome_text(t: Tally, total: nat) -> Seq<char> {
    if looks_monochrome(t, total) {
        let n = bins_over(t.bins, largest(t.bins) / 4);
        "         note: color concentrated in "@ + text::decimal(n) + " bin"@ + if n == 1 {
            ""@
        } else {
            "s"@
        } + " \u{2014} may be monochrome trap\n"@
    } else {
        ""@
    }
}

/// The part of the report on colour.
pub open spec fn color_text(t: Tally, total: nat) -> Seq<char> {
    if t.colored > 0 {
        "\ncolor    mean saturation "@ + text::ratio_text(
            t.saturation,
            t.colored * SATURATION_UNIT as nat,
            2,
        ) + "   colored pixels "@ + percent_text(t.colored, total) + "%\n"@ + (if largest(t.bins)
            > 0 {
            monochrome_text(t, total) + "         hue histogram: "@ + sparkline(
                t.bins,
                largest(t.bins),
            ) + "\n                        R Y  G  C B  M\n"@
        } else {
            ""@
        })
    } else {
        "\ncolor    no saturated pixels (grayscale or empty)\n"@
    }
}

/// The report on an image of `width` by `height` pixels.
pub open spec fn report_text(path: Seq<char>, width: nat, height: nat, t: Tally) -> Seq<char> {
    let total = width * height;
    "stats    "@ + path + "\n         "@ + text::decimal(width) + "x"@ + text::decimal(height)
        + " ("@ + num::float_text(total, 1_000_000, num::DOUBLE as nat, 1) + "M pixels)\n"@ + luminance_text(t, total)
        + color_text(t, total)
}

fn push_percent(out: &mut String, part: u64, total: u64)
    requires
        0 < total,
        part <= total,
    ensures
        final(out)@ == old(out)@ + percent_text(part as nat, total as nat),
{
    let mut s = String::new();
    num::push_share(&mut s, part, total);
    assert(s@ =~= num::share_text(part as nat, total as nat));
    text::push_padded_left(out, s.as_str(), 5);
}

fn push_luminance(out: &mut String, s: &ImageStats, total: u64)
    requires
        0 < total <= 0x1_0000_0000,
        s.clipped <= total,
        s.empty <= total,
        s.max_luminance <= LUMINANCE_UNIT,
    ensures
        final(out)@ == old(out)@ + luminance_text(s@, total as nat),
{
    assert(text::pow10(3) == 1000) by {
        reveal_with_fuel(text::pow10, 4);
    }
    out.append("\nlumin    mean ");
    text::push_ratio(out, s.luminance as u128, total as u128 * LUMINANCE_UNIT as u128, 3);
    out.append("   max ");
    text::push_ratio(out, s.max_luminance as u128, LUMINANCE_UNIT as u128, 3);
    out.append("\n         clipped ");
    push_percent(out, s.clipped, total);
    out.append("%   empty ");
    push_percent(out, s.empty, total);
    out.append("%\n");
    if s.clipped * 100 > 5 * total {
        out.append("         note: >5% clipped \u{2014} consider lowering exposure\n");
    } else {
        out.append("");
    }
    if s.empty * 100 > 80 * total {
        out.append("         note: >80% empty \u{2014} attractor may be too small in frame\n");
    } else {
        out.append("");
    }
    assert(out@ =~= old(out)@ + luminance_text(s@, total as nat));
}

fn largest_bin(v: &Vec<u64>) -> (m: u64)
    ensures
        m == largest(nats(v@)),
{
    let mut m: u64 = 0;
    let mut i: usize = 0;
    while i < v.len()
        invariant
            i <= v.len(),
            m == largest(nats(v@).take(i as int)),
        decreases v.len() - i,
    {
        assert(nats(v@).take(i + 1).drop_last() =~= nats(v@).take(i as int));
        if v[i] > m {
            m = v[i];
        }
        i += 1;
    }
    assert(nats(v@).take(i as int) =~= nats(v@));
    m
}

fn count_over(v: &Vec<u64>, limit: u64) -> (n: usize)
    ensures
        n == bins_over(nats(v@), limit as nat),
        n <= v.len(),
{
    let mut n: usize = 0;
    let mut i: usize = 0;
    while i < v.len()
        invariant
            i <= v.len(),
            n <= i,
            n == bins_over(nats(v@).take(i as int), limit as nat),
        decreases v.len() - i,
    {
        assert(nats(v@).take(i + 1).drop_last() =~= nats(v@).take(i as int));
        if v[i] > limit {
            n = n + 1;
        }
        i += 1;
    }
    assert(nats(v@).take(i as int) =~= nats(v@));
    n
}

fn bar_of(level: u64) -> (c: char)
    requires
        level <= 7,
    ensures
        c == bar(level as int),
{
    if level == 0 {
        '\u{2581}'
    } else if level == 1 {
        '\u{2582}'
    } else if level == 2 {
        '\u{2583}'
    } else if level == 3 {
        '\u{2584}'
    } else if level == 4 {
        '\u{2585}'
    } else if level == 5 {
        '\u{2586}'
    } else if level == 6 {
        '\u{2587}'
    } else {
        '\u{2588}'
    }
}

proof fn largest_bounds(v: Seq<nat>, i: int)
    requires
        0 <= i < v.len(),
    ensures
        v[i] <= largest(v),
    decreases v.len(),
{
    if i < v.len() - 1 {
        largest_bounds(v.drop_last(), i);
    }
}

fn push_sparkline(out: &mut String, v: &Vec<u64>, top: u64)
    requires
        top == largest(nats(v@)),
        0 < top <= 0x1_0000_0000,
    ensures
        final(out)@ == old(out)@ + sparkline(nats(v@), top as nat),
{
    let ghost all = nats(v@);
    let ghost line = sparkline(all, top as nat);
    let mut i: usize = 0;
    while i < v.len()
        invariant
            i <= v.len(),
            all == nats(v@),
            line == sparkline(all, top as nat),
            top == largest(all),
            0 < top <= 0x1_0000_0000,
            out@ == old(out)@ + line.take(i as int),
        decreases v.len() - i,
    {
        proof {
            largest_bounds(all, i as int);
            assert(all[i as int] * 7 / (top as nat) <= 7) by (nonlinear_arith)
                requires
                    all[i as int] <= top,
                    0 < top,
            ;
        }
        let c = bar_of(v[i] * 7 / top);
        assert(line[i as int] == c);
        out.push(c);
        i += 1;
        assert(out@ =~= old(out)@ + line.take(i as int));
    }
    assert(line.take(i as int) =~= line);
}

fn push_monochrome(out: &mut String, s: &ImageStats, total: u64, top: u64)
    requires
        s.colored <= 0x1_0000_0000,
        top == largest(s@.bins),
    ensures
        final(out)@ == old(out)@ + monochrome_text(s@, total as nat),
{
    let peaks: usize = count_over(&s.bins, top / 4);
    if peaks <= 2 && s.colored * 10 > total {
        out.append("         note: color concentrated in ");
        text::push_decimal(out, peaks as u128);
        out.append(" bin");
        if peaks == 1 {
            out.append("");
        } else {
            out.append("s");
        }
        out.append(" \u{2014} may be monochrome trap\n");
    } else {
        out.append("");
    }
    assert(out@ =~= old(out)@ + monochrome_text(s@, total as nat));
}

fn push_color(out: &mut String, s: &ImageStats, total: u64)
    requires
        0 < total <= 0x1_0000_0000,
        s.colored <= total,
        forall|i: int| 0 <= i < s@.bins.len() ==> #[trigger] s@.bins[i] <= 0x1_0000_0000,
    ensures
        final(out)@ == old(out)@ + color_text(s@, total as nat),
{
    if s.colored > 0 {
        assert(text::pow10(2) == 100) by {
            reveal_with_fuel(text::pow10, 3);
        }
        out.append("\ncolor    mean saturation ");
        let unit: u128 = SATURATION_UNIT as u128;
        assert(unit == 1_000_000_000);
        let whole: u128 = s.colored as u128 * unit;
        assert(whole > 0) by (nonlinear_arith)
            requires
                whole == s.colored * unit,
                s.colored > 0,
                unit > 0,
        ;
        text::push_ratio(out, s.saturation as u128, whole, 2);
        out.append("   colored pixels ");
        push_percent(out, s.colored, total);
        out.append("%\n");
        let top: u64 = largest_bin(&s.bins);
        if top > 0 {
            proof {
                largest_is_some_bin(s@.bins);
            }
            push_monochrome(out, s, total, top);
            out.append("         hue histogram: ");
            push_sparkline(out, &s.bins, top);
            out.append("\n                        R Y  G  C B  M\n");
        } else {
            out.append("");
        }
    } else {
        out.append("\ncolor    no saturated pixels (grayscale or empty)\n");
    }
    assert(out@ =~= old(out)@ + color_text(s@, total as nat));
}

proof fn largest_is_some_bin(v: Seq<nat>)
    ensures
        largest(v) == 0 || exists|i: int| 0 <= i < v.len() && #[trigger] v[i] == largest(v),
    decreases v.len(),
{
    if v.len() > 0 {
        largest_is_some_bin(v.drop_last());
        if largest(v) == v.last() {
            assert(v[v.len() - 1] == largest(v));
        } else if largest(v) > 0 {
            let i = choose|i: int|
                0 <= i < v.drop_last().len() && #[trigger] v.drop_last()[i] == largest(
                    v.drop_last(),
                );
            assert(v[i] == largest(v));
        }
    }
}

/// Report on an image: its luminance, its clipping and its colours. An image
/// without pixels has nothing to report.
pub fn print_image_stats(path: &str, width: u32, height: u32, pixels: &Vec<u8>) -> (r: Result<
    String,
    String,
>)
    requires
        width * height <= u32::MAX,
        pixels.len() == width * height * 4,
    ensures
        r is Err <==> width * height == 0,
        r is Err ==> r->Err_0@ == "Image has zero pixels"@,
        r is Ok ==> r->Ok_0@ == report_text(
            path@,
            width as nat,
            height as nat,
            tally(pixels@, (width * height) as nat),
        ),
{
    let total: u64 = (width * height) as u64;
    if total == 0 {
        return Err("Image has zero pixels".to_owned());
    }
    let s = measure(pixels);
    proof {
        tally_is_bounded(pixels@, total as nat);
    }
    let mut out = String::new();
    out.append("stats    ");
    out.append(path);
    out.append("\n         ");
    text::push_decimal(&mut out, width as u128);
    out.append("x");
    text::push_decimal(&mut out, height as u128);
    out.append(" (");
    num::push_float(&mut out, total as u128, 1_000_000, num::DOUBLE, 1);
    out.append("M pixels)\n");
    push_luminance(&mut out, &s, total);
    push_color(&mut out, &s, total);
    assert(out@ =~= report_text(path@, width as nat, height as nat, s@));
    Ok(out)
}

// ---- what is counted --------------------------------------------------------

/// One pixel more adds its brightness, as it is weighed for the eye, counts as
/// clipped where it is white and as empty where it is black or clear, and goes
/// into one bin where its channels are more than a twentieth apart.
pub proof fn a_pixel_counts_once(p: Seq<u8>, n: nat)
    requires
        4 * (n + 1) <= p.len(),
    ensures
        ({
            let (s, t) = (tally(p, n), tally(p, n + 1));
            let k = 4 * n as int;
            let (r, g, b, a) = (p[k] as int, p[k + 1] as int, p[k + 2] as int, p[k + 3] as int);
            let apart = max2(max2(r, g), b) - min2(min2(r, g), b);
            &&& t.luminance - s.luminance == 2126 * r + 7152 * g + 722 * b
            &&& t.max_luminance >= s.max_luminance && t.max_luminance >= 2126 * r + 7152 * g + 722
                * b
            &&& t.max_luminance == s.max_luminance || t.max_luminance == 2126 * r + 7152 * g + 722
                * b
            &&& t.clipped - s.clipped == if r + g + b == 765 {
                1int
            } else {
                0
            }
            &&& t.empty - s.empty == if r + g + b == 0 || a == 0 {
                1int
            } else {
                0
            }
            &&& t.colored - s.colored == if 20 * apart > 255 {
                1int
            } else {
                0
            }
            &&& 20 * apart <= 255 ==> t.saturation == s.saturation && t.bins == s.bins
            &&& 20 * apart > 255 ==> {
                let (more, top) = (t.saturation - s.saturation, max2(max2(r, g), b));
                more * top <= apart * 1_000_000_000 < (more + 1) * top
            }
        }),
{
    let t = tally(p, n);
    let k = 4 * n as int;
    let (r, g, b) = (p[k] as int, p[k + 1] as int, p[k + 2] as int);
    assert(tally(p, n + 1) == with_pixel(t, r, g, b, p[k + 3] as int));
    if is_colored(r, g, b) {
        hue_bins_are_in_range(r, g, b);
        let (x, top) = (spread(r, g, b) * SATURATION_UNIT, max2(max2(r, g), b));
        let q = x / top;
        assert(q * top <= x < (q + 1) * top) by (nonlinear_arith)
            requires
                q == x / top,
                top > 0,
        ;
    }
}

/// The sum of the first bins.
pub open spec fn bin_sum(v: Seq<nat>, n: nat) -> nat
    decreases n,
{
    if n == 0 {
        0
    } else {
        bin_sum(v, (n - 1) as nat) + v[n - 1]
    }
}

proof fn one_bin_grows(v: Seq<nat>, i: int, n: nat)
    requires
        0 <= i < v.len(),
        n <= v.len(),
    ensures
        bin_sum(v.update(i, v[i] + 1), n) == bin_sum(v, n) + if i < n {
            1nat
        } else {
            0
        },
    decreases n,
{
    if n > 0 {
        one_bin_grows(v, i, (n - 1) as nat);
    }
}

proof fn no_bin_is_empty(n: nat)
    requires
        n <= BINS,
    ensures
        bin_sum(empty_tally().bins, n) == 0,
    decreases n,
{
    if n > 0 {
        no_bin_is_empty((n - 1) as nat);
    }
}

/// Every coloured pixel is in one bin: the bins add up to them.
pub proof fn bins_hold_every_coloured_pixel(p: Seq<u8>, n: nat)
    requires
        4 * n <= p.len(),
    ensures
        tally(p, n).bins.len() == 16,
        bin_sum(tally(p, n).bins, 16) == tally(p, n).colored,
    decreases n,
{
    if n == 0 {
        no_bin_is_empty(16);
    } else {
        let m = (n - 1) as nat;
        bins_hold_every_coloured_pixel(p, m);
        let k = 4 * m as int;
        let (r, g, b) = (p[k] as int, p[k + 1] as int, p[k + 2] as int);
        if is_colored(r, g, b) {
            hue_bins_are_in_range(r, g, b);
            one_bin_grows(tally(p, m).bins, hue_bin(r, g, b), 16);
        }
    }
}

/// The largest bin is as large as any, and is one of them.
pub proof fn the_largest_is_one_of_them(v: Seq<nat>)
    ensures
        forall|i: int| 0 <= i < v.len() ==> (#[trigger] v[i]) <= largest(v),
        v.len() > 0 ==> exists|i: int| 0 <= i < v.len() && (#[trigger] v[i]) == largest(v),
    decreases v.len(),
{
    if v.len() > 0 {
        let front = v.drop_last();
        the_largest_is_one_of_them(front);
        assert forall|i: int| 0 <= i < v.len() implies (#[trigger] v[i]) <= largest(v) by {
            if i < front.len() {
                assert(front[i] == v[i]);
            }
        }
        if largest(v) == v.last() {
            assert(v[v.len() - 1] == largest(v));
        } else {
            let i = choose|i: int| 0 <= i < front.len() && (#[trigger] front[i]) == largest(front);
            assert(v[i] == largest(v));
        }
    }
}

/// A bar stands as many sevenths high as its bin is of the largest.
pub proof fn a_bar_is_its_share_of_the_largest(v: Seq<nat>, i: int)
    requires
        0 <= i < v.len(),
        0 < largest(v),
    ensures
        ({
            let level = sparkline(v, largest(v))[i] as int - 0x2581;
            &&& 0 <= level <= 7
            &&& level * largest(v) <= 7 * v[i] < (level + 1) * largest(v)
        }),
{
    the_largest_is_one_of_them(v);
    let (x, top) = (v[i], largest(v));
    let q = x * 7 / top;
    assert(q * top <= 7 * x < (q + 1) * top && 0 <= q <= 7) by (nonlinear_arith)
        requires
            q == x * 7 / top,
            0 <= x <= top,
            top > 0,
    ;
}

/// Something is said of a picture where more than a twentieth of it is clipped,
/// and where more than four fifths of it are empty.
pub proof fn a_note_is_given_past_its_limit(t: Tally, total: nat)
    ensures
        ({
            let s = luminance_text(t, total);
            let n = s.len();
            &&& n >= 3
            &&& s[n - 2] == '%' <==> 20 * t.clipped <= total && 5 * t.empty <= 4 * total
            &&& s[n - 3] == 'm' <==> 5 * t.empty > 4 * total
            &&& 20 * t.clipped > total && 5 * t.empty <= 4 * total ==> s[n - 3] == 'r'
        }),
        ({
            let s = luminance_text(t, total);
            let n = s.len();
            5 * t.empty > 4 * total ==> n >= 66 && (s[n - 66] == '%' <==> 20 * t.clipped <= total)
        }),
{
    reveal_strlit("         note: >5% clipped \u{2014} consider lowering exposure\n");
    reveal_strlit("         note: >80% empty \u{2014} attractor may be too small in frame\n");
    reveal_strlit("%\n");
    reveal_strlit("");
}

/// Bins are counted one by one, and a picture looks monochrome where no more than
/// two of them hold over a quarter of what the largest does and more than a tenth
/// of it has colour.
pub proof fn crowded_bins_are_counted(v: Seq<nat>, x: nat, limit: nat, t: Tally, total: nat)
    ensures
        bins_over(Seq::empty(), limit) == 0,
        bins_over(v.push(x), limit) == bins_over(v, limit) + if x > limit {
            1int
        } else {
            0
        },
        looks_monochrome(t, total) <==> bins_over(t.bins, largest(t.bins) / 4) < 3 && 10 * t.colored
            > total,
{
    assert(v.push(x).drop_last() =~= v);
}

// ---- where a hue stands -----------------------------------------------------

proof fn what_fits_is_close(n: int)
    requires
        0 <= n,
    ensures
        0 <= fitted(n),
        -n <= 16_777_216 * (fitted(n) - n) <= n,
{
    let half = num::SINGLE as nat;
    num::what_is_held_is_within_half_a_step(n as nat, half);
    let step = num::step_at(n as nat, half) as int;
    if n >= 16_777_216 {
        if step <= 1 {
            assert(2 * half * step <= 16_777_216) by (nonlinear_arith)
                requires
                    half == 8_388_608,
                    step <= 1,
            ;
        }
        assert(half * step == 8_388_608 * step);
    }
}

proof fn halves_are_close(n: int, d: int)
    requires
        0 <= n,
        0 < d,
    ensures
        0 <= halves(n, d),
        2 * n - 2 * d < halves(n, d) * d <= 2 * n + d,
{
    let (q, h) = (n / d, halves(n, d));
    assert(q * d <= n < q * d + d && q >= 0) by (nonlinear_arith)
        requires
            q == n / d,
            0 <= n,
            0 < d,
    ;
    assert((2 * q) * d == 2 * (q * d) && (2 * q + 1) * d == 2 * (q * d) + d) by (nonlinear_arith);
    assert(h == 2 * q || h == 2 * q + 1);
}

/// A channel is its byte's share of the whole range, to two hundred-thousandths
/// of one byte.
pub proof fn channels_are_shares(v: int)
    requires
        0 <= v <= 255,
    ensures
        0 <= channel(v) <= 0x100_0000_0000 + 100_000,
        -20_000_000 <= channel(v) * 255 - v * 0x100_0000_0000 <= 20_000_000,
{
    halves_are_close(v * HALF_PARTS, 255);
    what_fits_is_close(halves(v * HALF_PARTS, 255));
}

proof fn a_lead_is_a_share(gap: int, apart: int)
    requires
        0 <= gap <= apart,
        0 < apart <= 0x200_0000_0000,
    ensures
        ({
            let l = lead(gap, fitted(apart));
            &&& 0 <= l <= 0x100_0000_0000 + 100_000
            &&& -200_000 * apart <= l * apart - gap * 0x100_0000_0000 <= 200_000 * apart
        }),
{
    what_fits_is_close(gap);
    what_fits_is_close(apart);
    let (x, d) = (fitted(gap), fitted(apart));
    let l = lead(gap, d);
    if x >= d {
        assert(l * apart == 0x100_0000_0000 * apart);
    } else {
        let n = x * HALF_PARTS;
        let h = halves(n, d);
        halves_are_close(n, d);
        what_fits_is_close(h);
        assert(h <= 0x100_0000_0000 + 1) by (nonlinear_arith)
            requires
                h * d <= 2 * n + d,
                2 * n == 0x100_0000_0000 * x,
                0 <= x < d,
        ;
        parts_of_a_lead(l, h, x, d, gap, apart);
    }
}

proof fn parts_of_a_lead(l: int, h: int, x: int, d: int, gap: int, apart: int)
    requires
        0 <= gap <= apart,
        0 < apart,
        0 <= h <= 0x100_0000_0000 + 1,
        -h <= 16_777_216 * (l - h) <= h,
        -gap <= 16_777_216 * (x - gap) <= gap,
        -apart <= 16_777_216 * (d - apart) <= apart,
        0x100_0000_0000 * x - 2 * d <= h * d <= 0x100_0000_0000 * x + d,
        0 <= d,
    ensures
        -200_000 * apart <= l * apart - gap * 0x100_0000_0000 <= 200_000 * apart,
{
    assert(-65_537 <= l - h <= 65_537);
    assert(-65_537 * apart <= (l - h) * apart <= 65_537 * apart) by (nonlinear_arith)
        requires
            -65_537 <= l - h <= 65_537,
            0 < apart,
    ;
    let e = d - apart;
    assert(-65_537 * apart <= h * e <= 65_537 * apart) by (nonlinear_arith)
        requires
            0 <= h <= 0x100_0000_0000 + 1,
            -apart <= 16_777_216 * e <= apart,
            0 < apart,
    ;
    assert(l * apart == (l - h) * apart + h * apart && h * d == h * apart + h * e)
        by (nonlinear_arith)
        requires
            e == d - apart,
    ;
}

proof fn a_turn_is_close(hue: int, near: int, s: int, l: int, gap: int, apart: int)
    requires
        0 < apart,
        hue - near <= 70_000_000,
        near - hue <= 70_000_000,
        near == 60 * (s * 0x100_0000_0000 + l),
        -200_000 * apart <= l * apart - gap * 0x100_0000_0000 <= 200_000 * apart,
    ensures
        -100_000_000 * apart <= hue * apart - 60 * 0x100_0000_0000 * (s * apart + gap)
            <= 100_000_000 * apart,
{
    let off = hue - near;
    assert(-70_000_000 * apart <= off * apart <= 70_000_000 * apart) by (nonlinear_arith)
        requires
            -70_000_000 <= off <= 70_000_000,
            0 < apart,
    ;
    let whole = s * apart;
    assert(hue * apart == off * apart + 60 * (0x100_0000_0000 * whole + l * apart))
        by (nonlinear_arith)
        requires
            whole == s * apart,
            hue == off + 60 * (s * 0x100_0000_0000 + l),
    ;
    assert(60 * 0x100_0000_0000 * (whole + gap) == 60 * (0x100_0000_0000 * whole) + 60 * (gap
        * 0x100_0000_0000)) by (nonlinear_arith);
}

proof fn a_hue_around_is_close(s: int, gap: int, apart: int)
    requires
        s == 2 || s == 4,
        -apart <= gap <= apart,
        0 < apart <= 0x200_0000_0000,
    ensures
        ({
            let h = around(s, gap, fitted(apart));
            -100_000_000 * apart <= h * apart - 60 * 0x100_0000_0000 * (s * apart + gap)
                <= 100_000_000 * apart
        }),
{
    let d = fitted(apart);
    let size = if gap >= 0 {
        gap
    } else {
        -gap
    };
    a_lead_is_a_share(size, apart);
    let l = lead(size, d);
    let signed = if gap >= 0 {
        l
    } else {
        -l
    };
    let sum = s * PARTS + signed;
    assert((-l) * apart == -(l * apart)) by (nonlinear_arith);
    what_fits_is_close(sum);
    what_fits_is_close(60 * fitted(sum));
    a_turn_is_close(around(s, gap, d), 60 * sum, s, signed, gap, apart);
}

/// A hue stands where its channels put it, to a ten-thousandth of a degree:
/// red, green and blue are a third of a turn from each other, a pixel's hue is
/// its largest channel's, and from there it goes on by a sixth of a turn toward
/// the larger of the other two, by as much of it as that one is ahead of the
/// last, measured by how far apart the largest and the smallest are.
pub proof fn a_hue_is_where_its_channels_stand(r: int, g: int, b: int, top: int, low: int)
    requires
        0 <= r <= 0x200_0000_0000,
        0 <= g <= 0x200_0000_0000,
        0 <= b <= 0x200_0000_0000,
        r <= top && g <= top && b <= top,
        low <= r && low <= g && low <= b,
        top == r || top == g || top == b,
        low == r || low == g || low == b,
        low < top,
    ensures
        ({
            let h = hue(r, g, b);
            let apart = top - low;
            let off = |sixths: int, gap: int|
                h * apart - 60 * 0x100_0000_0000 * (sixths * apart + gap);
            let within = |v: int| -100_000_000 * apart <= v <= 100_000_000 * apart;
            if top == r {
                within(
                    off(
                        if g < b {
                            6
                        } else {
                            0
                        },
                        g - b,
                    ),
                )
            } else if top == g {
                within(off(2, b - r))
            } else {
                within(off(4, r - g))
            }
        }),
{
    let apart = top - low;
    let d = fitted(apart);
    assert(top == max2(max2(r, g), b));
    assert(low == min2(min2(r, g), b));
    if top == r {
        if g < b {
            a_lead_is_a_share(b - g, apart);
            let l = lead(b - g, d);
            what_fits_is_close(60 * l);
            what_fits_is_close(360 * PARTS - fitted(60 * l));
            assert((-l) * apart == -(l * apart)) by (nonlinear_arith);
            a_turn_is_close(
                hue(r, g, b),
                60 * (6 * 0x100_0000_0000 + (-l)),
                6,
                -l,
                g - b,
                apart,
            );
        } else {
            a_lead_is_a_share(g - b, apart);
            let l = lead(g - b, d);
            what_fits_is_close(60 * l);
            a_turn_is_close(hue(r, g, b), 60 * (0 * 0x100_0000_0000 + l), 0, l, g - b, apart);
        }
    } else if top == g {
        a_hue_around_is_close(2, b - r, apart);
    } else {
        a_hue_around_is_close(4, r - g, apart);
    }
}

proof fn a_hue_is_within_two_turns(r: int, g: int, b: int)
    requires
        0 <= r <= 0x200_0000_0000,
        0 <= g <= 0x200_0000_0000,
        0 <= b <= 0x200_0000_0000,
    ensures
        0 <= hue(r, g, b) <= 720 * 0x100_0000_0000,
{
    let (top, low) = (max2(max2(r, g), b), min2(min2(r, g), b));
    let h = hue(r, g, b);
    let apart = top - low;
    if apart > 0 {
        a_hue_is_where_its_channels_stand(r, g, b, top, low);
        let (s, gap) = if top == r {
            (
                if g < b {
                    6int
                } else {
                    0
                },
                g - b,
            )
        } else if top == g {
            (2int, b - r)
        } else {
            (4int, r - g)
        };
        assert(h <= 720 * 0x100_0000_0000) by (nonlinear_arith)
            requires
                h * apart - 60 * 0x100_0000_0000 * (s * apart + gap) <= 100_000_000 * apart,
                s <= 6,
                gap <= apart,
                0 < apart,
        ;
    } else {
        what_fits_is_close(0);
        what_fits_is_close(60 * lead(0, fitted(0)));
    }
}

/// The sixteen bins divide the turn evenly: a pixel's bin is the sixteenth of a
/// turn that the hue of its channels is in, to a ten-thousandth of a degree,
/// and the last bin takes what is past it.
pub proof fn bins_divide_the_turn(r: int, g: int, b: int)
    requires
        0 <= r <= 255,
        0 <= g <= 255,
        0 <= b <= 255,
    ensures
        ({
            let h = hue(channel(r), channel(g), channel(b));
            let k = hue_bin(r, g, b);
            &&& 0 <= k <= 15
            &&& 16 * h + 1_600_000_000 >= 360 * (k * 0x100_0000_0000)
            &&& k < 15 ==> 16 * h - 1_600_000_000 < 360 * ((k + 1) * 0x100_0000_0000)
        }),
{
    let h = hue(channel(r), channel(g), channel(b));
    channels_are_shares(r);
    channels_are_shares(g);
    channels_are_shares(b);
    a_hue_is_within_two_turns(channel(r), channel(g), channel(b));
    halves_are_close(h, 360);
    let t = halves(h, 360);
    what_fits_is_close(t);
    let k = fitted(t) / (BIN_PARTS as int);
    assert(0x20_0000_0000 * k <= fitted(t) < 0x20_0000_0000 * (k + 1));
}

} // verus!
