//! Rendering through the persistent histogram: how many laps of the point
//! buffer a sample target takes, and what a lap adds.

use vstd::prelude::*;
#[allow(unused_imports)]
use vstd::arithmetic::div_mod::*;
use crate::num;
use crate::num::product;
use crate::offline::{Outcome, Run, DEFAULT_ACCUMULATE, UNIT};
use crate::text;
use crate::tiles::GridMode;

verus! {

/// Whether a render can accumulate: it splats, and it is one still.
pub fn check_accumulation(splat: bool, grid: GridMode) -> (r: Result<(), String>)
    ensures
        r is Ok <==> splat && grid == GridMode::Single,
        !splat ==> r is Err && r->Err_0@
            == "--spp accumulates linear density for the log tonemap, so it needs --splat"@,
        splat && grid != GridMode::Single ==> r is Err && r->Err_0@
            == "--spp renders one accumulated still; a contact sheet would be one full accumulation run per tile. Render the tiles separately."@,
{
    if !splat {
        return Err(
            "--spp accumulates linear density for the log tonemap, so it needs --splat".to_owned(),
        );
    }
    if grid != GridMode::Single {
        return Err(
            "--spp renders one accumulated still; a contact sheet would be one full accumulation run per tile. Render the tiles separately.".to_owned(),
        );
    }
    Ok(())
}

/// The samples that a target of `spp` per output pixel asks for.
pub open spec fn target_samples(spp: nat, width: nat, height: nat) -> nat {
    spp * width * height
}

/// The laps of `capacity` points that reach `target` samples: at least one,
/// and as many as the counter holds.
pub open spec fn laps_needed(target: nat, capacity: nat) -> nat {
    let n = (target + capacity - 1) as nat / capacity;
    if n == 0 {
        1
    } else if n > u32::MAX {
        u32::MAX as nat
    } else {
        n
    }
}

/// The laps reach the target, and one fewer would not, unless the counter is
/// full.
pub proof fn laps_reach_the_target(target: nat, capacity: nat)
    requires
        capacity > 0,
    ensures
        laps_needed(target, capacity) >= 1,
        laps_needed(target, capacity) < u32::MAX ==> laps_needed(target, capacity) * capacity
            >= target,
        laps_needed(target, capacity) > 1 ==> (laps_needed(target, capacity) - 1) * capacity
            < target,
{
    let n = (target + capacity - 1) as nat / capacity;
    lemma_fundamental_div_mod(target + capacity - 1, capacity as int);
    let r = (target + capacity - 1) % capacity as int;
    assert(capacity * n == target + capacity - 1 - r);
    assert(n * capacity == capacity * n) by (nonlinear_arith);
    if n == 0 {
        assert(capacity * n == 0) by (nonlinear_arith)
            requires
                n == 0,
        ;
    }
    assert((n - 1) * capacity == n * capacity - capacity) by (nonlinear_arith);
    let l = laps_needed(target, capacity);
    if l < n {
        assert((l - 1) * capacity <= (n - 1) * capacity) by (nonlinear_arith)
            requires
                l <= n,
        ;
    }
}

/// The laps of `capacity` points that reach a target of `spp` samples per
/// output pixel.
pub fn laps_for(spp: u32, width: u32, height: u32, capacity: u32) -> (n: u32)
    requires
        capacity > 0,
    ensures
        n == laps_needed(target_samples(spp as nat, width as nat, height as nat), capacity as nat),
        n >= 1,
{
    let sw: u128 = product(spp, width) as u128;
    assert(sw <= 0xFFFF_FFFE_0000_0001) by (nonlinear_arith)
        requires
            sw == spp * width,
            0 <= spp <= 0xFFFF_FFFF,
            0 <= width <= 0xFFFF_FFFF,
    ;
    assert(sw * height <= 0xFFFF_FFFE_0000_0001 * 0xFFFF_FFFF) by (nonlinear_arith)
        requires
            sw <= 0xFFFF_FFFE_0000_0001,
            height <= 0xFFFF_FFFF,
            sw >= 0,
            height >= 0,
    ;
    let target: u128 = sw * height as u128;
    let n: u128 = (target + capacity as u128 - 1) / capacity as u128;
    if n == 0 {
        1
    } else if n > 0xFFFF_FFFF {
        u32::MAX
    } else {
        n as u32
    }
}

/// An accumulation run.
#[derive(Clone, Copy, Debug)]
pub struct Accumulation {
    pub spp: u32,
    pub width: u32,
    pub height: u32,
    pub capacity: u32,
    /// Laps, done and to do
    pub laps: Run,
}

impl Accumulation {
    /// There are pixels and points, and the laps are those of the target.
    pub open spec fn valid(self) -> bool {
        &&& self.laps.valid()
        &&& 0 < self.capacity
        &&& 0 < self.width
        &&& 0 < self.height
        &&& self.laps.total == laps_needed(
            target_samples(self.spp as nat, self.width as nat, self.height as nat),
            self.capacity as nat,
        )
    }

    /// The samples accumulated so far: what exposure is normalized by.
    pub open spec fn samples(self) -> nat {
        (self.laps.done * self.capacity) as nat
    }

    /// The pixels of the image.
    pub open spec fn pixels(self) -> nat {
        (self.width * self.height) as nat
    }

    /// A run that has accumulated nothing yet.
    pub fn new(spp: u32, width: u32, height: u32, capacity: u32) -> (a: Accumulation)
        requires
            0 < width,
            0 < height,
            0 < capacity,
        ensures
            a.valid(),
            a.samples() == 0,
            a.spp == spp,
            a.width == width,
            a.height == height,
            a.capacity == capacity,
            !a.laps.stopped,
    {
        let laps: u32 = laps_for(spp, width, height, capacity);
        Accumulation { spp, width, height, capacity, laps: Run::new(laps) }
    }

    /// The samples accumulated so far.
    pub fn accumulated(self) -> (n: u64)
        ensures
            n == self.samples(),
    {
        product(self.laps.done, self.capacity)
    }

    /// The samples per pixel so far, as double precision divides them.
    pub open spec fn density(self) -> (nat, nat) {
        num::double(
            num::held(self.samples(), num::DOUBLE as nat),
            num::held(self.pixels(), num::DOUBLE as nat),
        )
    }

    /// The samples per pixel that the image holds, which is what its record
    /// says rather than what was asked for: a single-precision number, as a
    /// quotient of whole numbers.
    pub open spec fn achieved(self) -> (nat, nat) {
        num::narrowed(self.density())
    }

    fn divided(self) -> (f: (u128, u128))
        requires
            self.valid(),
        ensures
            (f.0 as nat, f.1 as nat) == self.density(),
            f.0 <= 2 * num::DOUBLE || (f.0 <= 0x4_0000_0000_0000_0000 && f.1 == 1),
            0 < f.1 <= 0x100_0000_0000_0000_0000_0000_0000_0000,
    {
        let samples: u64 = self.accumulated();
        let pixels: u64 = product(self.width, self.height);
        assert(self.width * self.height > 0) by (nonlinear_arith)
            requires
                self.width > 0,
                self.height > 0,
        ;
        let s: u128 = num::held_of(samples, num::DOUBLE);
        let p: u128 = num::held_of(pixels, num::DOUBLE);
        assert(2 * num::DOUBLE * p <= 0x100_0000_0000_0000_0000_0000_0000_0000) by (nonlinear_arith)
            requires
                0 <= p <= 0x2_0000_0000_0000_0000,
                num::DOUBLE == 4_503_599_627_370_496,
        ;
        num::double_of(s, p)
    }

    /// The samples per pixel that the image holds, in units of `1 / UNIT`,
    /// rounded down.
    pub fn achieved_spp(self) -> (n: u128)
        requires
            self.valid(),
        ensures
            n == self.achieved().0 * UNIT as nat / self.achieved().1,
    {
        let f = num::narrow(self.divided());
        assert(0 <= f.0 * UNIT <= 0x8_0000_0000_0000_0000 * 1_000_000_000) by (nonlinear_arith)
            requires
                0 <= f.0 <= 0x8_0000_0000_0000_0000,
                UNIT == 1_000_000_000,
        ;
        f.0 * UNIT as u128 / f.1
    }

    /// One lap is splatted and folded in; a request to stop keeps it.
    pub fn lap_done(&mut self, stop: bool)
        requires
            old(self).valid(),
            old(self).laps.done < old(self).laps.total,
            !old(self).laps.stopped,
        ensures
            final(self).valid(),
            final(self).samples() == old(self).samples() + old(self).capacity,
            final(self).laps.done == old(self).laps.done + 1,
            final(self).laps.stopped == stop,
            final(self).spp == old(self).spp,
            final(self).width == old(self).width,
            final(self).height == old(self).height,
            final(self).capacity == old(self).capacity,
    {
        assert((self.laps.done + 1) * self.capacity == self.laps.done * self.capacity
            + self.capacity) by (nonlinear_arith);
        self.laps.advance();
        if stop {
            self.laps.stop();
        }
    }

    /// The samples per pixel so far, to the nearest whole one.
    pub open spec fn density_text(self) -> Seq<char> {
        text::ratio_text(self.density().0, self.density().1, 0)
    }

    fn push_density(self, out: &mut String)
        requires
            self.valid(),
        ensures
            final(out)@ == old(out)@ + self.density_text(),
    {
        assert(text::pow10(0) == 1);
        let f = self.divided();
        text::push_ratio(out, f.0, f.1, 0);
    }

    /// The samples per pixel that the image holds, to the nearest whole one.
    pub open spec fn achieved_text(self) -> Seq<char> {
        text::ratio_text(self.achieved().0, self.achieved().1, 0)
    }

    fn push_achieved(self, out: &mut String)
        requires
            self.valid(),
        ensures
            final(out)@ == old(out)@ + self.achieved_text(),
    {
        assert(text::pow10(0) == 1);
        let f = num::narrow(self.divided());
        text::push_ratio(out, f.0, f.1, 0);
    }

    /// What is said at the start.
    pub open spec fn start_text(self, accum_w: nat, accum_h: nat, accumulate: nat) -> Seq<char> {
        "Accumulating "@ + text::decimal(self.laps.total as nat) + " laps x "@ + text::decimal(
            self.capacity as nat,
        ) + " points ("@ + text::decimal(self.spp as nat) + " samples/px target) into a "@
            + text::decimal(accum_w) + "x"@ + text::decimal(accum_h) + " histogram\n"@
            + if accumulate != DEFAULT_ACCUMULATE {
            "  (--accumulate is ignored here: --spp sets how long the chaos game runs)\n"@
        } else {
            ""@
        }
    }

    /// What is said at the start, with a word on a flag that has no meaning
    /// here when it was set.
    pub fn start_lines(self, accum_w: u32, accum_h: u32, accumulate: u32) -> (s: String)
        ensures
            s@ == self.start_text(accum_w as nat, accum_h as nat, accumulate as nat),
    {
        let mut s = String::new();
        s.append("Accumulating ");
        text::push_decimal(&mut s, self.laps.total as u128);
        s.append(" laps x ");
        text::push_decimal(&mut s, self.capacity as u128);
        s.append(" points (");
        text::push_decimal(&mut s, self.spp as u128);
        s.append(" samples/px target) into a ");
        text::push_decimal(&mut s, accum_w as u128);
        s.append("x");
        text::push_decimal(&mut s, accum_h as u128);
        s.append(" histogram\n");
        if accumulate != DEFAULT_ACCUMULATE {
            s.append("  (--accumulate is ignored here: --spp sets how long the chaos game runs)\n");
        } else {
            s.append("");
        }
        assert(s@ =~= self.start_text(accum_w as nat, accum_h as nat, accumulate as nat));
        s
    }

    /// What is said when the run is stopped.
    pub open spec fn stopped_text(self) -> Seq<char> {
        "stopped after "@ + text::decimal(self.laps.done as nat) + " of "@ + text::decimal(
            self.laps.total as nat,
        ) + " laps \u{2014} keeping the "@ + self.density_text() + " samples/px accumulated"@
    }

    /// The log line of a run that was stopped.
    pub fn stopped_line(self) -> (s: String)
        requires
            self.valid(),
        ensures
            s@ == self.stopped_text(),
    {
        let mut s = String::new();
        s.append("stopped after ");
        text::push_decimal(&mut s, self.laps.done as u128);
        s.append(" of ");
        text::push_decimal(&mut s, self.laps.total as u128);
        s.append(" laps \u{2014} keeping the ");
        self.push_density(&mut s);
        s.append(" samples/px accumulated");
        assert(s@ =~= self.stopped_text());
        s
    }

    /// What is said at the end.
    pub open spec fn summary_text(self, path: Seq<char>) -> Seq<char> {
        (if self.laps.stopped {
            "Stopped, partial render"@
        } else {
            "Rendered"@
        }) + " "@ + text::decimal(self.width as nat) + "x"@ + text::decimal(self.height as nat)
            + " ("@ + self.achieved_text() + " samples/px from "@ + text::decimal(
            self.laps.done as nat,
        ) + " laps of "@ + text::decimal(self.capacity as nat) + " points) -> "@ + path
    }

    /// The closing line of a run.
    pub fn summary(self, path: &str) -> (s: String)
        requires
            self.valid(),
        ensures
            s@ == self.summary_text(path@),
    {
        let mut s = String::new();
        if self.laps.outcome() == Outcome::Partial {
            s.append("Stopped, partial render");
        } else {
            s.append("Rendered");
        }
        s.append(" ");
        text::push_decimal(&mut s, self.width as u128);
        s.append("x");
        text::push_decimal(&mut s, self.height as u128);
        s.append(" (");
        self.push_achieved(&mut s);
        s.append(" samples/px from ");
        text::push_decimal(&mut s, self.laps.done as u128);
        s.append(" laps of ");
        text::push_decimal(&mut s, self.capacity as u128);
        s.append(" points) -> ");
        s.append(path);
        assert(s@ =~= self.summary_text(path@));
        s
    }
}

/// A run that was not stopped has accumulated at least the samples that were
/// asked for, unless the lap counter was full.
pub proof fn a_finished_run_meets_its_target(a: Accumulation)
    requires
        a.valid(),
        a.laps.done == a.laps.total,
        a.laps.total < u32::MAX,
    ensures
        a.samples() >= target_samples(a.spp as nat, a.width as nat, a.height as nat),
{
    laps_reach_the_target(
        target_samples(a.spp as nat, a.width as nat, a.height as nat),
        a.capacity as nat,
    );
}

/// A target is so many samples for every pixel: one more of them, one more row
/// or one more column asks for as many more.
pub proof fn a_target_is_so_many_for_every_pixel(spp: nat, width: nat, height: nat)
    ensures
        target_samples(spp, width, height) == spp * (width * height),
        target_samples(spp + 1, width, height) == target_samples(spp, width, height) + width * height,
{
    assert(spp * width * height == spp * (width * height)) by (nonlinear_arith);
    assert((spp + 1) * width * height == spp * width * height + width * height)
        by (nonlinear_arith);
}

/// There are no more laps than it takes: each one but the last leaves the target
/// ahead, and the least count that reaches it is the one that is run.
pub proof fn no_lap_is_wasted(target: nat, capacity: nat, laps: nat)
    requires
        capacity > 0,
        laps >= 1,
        laps * capacity >= target,
    ensures
        laps_needed(target, capacity) <= laps,
{
    let n = (target + capacity - 1) as nat / capacity;
    assert(n <= laps) by (nonlinear_arith)
        requires
            n == (target + capacity - 1) as nat / capacity,
            laps * capacity >= target,
            capacity > 0,
    ;
}

/// What has been reached is the samples there are for each pixel, as near as a
/// double-precision number comes to it.
pub proof fn a_density_is_samples_for_each_pixel(a: Accumulation)
    requires
        0 < a.pixels() < 9_007_199_254_740_992,
        0 < a.samples() < 9_007_199_254_740_992,
    ensures
        ({
            let (d, n) = (a.density(), a.pixels() as int);
            &&& d.1 > 0
            &&& -n <= 2 * (d.0 * n - a.samples() * d.1) <= n
            &&& d.0 <= 9_007_199_254_740_992 ==> a.achieved().1 == d.1 && -536_870_912 <= 2 * (
            a.achieved().0 - d.0) <= 536_870_912
        }),
        a.samples() == a.laps.done * a.capacity,
        a.pixels() == a.width * a.height,
{
    let (s, n) = (a.samples(), a.pixels());
    let half = num::DOUBLE as nat;
    num::what_is_held_is_within_half_a_step(s, half);
    num::what_is_held_is_within_half_a_step(n, half);
    assert(num::held(s, half) == s && num::held(n, half) == n);
    assert(s / n <= s) by (nonlinear_arith)
        requires
            n > 0,
            s >= 0,
    ;
    assert(num::step_at(s / n, half) == 1);
    num::the_nearest_is_within_half_a_unit(s, n, half);
    let d = a.density();
    assert(d == num::nearest(s, n, half));
    if d.0 <= 9_007_199_254_740_992 {
        num::narrowing_is_within_half_a_step(d);
    }
}

} // verus!
