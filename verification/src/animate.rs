//! Animation: how many frames there are, where on the path each one is, and
//! what a stop leaves.

use vstd::prelude::*;
use crate::offline::{Outcome, Run, UNIT};
use crate::num;
use crate::text;

verus! {

/// The shortest animation, in billionths of a second.
pub const MIN_SECONDS: i64 = 100_000_000;

/// The even size that 4:2:0 chroma needs: each side loses at most one pixel.
pub fn even_size(width: u32, height: u32) -> (r: (u32, u32))
    ensures
        r.0 == width - width % 2,
        r.1 == height - height % 2,
{
    (width - width % 2, height - height % 2)
}

/// How long the animation runs: as asked, else the path's own duration, and
/// never under the minimum.
pub open spec fn seconds_of(asked: Option<i64>, path: i64) -> int {
    let s = match asked {
        Some(s) => s,
        None => path,
    };
    if s < MIN_SECONDS {
        MIN_SECONDS as int
    } else {
        s as int
    }
}

/// The frames of an animation of that length: the length times the rate, as
/// single precision multiplies them, to the nearest whole number, at least
/// two, and as many as the counter holds.
pub open spec fn frames_of(seconds: int, fps: int) -> int {
    let s = num::single(seconds as nat, UNIT as nat);
    let f = num::single(s.0 * num::held(fps as nat, num::SINGLE as nat), s.1);
    let n = (2 * f.0 + f.1) / (2 * f.1);
    if n < 2 {
        2
    } else if n > u32::MAX {
        u32::MAX as int
    } else {
        n as int
    }
}

/// The length and the frame count of an animation.
pub fn frame_count(asked: Option<i64>, path: i64, fps: u32) -> (r: (i64, u32))
    ensures
        r.0 == seconds_of(asked, path),
        r.1 == frames_of(seconds_of(asked, path), fps as int),
        r.1 >= 2,
{
    let s: i64 = match asked {
        Some(s) => s,
        None => path,
    };
    let s: i64 = if s < MIN_SECONDS {
        MIN_SECONDS
    } else {
        s
    };
    let a = num::single_of(s as u128, UNIT);
    let b: u128 = num::held_of(fps as u64, num::SINGLE);
    assert(a.0 <= 0x1_0000_0000_0000_0000 && a.1 <= 0x100_0000_0000_0000);
    assert(0 <= a.0 * b <= 0x1_0000_0000_0000_0000 * 0x2_0000_0000) by (nonlinear_arith)
        requires
            0 <= a.0 <= 0x1_0000_0000_0000_0000,
            0 <= b <= 0x2_0000_0000,
    ;
    let f = num::single_of(a.0 * b, a.1 as u64);
    assert(2 * num::SINGLE * a.1 <= 0x100_0000 * 0x100_0000_0000_0000) by (nonlinear_arith)
        requires
            a.1 <= 0x100_0000_0000_0000,
            num::SINGLE == 8_388_608,
    ;
    let n: u128 = (2 * f.0 + f.1) / (2 * f.1);
    if n < 2 {
        (s, 2)
    } else if n > 0xFFFF_FFFF {
        (s, u32::MAX)
    } else {
        (s, n as u32)
    }
}

/// Where frame `i` is on the path, as a fraction of it: a looping path leaves
/// its end out, since that is its start again.
pub open spec fn time_of(i: int, frames: int, wraps: bool) -> (int, int) {
    if wraps {
        (i, frames)
    } else {
        (i, frames - 1)
    }
}

/// Where frame `i` is on the path, as numerator and denominator.
pub fn frame_time(i: u32, frames: u32, wraps: bool) -> (t: (u32, u32))
    requires
        i < frames,
        frames >= 2,
    ensures
        (t.0 as int, t.1 as int) == time_of(i as int, frames as int, wraps),
        t.1 > 0,
{
    if wraps {
        (i, frames)
    } else {
        (i, frames - 1)
    }
}

/// A looping path never repeats its first frame, an open one reaches its end,
/// and both start at the start.
pub proof fn loops_do_not_repeat_a_frame(i: int, frames: int)
    requires
        0 <= i < frames,
        frames >= 2,
    ensures
        time_of(0, frames, true).0 == 0,
        time_of(0, frames, false).0 == 0,
        time_of(i, frames, true).0 < time_of(i, frames, true).1,
        time_of(frames - 1, frames, false).0 == time_of(frames - 1, frames, false).1,
        time_of(i, frames, false).0 <= time_of(i, frames, false).1,
{
}

/// The fold depth that the point buffer has been carried to.
#[derive(Clone, Copy, Debug)]
pub struct Carried {
    pub depth: Option<i32>,
}

impl Carried {
    /// Nothing carried yet.
    pub fn new() -> (c: Carried)
        ensures
            c.depth is None,
    {
        Carried { depth: None }
    }

    /// How far the points have to be carried for a camera that was folded by
    /// `depth`: by the change since the frame before. The first frame sets the
    /// reference.
    pub fn carry(&mut self, depth: i32) -> (step: i64)
        ensures
            final(self).depth == Some(depth),
            step == (match old(self).depth {
                Some(d) => depth - d,
                None => 0,
            }),
    {
        let step: i64 = match self.depth {
            Some(d) => depth as i64 - d as i64,
            None => 0,
        };
        self.depth = Some(depth);
        step
    }
}

/// The steps that a run of fold depths takes, added up.
pub open spec fn carried_total(depths: Seq<int>) -> int
    decreases depths.len(),
{
    if depths.len() <= 1 {
        0
    } else {
        carried_total(depths.drop_last()) + depths.last() - depths[depths.len() - 2]
    }
}

/// However the folds fall, the points end up carried from the first frame's
/// depth to the last one's.
pub proof fn carrying_adds_up(depths: Seq<int>)
    requires
        depths.len() > 0,
    ensures
        carried_total(depths) == depths.last() - depths[0],
    decreases depths.len(),
{
    if depths.len() > 1 {
        carrying_adds_up(depths.drop_last());
    }
}

/// What a request to stop does to an animation.
#[derive(Clone, Copy, Debug, PartialEq, Eq, Structural)]
pub enum StopEffect {
    /// Nothing is written
    Cancel,
    /// The frames so far are muxed as a shorter clip
    Keep,
}

/// A stop during the fill cancels: there is nothing to keep from a sparse
/// cloud. A stop between frames keeps what was encoded, if it is two frames or
/// more.
pub fn on_stop(filling: bool, rendered: u32) -> (e: StopEffect)
    ensures
        e == StopEffect::Keep <==> !filling && rendered >= 2,
{
    if filling || rendered < 2 {
        StopEffect::Cancel
    } else {
        StopEffect::Keep
    }
}

/// What is said of an animation that was stopped. The seconds are the count
/// over the rate, divided in single precision.
pub open spec fn frames_stopped_text(done: nat, total: nat, fps: nat) -> Seq<char> {
    "stopped after "@ + text::decimal(done) + " of "@ + text::decimal(total)
        + " frames \u{2014} muxing the "@ + num::quotient_text(
        num::held(done, num::SINGLE as nat),
        num::held(fps, num::SINGLE as nat),
    ) + "s that rendered"@
}

/// The log line of an animation that was stopped.
pub fn frames_stopped(run: Run, fps: u32) -> (s: String)
    ensures
        s@ == frames_stopped_text(run.done as nat, run.total as nat, fps as nat),
{
    let mut s = String::new();
    s.append("stopped after ");
    text::push_decimal(&mut s, run.done as u128);
    s.append(" of ");
    text::push_decimal(&mut s, run.total as u128);
    s.append(" frames \u{2014} muxing the ");
    let frames: u128 = num::held_of(run.done as u64, num::SINGLE);
    let rate: u128 = num::held_of(fps as u64, num::SINGLE);
    num::push_quotient(&mut s, frames as u64, rate as u64);
    s.append("s that rendered");
    assert(s@ =~= frames_stopped_text(run.done as nat, run.total as nat, fps as nat));
    s
}

/// What is said at the start.
pub open spec fn start_text(
    frames: nat,
    seconds: int,
    fps: nat,
    keys: nat,
    loops: Seq<char>,
    auto_orbit: bool,
) -> Seq<char> {
    "Animating "@ + text::decimal(frames) + " frames ("@ + num::single_text(
        seconds,
        UNIT as nat,
        1,
    ) + "s at "@ + text::decimal(fps) + " fps): "@ + text::decimal(keys) + " keypoints, "@ + loops
        + if auto_orbit {
        " (auto full orbit)"@
    } else {
        ""@
    }
}

/// The opening line of an animation.
pub fn start_line(
    frames: u32,
    seconds: i64,
    fps: u32,
    keys: usize,
    loops: &str,
    auto_orbit: bool,
) -> (s: String)
    ensures
        s@ == start_text(
            frames as nat,
            seconds as int,
            fps as nat,
            keys as nat,
            loops@,
            auto_orbit,
        ),
{
    let mut s = String::new();
    s.append("Animating ");
    text::push_decimal(&mut s, frames as u128);
    s.append(" frames (");
    num::push_single(&mut s, seconds, UNIT, 1);
    s.append("s at ");
    text::push_decimal(&mut s, fps as u128);
    s.append(" fps): ");
    text::push_decimal(&mut s, keys as u128);
    s.append(" keypoints, ");
    s.append(loops);
    if auto_orbit {
        s.append(" (auto full orbit)");
    } else {
        s.append("");
    }
    assert(s@ =~= start_text(
        frames as nat,
        seconds as int,
        fps as nat,
        keys as nat,
        loops@,
        auto_orbit,
    ));
    s
}

/// What is said at the end.
pub open spec fn summary_text(
    run: Run,
    width: nat,
    height: nat,
    codec: Seq<char>,
    points: nat,
    path: Seq<char>,
) -> Seq<char> {
    (if run.stopped {
        "Stopped, partial"@
    } else {
        "Rendered"@
    }) + " "@ + text::decimal(width) + "x"@ + text::decimal(height) + " "@ + codec
        + " animation ("@ + text::decimal(run.done as nat) + " of "@ + text::decimal(
        run.total as nat,
    ) + " frames, "@ + text::decimal(points) + " points) -> "@ + path
}

/// The closing line of an animation.
pub fn summary(run: Run, width: u32, height: u32, codec: &str, points: u32, path: &str) -> (s:
    String)
    ensures
        s@ == summary_text(run, width as nat, height as nat, codec@, points as nat, path@),
{
    let mut s = String::new();
    if run.outcome() == Outcome::Partial {
        s.append("Stopped, partial");
    } else {
        s.append("Rendered");
    }
    s.append(" ");
    text::push_decimal(&mut s, width as u128);
    s.append("x");
    text::push_decimal(&mut s, height as u128);
    s.append(" ");
    s.append(codec);
    s.append(" animation (");
    text::push_decimal(&mut s, run.done as u128);
    s.append(" of ");
    text::push_decimal(&mut s, run.total as u128);
    s.append(" frames, ");
    text::push_decimal(&mut s, points as u128);
    s.append(" points) -> ");
    s.append(path);
    assert(s@ =~= summary_text(run, width as nat, height as nat, codec@, points as nat, path@));
    s
}

/// What is said of the encoder's threads.
pub open spec fn threads_text(threads: nat) -> Seq<char> {
    "Encoding on "@ + text::decimal(threads) + " thread"@ + if threads == 1 {
        ""@
    } else {
        "s"@
    }
}

/// The line on the encoder's threads.
pub fn threads_line(threads: usize) -> (s: String)
    ensures
        s@ == threads_text(threads as nat),
{
    let mut s = String::new();
    s.append("Encoding on ");
    text::push_decimal(&mut s, threads as u128);
    s.append(" thread");
    if threads == 1 {
        s.append("");
    } else {
        s.append("s");
    }
    assert(s@ =~= threads_text(threads as nat));
    s
}

/// What is said of how the time of an animation went, in billionths of a
/// second.
pub open spec fn timing_text(setup: int, fill: int, render: int, mux: int, total: int) -> Seq<char> {
    "Timing: setup "@ + num::single_text(setup, UNIT as nat, 2) + "s | chaos fill "@
        + num::single_text(fill, UNIT as nat, 2) + "s | render+encode "@ + num::single_text(
        render,
        UNIT as nat,
        2,
    ) + "s | flush+mux "@ + num::single_text(mux, UNIT as nat, 2) + "s | total "@
        + num::single_text(total, UNIT as nat, 2) + "s"@
}

/// The timing line of an animation, from five instants in order.
pub fn timing_line(t0: i64, t1: i64, t2: i64, t3: i64, t4: i64) -> (s: String)
    requires
        0 <= t0 <= t1 <= t2 <= t3 <= t4,
    ensures
        s@ == timing_text(t1 - t0, t2 - t1, t3 - t2, t4 - t3, t4 - t0),
{
    let mut s = String::new();
    s.append("Timing: setup ");
    num::push_single(&mut s, t1 - t0, UNIT, 2);
    s.append("s | chaos fill ");
    num::push_single(&mut s, t2 - t1, UNIT, 2);
    s.append("s | render+encode ");
    num::push_single(&mut s, t3 - t2, UNIT, 2);
    s.append("s | flush+mux ");
    num::push_single(&mut s, t4 - t3, UNIT, 2);
    s.append("s | total ");
    num::push_single(&mut s, t4 - t0, UNIT, 2);
    s.append("s");
    assert(s@ =~= timing_text(t1 - t0, t2 - t1, t3 - t2, t4 - t3, t4 - t0));
    s
}

/// On a looping path frame `i` of `n` is at `i / n` of it, so that the frames
/// stand an `n`th apart, the step from the last one to the end among them. On
/// an open path it is at `i / (n - 1)`, from the start to the end.
pub proof fn frames_are_evenly_spaced(i: int, frames: int)
    requires
        0 <= i < frames,
        frames >= 2,
    ensures
        ({
            let t = time_of(i, frames, true);
            t.1 > 0 && t.0 * frames == i * t.1
        }),
        ({
            let t = time_of(i, frames, false);
            t.1 > 0 && t.0 * (frames - 1) == i * t.1
        }),
{
    assert(i * frames == frames * i) by (nonlinear_arith);
}

/// Two frames of one animation are as far apart on the path as their numbers
/// are, in steps of one size.
pub proof fn frames_step_alike(i: int, j: int, frames: int, wraps: bool)
    requires
        0 <= i < frames,
        0 <= j < frames,
        frames >= 2,
    ensures
        ({
            let (s, t) = (time_of(i, frames, wraps), time_of(j, frames, wraps));
            s.1 == t.1 && t.0 - s.0 == j - i
        }),
{
}

/// An animation is as long as it was asked to be, else as long as its path, and
/// a tenth of a second at least.
pub proof fn an_animation_is_as_long_as_asked(asked: i64, path: i64)
    ensures
        10 * seconds_of(Some(asked), path) >= UNIT,
        10 * seconds_of(None, path) >= UNIT,
        10 * asked >= UNIT ==> seconds_of(Some(asked), path) == asked,
        10 * path >= UNIT ==> seconds_of(None, path) == path,
        10 * asked < UNIT ==> 10 * seconds_of(Some(asked), path) == UNIT,
        10 * path < UNIT ==> 10 * seconds_of(None, path) == UNIT,
{
}

proof fn whole_quotients_are_exact(k: nat, den: nat)
    requires
        0 < k < 16_777_216,
        0 < den,
    ensures
        ({
            let f = num::single(k * den, den);
            f.0 == k * f.1 && f.1 > 0
        }),
{
    let n = k * den;
    vstd::arithmetic::div_mod::lemma_div_multiples_vanish(k as int, den as int);
    assert(den * k == n) by (nonlinear_arith)
        requires
            n == k * den,
    ;
    assert(n / den == k);
    assert(n > 0) by (nonlinear_arith)
        requires
            n == k * den,
            k > 0,
            den > 0,
    ;
    let half = num::SINGLE as nat;
    num::the_nearest_is_within_half_a_unit(n, den, half);
    let f = num::nearest(n, den, half);
    let g = k * f.1;
    assert(n * f.1 == g * den) by (nonlinear_arith)
        requires
            n == k * den,
            g == k * f.1,
    ;
    let d = num::doubled(n, 1, den * half);
    num::doubling_is_in_proportion(n, den * half);
    assert(d.0 == g * den);
    vstd::arithmetic::div_mod::lemma_div_multiples_vanish(g as int, den as int);
    vstd::arithmetic::div_mod::lemma_mod_multiples_basic(g as int, den as int);
    assert(den * g == g * den) by (nonlinear_arith);
}

/// So many whole seconds take so many times the frames of one.
pub proof fn whole_seconds_take_their_frames(seconds: nat, fps: nat)
    requires
        0 < seconds,
        0 < fps,
        2 <= seconds * fps < 16_777_216,
    ensures
        frames_of(seconds as int * 1_000_000_000, fps as int) == seconds * fps,
{
    assert(seconds <= seconds * fps && fps <= seconds * fps) by (nonlinear_arith)
        requires
            0 < seconds,
            0 < fps,
    ;
    whole_quotients_are_exact(seconds, UNIT as nat);
    let s = num::single(seconds * UNIT as nat, UNIT as nat);
    num::what_is_held_is_within_half_a_step(fps, num::SINGLE as nat);
    assert(num::held(fps, num::SINGLE as nat) == fps);
    let n = seconds * fps;
    assert(s.0 * fps == n * s.1) by (nonlinear_arith)
        requires
            s.0 == seconds * s.1,
            n == seconds * fps,
    ;
    whole_quotients_are_exact(n, s.1);
    let f = num::single(n * s.1, s.1);
    let (a, b) = (2 * f.0 + f.1, 2 * f.1);
    assert(a / b == n) by (nonlinear_arith)
        requires
            f.0 == n * f.1,
            f.1 > 0,
            a == 2 * f.0 + f.1,
            b == 2 * f.1,
    ;
}

/// An animation has two frames at least.
pub proof fn an_animation_has_two_frames(seconds: int, fps: int)
    requires
        0 <= seconds,
        0 <= fps,
    ensures
        frames_of(seconds, fps) >= 2,
{
}

} // verus!
