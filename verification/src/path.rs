//! Camera paths: which keypoints a flight runs through, how many segments
//! join them, and where on it an instant falls.
//!
//! A path never derives its route from the endpoints. Each segment carries an
//! explicit winding: none is the short way round, one takes an extra whole
//! turn, minus one goes the long way against it.

use crate::num;
use crate::offline::UNIT;
use crate::quantity::Point;
use vstd::prelude::*;

verus! {

/// A whole turn in billionths of a radian.
pub const TAU: i64 = 6_283_185_307;

/// How long the default orbit takes, in billionths of a second: a whole turn
/// at 0.18 radians a second.
pub const ORBIT_SECONDS: i64 = 34_906_585_040;

/// The shortest a path may last, in billionths of a second.
pub const MIN_SECONDS: i64 = 100_000_000;

/// The longest a path may be for its times to be counted in.
pub const MAX_SEGMENTS: usize = 0x4000_0000;

/// One keypoint: a full camera framing, its orientation as the yaw, pitch and
/// roll that chart it.
#[derive(Clone, Copy, Debug, PartialEq, Eq, Structural)]
pub struct PathKey {
    pub yaw: i64,
    pub pitch: i64,
    pub roll: i64,
    pub distance: i64,
    pub focus: Point,
}

/// The symmetry that a zoom-looping path closes under: one loop descends that
/// many zoom periods and lands on an identical frame.
#[derive(Clone, Copy, Debug, PartialEq, Eq, Structural)]
pub struct ZoomLoop {
    pub periods: u32,
}

/// A camera path through two or more keypoints.
pub struct CameraPath {
    pub keys: Vec<PathKey>,
    /// Extra whole turns on each segment, beyond the short way round. Missing
    /// entries read as none.
    pub windings: Vec<i32>,
    /// Loop back to the first key after the last.
    pub closed: bool,
    /// Close under the scene's zoom symmetry in place of returning to the
    /// first key.
    pub zoom_loop: Option<ZoomLoop>,
    /// Ease in and out; unset, a path that does not loop does.
    pub ease: Option<bool>,
    /// Suggested duration; unset, three seconds a segment.
    pub seconds: Option<i64>,
}

/// A keypoint of the spline: one of the path's keys, carried some whole loops
/// forward by the zoom symmetry.
#[derive(Clone, Copy, Debug, PartialEq, Eq, Structural)]
pub struct KeyAt {
    pub index: usize,
    pub loops: isize,
}

/// How the camera turns along a segment.
#[derive(Clone, Copy, Debug, PartialEq, Eq, Structural)]
pub enum SegmentTurn {
    /// Not at all: past the end of an open path, or on no path.
    Still,
    /// By the zoom symmetry's own turn, seen from the key.
    Symmetry { from: KeyAt },
    /// From one key to the next, with so many extra whole turns.
    Between { from: KeyAt, to: KeyAt, winding: i32 },
}

/// Where on a path an instant falls: a segment, and how far along it as a
/// fraction.
#[derive(Clone, Copy, Debug, PartialEq, Eq, Structural)]
pub struct Place {
    pub segment: usize,
    pub along: u128,
    pub of: u128,
}

/// How many segments join `n` keys.
pub open spec fn segments_of(n: nat, wraps: bool) -> nat {
    if n == 0 {
        0
    } else if wraps {
        n
    } else {
        (n - 1) as nat
    }
}

/// `t` of `den`, wrapped into one loop or held at the ends.
pub open spec fn folded(t: int, den: int, wraps: bool) -> int {
    if wraps {
        t % den
    } else if t < 0 {
        0
    } else if t > den {
        den
    } else {
        t
    }
}

/// The smooth step over `0..=den`, as so many cubes of `1 / den`.
pub open spec fn smooth(t: int, den: int) -> int {
    t * t * (3 * den - 2 * t)
}

impl CameraPath {
    /// Whether playback loops, either by returning to the first key or under
    /// the zoom symmetry.
    pub open spec fn spec_wraps(self) -> bool {
        self.closed || self.zoom_loop is Some
    }

    /// How many segments the path has.
    pub open spec fn segment_count(self) -> nat {
        segments_of(self.keys@.len(), self.spec_wraps())
    }

    /// Whether there is enough here to interpolate.
    pub open spec fn is_playable(self) -> bool {
        self.keys@.len() >= 2 || (self.zoom_loop is Some && self.keys@.len() > 0)
    }

    /// Whether the path eases in and out.
    pub open spec fn eases(self) -> bool {
        match self.ease {
            Some(e) => e,
            None => !self.spec_wraps(),
        }
    }

    /// The extra turns on segment `i`.
    pub open spec fn winding_at(self, i: int) -> i32 {
        if 0 <= i < self.windings@.len() {
            self.windings@[i]
        } else {
            0
        }
    }

    /// The key at spline index `i`: an open path holds its end keys, a closed
    /// one goes round, and a zoom loop carries its keys by the symmetry.
    pub open spec fn key_at(self, i: int) -> (int, int) {
        let n = self.keys@.len() as int;
        if self.zoom_loop is Some {
            (i % n, i / n)
        } else if self.closed {
            (i % n, 0)
        } else if i < 0 {
            (0, 0)
        } else if i >= n {
            (n - 1, 0)
        } else {
            (i, 0)
        }
    }

    /// How far along the path the instant `t / den` falls, and in what
    /// fractions of a segment.
    pub open spec fn travel(self, t: int, den: int) -> (int, int) {
        let at = folded(t, den, self.spec_wraps());
        if self.eases() {
            (smooth(at, den) * self.segment_count() as int, den * den * den)
        } else {
            (at * self.segment_count() as int, den)
        }
    }

    /// A path through `keys`, taking the short way round on every segment.
    pub fn new(keys: Vec<PathKey>, closed: bool) -> (p: CameraPath)
        ensures
            p.keys@ == keys@,
            p.windings@.len() == 0,
            p.closed == closed,
            p.zoom_loop is None,
            p.ease is None,
            p.seconds is None,
    {
        CameraPath {
            keys,
            windings: Vec::new(),
            closed,
            zoom_loop: None,
            ease: None,
            seconds: None,
        }
    }

    /// Whether playback loops: the last frame runs into the first.
    pub fn wraps(&self) -> (b: bool)
        ensures
            b == self.spec_wraps(),
    {
        self.closed || self.zoom_loop.is_some()
    }

    /// Whether there is enough here to interpolate: two keys, or one under a
    /// zoom loop, whose closing segment runs to that key's own image.
    pub fn playable(&self) -> (b: bool)
        ensures
            b == self.is_playable(),
    {
        self.keys.len() >= 2 || (self.zoom_loop.is_some() && self.keys.len() > 0)
    }

    /// Number of segments; a looping path adds the one that closes it.
    pub fn segments(&self) -> (n: usize)
        ensures
            n == self.segment_count(),
    {
        let n: usize = self.keys.len();
        if n == 0 || self.wraps() {
            n
        } else {
            n - 1
        }
    }

    /// How long the path lasts: what was asked, or three seconds a segment,
    /// and never less than a tenth of a second.
    pub fn duration(&self) -> (s: i64)
        requires
            self.keys@.len() <= MAX_SEGMENTS,
        ensures
            ({
                let asked = match self.seconds {
                    Some(x) => x as int,
                    None => 3 * UNIT * (if self.segment_count() == 0 {
                        1
                    } else {
                        self.segment_count() as int
                    }),
                };
                s == (if asked < MIN_SECONDS {
                    MIN_SECONDS as int
                } else {
                    asked
                })
            }),
    {
        let asked: i64 = match self.seconds {
            Some(x) => x,
            None => {
                let n: usize = self.segments();
                let m: i64 = if n == 0 {
                    1
                } else {
                    n as i64
                };
                let each: i64 = 3 * UNIT as i64;
                assert(0 <= each * m <= 3_000_000_000 * 0x4000_0000) by (nonlinear_arith)
                    requires
                        each == 3_000_000_000,
                        0 <= m <= 0x4000_0000,
                ;
                each * m
            },
        };
        if asked < MIN_SECONDS {
            MIN_SECONDS
        } else {
            asked
        }
    }

    /// Whether the path eases in and out.
    pub fn eased(&self) -> (b: bool)
        ensures
            b == self.eases(),
    {
        match self.ease {
            Some(e) => e,
            None => !self.wraps(),
        }
    }

    /// Extra whole turns on segment `i`, none where nothing was authored.
    pub fn winding(&self, i: usize) -> (w: i32)
        ensures
            w == self.winding_at(i as int),
    {
        if i < self.windings.len() {
            self.windings[i]
        } else {
            0
        }
    }

    /// Grow or shrink the windings to the segment count, so that the two never
    /// drift apart as keys come and go. What every segment had, it keeps.
    pub fn fit_windings(&mut self)
        ensures
            final(self).keys == old(self).keys,
            final(self).closed == old(self).closed,
            final(self).zoom_loop == old(self).zoom_loop,
            final(self).ease == old(self).ease,
            final(self).seconds == old(self).seconds,
            final(self).windings@.len() == old(self).segment_count(),
            forall|i: int|
                0 <= i < old(self).segment_count() ==> final(self).windings@[i] == old(
                    self,
                ).winding_at(i),
    {
        let n: usize = self.segments();
        let mut fitted: Vec<i32> = Vec::new();
        let mut i: usize = 0;
        while i < n
            invariant
                i <= n,
                *self == *old(self),
                fitted@.len() == i,
                forall|k: int| 0 <= k < i ==> fitted@[k] == self.winding_at(k),
            decreases n - i,
        {
            let w: i32 = self.winding(i);
            fitted.push(w);
            i += 1;
        }
        self.windings = fitted;
    }

    /// A seamless full-turn orbit at the given framing: four quarter-turn keys
    /// about the vertical, at a constant rate.
    pub fn full_orbit(base: &PathKey) -> (p: CameraPath)
        requires
            base.yaw <= i64::MAX - TAU,
        ensures
            p.keys@.len() == 4,
            forall|i: int|
                0 <= i < 4 ==> #[trigger] p.keys@[i] == (PathKey {
                    yaw: (base.yaw + (i * TAU + 2) / 4) as i64,
                    pitch: base.pitch,
                    roll: base.roll,
                    distance: base.distance,
                    focus: base.focus,
                }),
            p.windings@ == seq![0i32, 0, 0, 0],
            p.closed,
            p.zoom_loop is None,
            p.ease == Some(false),
            p.seconds == Some(ORBIT_SECONDS),
    {
        let mut keys: Vec<PathKey> = Vec::new();
        let mut windings: Vec<i32> = Vec::new();
        let mut i: i64 = 0;
        while i < 4
            invariant
                0 <= i <= 4,
                base.yaw <= i64::MAX - TAU,
                keys@.len() == i,
                windings@.len() == i,
                forall|k: int|
                    0 <= k < i ==> #[trigger] keys@[k] == (PathKey {
                        yaw: (base.yaw + (k * TAU + 2) / 4) as i64,
                        pitch: base.pitch,
                        roll: base.roll,
                        distance: base.distance,
                        focus: base.focus,
                    }),
                forall|k: int| 0 <= k < i ==> windings@[k] == 0,
            decreases 4 - i,
        {
            let turn: i64 = (i * TAU + 2) / 4;
            keys.push(
                PathKey {
                    yaw: base.yaw + turn,
                    pitch: base.pitch,
                    roll: base.roll,
                    distance: base.distance,
                    focus: base.focus,
                },
            );
            windings.push(0);
            i += 1;
        }
        assert(windings@ =~= seq![0i32, 0, 0, 0]);
        CameraPath {
            keys,
            windings,
            closed: true,
            zoom_loop: None,
            ease: Some(false),
            seconds: Some(ORBIT_SECONDS),
        }
    }

    /// The key at spline index `i`, from one before the first to two past the
    /// last.
    pub fn key(&self, i: isize) -> (k: KeyAt)
        requires
            0 < self.keys@.len() <= MAX_SEGMENTS,
            -(MAX_SEGMENTS as int) <= i <= 2 * MAX_SEGMENTS - 1,
        ensures
            (k.index as int, k.loops as int) == self.key_at(i as int),
            k.index < self.keys@.len(),
    {
        let n: isize = self.keys.len() as isize;
        let (q, r) = num::floor_divide(i as i64, n as i64);
        proof {
            let (m, x, w) = (n as int, i as int, q as int);
            vstd::arithmetic::div_mod::lemma_fundamental_div_mod(x, m);
            assert(-0x8000_0000 <= w <= 0x8000_0000) by (nonlinear_arith)
                requires
                    x == m * w + r,
                    0 <= r < m,
                    -0x4000_0000 <= x <= 0x7FFF_FFFF,
                    m >= 1,
            ;
        }
        let index: usize = r as usize;
        let loops: isize = q as isize;
        if self.zoom_loop.is_some() {
            KeyAt { index, loops }
        } else if self.closed {
            KeyAt { index, loops: 0 }
        } else if i < 0 {
            KeyAt { index: 0, loops: 0 }
        } else if i >= n {
            KeyAt { index: (n - 1) as usize, loops: 0 }
        } else {
            KeyAt { index: i as usize, loops: 0 }
        }
    }

    /// The turn along segment `i`, in the frame of the key it starts from.
    /// This is where the route lives.
    pub fn segment_turn(&self, i: isize) -> (t: SegmentTurn)
        requires
            self.keys@.len() <= MAX_SEGMENTS,
            -(MAX_SEGMENTS as int) <= i < MAX_SEGMENTS,
        ensures
            ({
                let segs = self.segment_count() as int;
                let from = self.key_at(i as int);
                let to = self.key_at(i + 1);
                if segs == 0 {
                    t is Still
                } else if self.zoom_loop is Some {
                    t is Symmetry && (t->Symmetry_from.index as int, t->Symmetry_from.loops as int)
                        == from
                } else if !self.closed && (i < 0 || i >= segs) {
                    t is Still
                } else {
                    &&& t is Between
                    &&& (t->Between_from.index as int, t->Between_from.loops as int) == from
                    &&& (t->to.index as int, t->to.loops as int) == to
                    &&& t->winding == self.winding_at(i as int % segs)
                }
            }),
    {
        let segs: isize = self.segments() as isize;
        if segs == 0 {
            return SegmentTurn::Still;
        }
        if self.zoom_loop.is_some() {
            return SegmentTurn::Symmetry { from: self.key(i) };
        }
        if !self.closed && (i < 0 || i >= segs) {
            return SegmentTurn::Still;
        }
        let from = self.key(i);
        let to = self.key(i + 1);
        let at: usize = if self.closed {
            from.index
        } else {
            i as usize
        };
        assert(at == i as int % segs as int) by {
            if !self.closed {
                vstd::arithmetic::div_mod::lemma_small_mod(i as nat, segs as nat);
            }
        }
        SegmentTurn::Between { from, to, winding: self.winding(at) }
    }

    /// Where on the path the instant `t / den` falls. A looping path wraps, an
    /// open one holds its ends, and its end lies in the last segment. No place
    /// where there is no segment.
    pub fn locate(&self, t: i64, den: u32) -> (p: Option<Place>)
        requires
            self.keys@.len() <= MAX_SEGMENTS,
            0 < den <= 0x4000_0000,
        ensures
            p is None <==> self.segment_count() == 0,
            p matches Some(p) ==> {
                let (x, of) = self.travel(t as int, den as int);
                &&& p.of == of
                &&& 0 < of
                &&& p.segment < self.segment_count()
                &&& p.segment * of + p.along == x
                &&& p.along <= of
                &&& p.along == of ==> p.segment + 1 == self.segment_count()
            },
    {
        let segs: usize = self.segments();
        if segs == 0 {
            return None;
        }
        let d: i64 = den as i64;
        let at: u128 = if self.wraps() {
            let q = num::floor_divide(t, d);
            q.1 as u128
        } else if t < 0 {
            0
        } else if t > d {
            d as u128
        } else {
            t as u128
        };
        assert(at == folded(t as int, d as int, self.spec_wraps()));
        assert(at <= den);
        let w: u128 = den as u128;
        let n: u128 = segs as u128;
        let (e, of) = if self.eased() {
            assert(3 * w - 2 * at >= w);
            assert(at * at <= 0x1000_0000_0000_0000 && at * at * (3 * w - 2 * at)
                <= 0x1000_0000_0000_0000 * 0xC000_0000 && w * w <= 0x1000_0000_0000_0000 && 0 < w
                * w * w <= 0x1000_0000_0000_0000 * 0x4000_0000 && at * at * (3 * w - 2 * at) <= w
                * w * w) by (nonlinear_arith)
                requires
                    at <= w,
                    0 < w <= 0x4000_0000,
            {
                assert(at * at <= w * w);
                assert(w * w <= 0x4000_0000 * 0x4000_0000);
                assert(at * at * (3 * w - 2 * at) <= (0x4000_0000 * 0x4000_0000) * 0xC000_0000)
                    by (nonlinear_arith)
                    requires
                        0 <= at * at <= 0x4000_0000 * 0x4000_0000,
                        0 <= 3 * w - 2 * at <= 0xC000_0000,
                ;
                assert(w * w * w <= (0x4000_0000 * 0x4000_0000) * 0x4000_0000) by (nonlinear_arith)
                    requires
                        0 <= w * w <= 0x4000_0000 * 0x4000_0000,
                        0 <= w <= 0x4000_0000,
                ;
                let g = w - at;
                assert(w * w * w - at * at * (3 * w - 2 * at) == g * g * (w + 2 * at))
                    by (nonlinear_arith)
                    requires
                        g == w - at,
                ;
                assert(g * g * (w + 2 * at) >= 0) by (nonlinear_arith)
                    requires
                        g >= 0,
                        w >= 0,
                        at >= 0,
                ;
                assert(w * w * w > 0) by (nonlinear_arith)
                    requires
                        w > 0,
                ;
            }
            (at * at * (3 * w - 2 * at), w * w * w)
        } else {
            (at, w)
        };
        assert(e <= of);
        assert(e * n <= 0x1000_0000_0000_0000 * 0x4000_0000 * 0x4000_0000) by (nonlinear_arith)
            requires
                0 <= e <= of,
                of <= 0x1000_0000_0000_0000 * 0x4000_0000,
                0 <= n <= 0x4000_0000,
        ;
        let x: u128 = e * n;
        let whole: u128 = x / of;
        let segment: u128 = if whole < n {
            whole
        } else {
            n - 1
        };
        assert(whole * of + x % of == x && x <= of * n && whole <= n && segment * of <= x && x
            - segment * of <= of && (x - segment * of == of ==> segment + 1 == n))
            by (nonlinear_arith)
            requires
                0 < of,
                0 < n,
                0 <= e <= of,
                x == e * n,
                whole == x / of,
                segment == (if whole < n {
                    whole as int
                } else {
                    n - 1
                }),
        {
            assert(x == of * (x / of) + x % of);
            assert(e * n <= of * n);
            if whole >= n {
                assert(whole * of >= n * of);
                assert(x == n * of);
                assert((n - 1) * of == n * of - of);
            } else {
                assert(x - segment * of == x % of);
            }
        }
        Some(Place { segment: segment as usize, along: x - segment * of, of })
    }
}

/// Which path to fly: the authored one where there is enough of it to
/// interpolate, otherwise the default.
pub fn resolve<'a>(authored: Option<&'a CameraPath>, default: &'a CameraPath) -> (p:
    &'a CameraPath)
    ensures
        *p == (match authored {
            Some(a) if a.is_playable() => *a,
            _ => *default,
        }),
{
    match authored {
        Some(a) => if a.playable() {
            a
        } else {
            default
        },
        None => default,
    }
}

/// The running sums of the Catmull-Rom weights at `u` of `d`, in fractions of
/// twice the cube of `d`.
pub open spec fn basis(u: int, d: int) -> (int, int, int) {
    (
        2 * d * d * d + u * u * u - 2 * u * u * d + u * d * d,
        -2 * u * u * u + 3 * u * u * d + u * d * d,
        u * u * u - u * u * d,
    )
}

/// The weights of the three turns that a place on a segment is reached by, at
/// `u` of `UNIT`, in fractions of twice the cube of `UNIT`.
pub fn cumulative_basis(u: u64) -> (b: (i128, i128, i128))
    requires
        u <= UNIT,
    ensures
        (b.0 as int, b.1 as int, b.2 as int) == basis(u as int, UNIT as int),
{
    let x: i128 = u as i128;
    let d: i128 = UNIT as i128;
    assert(0 <= x * x <= 1_000_000_000_000_000_000 && 0 <= x * x * x
        <= 1_000_000_000_000_000_000_000_000_000 && d * d == 1_000_000_000_000_000_000 && 0 <= x * x
        * d <= 1_000_000_000_000_000_000_000_000_000 && 0 <= x * d * d
        <= 1_000_000_000_000_000_000_000_000_000 && d * d * d
        == 1_000_000_000_000_000_000_000_000_000 && 0 <= x * d <= 1_000_000_000_000_000_000)
        by (nonlinear_arith)
        requires
            0 <= x <= 1_000_000_000,
            d == 1_000_000_000,
    {
        assert(0 <= x * x <= 1_000_000_000 * 1_000_000_000);
        assert(0 <= x * x * x <= 1_000_000_000 * 1_000_000_000 * 1_000_000_000) by (nonlinear_arith)
            requires
                0 <= x * x <= 1_000_000_000 * 1_000_000_000,
                0 <= x <= 1_000_000_000,
        ;
    }
    let cube: i128 = x * x * x;
    let square: i128 = x * x * d;
    let line: i128 = x * d * d;
    let one: i128 = d * d * d;
    assert(2 * d * d * d == 2 * one && 2 * x * x * d == 2 * square && -2 * x * x * x == -2 * cube && 3
        * x * x * d == 3 * square) by (nonlinear_arith)
        requires
            cube == x * x * x,
            square == x * x * d,
            one == d * d * d,
    ;
    (2 * one + cube - 2 * square + line, 3 * square + line - 2 * cube, cube - square)
}

/// A number of a key between two others, by a spline through four keys: at `u`
/// of `d` on the way from the second to the third, in fractions of twice the
/// cube of `d`.
pub open spec fn spline(p0: int, p1: int, p2: int, p3: int, u: int, d: int) -> int {
    2 * p1 * (d * d * d) + (p2 - p0) * (u * d * d) + (2 * p0 - 5 * p1 + 4 * p2 - p3) * (u * u * d)
        + (3 * p1 - p0 - 3 * p2 + p3) * (u * u * u)
}

/// The largest number that a spline takes.
pub const SPLINABLE: i64 = 5_000_000_000_000_000_000;

/// The finest fractions of a segment that a spline takes.
pub const FINEST: u32 = 1_000_000;

/// A number of a key between two others, at `u` of `d` on the way from the
/// second of four keys to the third, in fractions of twice the cube of `d`.
pub fn catmull_rom(p0: i64, p1: i64, p2: i64, p3: i64, u: u32, d: u32) -> (v: i128)
    requires
        u <= d <= FINEST,
        -SPLINABLE <= p0 <= SPLINABLE,
        -SPLINABLE <= p1 <= SPLINABLE,
        -SPLINABLE <= p2 <= SPLINABLE,
        -SPLINABLE <= p3 <= SPLINABLE,
    ensures
        v == spline(p0 as int, p1 as int, p2 as int, p3 as int, u as int, d as int),
{
    let x: i128 = u as i128;
    let w: i128 = d as i128;
    assert(0 <= x * w <= 1_000_000_000_000 && 0 <= x * x <= 1_000_000_000_000 && 0 <= w * w
        <= 1_000_000_000_000) by (nonlinear_arith)
        requires
            0 <= x <= 1_000_000,
            0 <= w <= 1_000_000,
    ;
    assert(0 <= x * w * w <= 1_000_000_000_000_000_000 && 0 <= x * x * w
        <= 1_000_000_000_000_000_000 && 0 <= x * x * x <= 1_000_000_000_000_000_000 && 0 <= w * w * w
        <= 1_000_000_000_000_000_000) by (nonlinear_arith)
        requires
            0 <= x * w <= 1_000_000_000_000,
            0 <= x * x <= 1_000_000_000_000,
            0 <= w * w <= 1_000_000_000_000,
            0 <= x <= 1_000_000,
            0 <= w <= 1_000_000,
    ;
    let line: i128 = x * w * w;
    let square: i128 = x * x * w;
    let cube: i128 = x * x * x;
    let one: i128 = w * w * w;
    let a: i128 = 2 * p1 as i128;
    let b: i128 = p2 as i128 - p0 as i128;
    let c: i128 = 2 * p0 as i128 - 5 * p1 as i128 + 4 * p2 as i128 - p3 as i128;
    let e: i128 = 3 * p1 as i128 - p0 as i128 - 3 * p2 as i128 + p3 as i128;
    proof {
        let most = 1_000_000_000_000_000_000;
        bounded_product(a as int, one as int, 10_000_000_000_000_000_000, most);
        bounded_product(b as int, line as int, 10_000_000_000_000_000_000, most);
        bounded_product(c as int, square as int, 60_000_000_000_000_000_000, most);
        bounded_product(e as int, cube as int, 40_000_000_000_000_000_000, most);
    }
    a * one + b * line + c * square + e * cube
}

proof fn bounded_product(k: int, v: int, most: int, one: int)
    requires
        -most <= k <= most,
        0 <= v <= one,
    ensures
        -(most * one) <= k * v <= most * one,
{
    assert(-(most * one) <= k * v <= most * one) by (nonlinear_arith)
        requires
            -most <= k <= most,
            0 <= v <= one,
    ;
}

/// A spline passes through its second key and its third.
pub proof fn a_spline_passes_through_its_keys(p0: int, p1: int, p2: int, p3: int, d: int)
    ensures
        spline(p0, p1, p2, p3, 0, d) == 2 * d * d * d * p1,
        spline(p0, p1, p2, p3, d, d) == 2 * d * d * d * p2,
{
    assert(2 * p1 * (d * d * d) + (p2 - p0) * (0 * d * d) + (2 * p0 - 5 * p1 + 4 * p2 - p3) * (0 * 0
        * d) + (3 * p1 - p0 - 3 * p2 + p3) * (0 * 0 * 0) == 2 * d * d * d * p1) by (nonlinear_arith);
    let k = d * d * d;
    assert(2 * p1 * k + (p2 - p0) * k + (2 * p0 - 5 * p1 + 4 * p2 - p3) * k + (3 * p1 - p0 - 3 * p2
        + p3) * k == 2 * k * p2) by (nonlinear_arith);
    assert(2 * k * p2 == 2 * d * d * d * p2) by (nonlinear_arith)
        requires
            k == d * d * d,
    ;
}

/// Turns about one axis add up, and a path that makes only such turns is the
/// spline of the angles: from the key before the segment, the three turns with
/// their weights come to the same place.
pub proof fn turns_about_one_axis_are_the_spline(
    p0: int,
    p1: int,
    p2: int,
    p3: int,
    u: int,
    d: int,
)
    ensures
        2 * d * d * d * p0 + basis(u, d).0 * (p1 - p0) + basis(u, d).1 * (p2 - p1) + basis(u, d).2
            * (p3 - p2) == spline(p0, p1, p2, p3, u, d),
{
    let one = d * d * d;
    let line = u * d * d;
    let square = u * u * d;
    let cube = u * u * u;
    assert(2 * d * d * d == 2 * one && -2 * u * u * u == -2 * cube && 3 * u * u * d == 3 * square
        && 2 * u * u * d == 2 * square) by (nonlinear_arith)
        requires
            one == d * d * d,
            square == u * u * d,
            cube == u * u * u,
    ;
    let b = basis(u, d);
    assert(b.0 == 2 * one + cube - 2 * square + line);
    assert(b.1 == 3 * square + line - 2 * cube);
    assert(b.2 == cube - square);
    assert((2 * one + cube - 2 * square + line) * (p1 - p0) == 2 * (one * p1) + cube * p1 - 2 * (
    square * p1) + line * p1 - 2 * (one * p0) - cube * p0 + 2 * (square * p0) - line * p0)
        by (nonlinear_arith);
    assert((3 * square + line - 2 * cube) * (p2 - p1) == 3 * (square * p2) + line * p2 - 2 * (cube
        * p2) - 3 * (square * p1) - line * p1 + 2 * (cube * p1)) by (nonlinear_arith);
    assert((cube - square) * (p3 - p2) == cube * p3 - square * p3 - cube * p2 + square * p2)
        by (nonlinear_arith);
    assert((2 * one) * p0 == 2 * (one * p0)) by (nonlinear_arith);
    assert(2 * p1 * one == 2 * (one * p1)) by (nonlinear_arith);
    assert((p2 - p0) * line == line * p2 - line * p0) by (nonlinear_arith);
    assert((2 * p0 - 5 * p1 + 4 * p2 - p3) * square == 2 * (square * p0) - 5 * (square * p1) + 4 * (
    square * p2) - square * p3) by (nonlinear_arith);
    assert((3 * p1 - p0 - 3 * p2 + p3) * cube == 3 * (cube * p1) - cube * p0 - 3 * (cube * p2) + cube
        * p3) by (nonlinear_arith);
}

/// The curve passes through its keys: at the start of a segment only the turn
/// before it has been made, and at its end that turn and the segment's own.
pub proof fn the_curve_passes_through_its_keys(d: int)
    ensures
        basis(0, d) == (2 * d * d * d, 0int, 0int),
        basis(d, d) == (2 * d * d * d, 2 * d * d * d, 0int),
{
    assert(2 * d * d * d + 0 * 0 * 0 - 2 * 0 * 0 * d + 0 * d * d == 2 * d * d * d && -2 * 0 * 0 * 0
        + 3 * 0 * 0 * d + 0 * d * d == 0 && 0 * 0 * 0 - 0 * 0 * d == 0) by (nonlinear_arith);
    assert(2 * d * d * d + d * d * d - 2 * d * d * d + d * d * d == 2 * d * d * d && -2 * d * d * d
        + 3 * d * d * d + d * d * d == 2 * d * d * d && d * d * d - d * d * d == 0)
        by (nonlinear_arith);
}

/// Equal turns make a constant-rate sweep: the three weights add up to one and
/// how far along the segment the place is.
pub proof fn equal_turns_sweep_evenly(u: int, d: int)
    ensures
        basis(u, d).0 + basis(u, d).1 + basis(u, d).2 == 2 * d * d * (d + u),
{
    assert((2 * d * d * d + u * u * u - 2 * u * u * d + u * d * d) + (-2 * u * u * u + 3 * u * u * d
        + u * d * d) + (u * u * u - u * u * d) == 2 * d * d * (d + u)) by (nonlinear_arith);
}

/// A path at constant speed is on key `k` after `k` of its segments' shares of
/// the time.
pub proof fn each_segment_takes_its_share(p: CameraPath, k: int)
    requires
        p.segment_count() > 0,
        !p.eases(),
        0 <= k < p.segment_count(),
    ensures
        p.travel(k, p.segment_count() as int) == (
            k * p.segment_count(),
            p.segment_count() as int,
        ),
{
    let n = p.segment_count() as int;
    vstd::arithmetic::div_mod::lemma_small_mod(k as nat, n as nat);
}

/// Easing keeps both ends, and the middle, where they are.
pub proof fn easing_keeps_the_ends(den: int)
    requires
        den > 0,
    ensures
        smooth(0, den) == 0,
        smooth(den, den) == den * den * den,
        smooth(den, 2 * den) * 2 == (2 * den) * (2 * den) * (2 * den),
{
    assert(0 * 0 * (3 * den - 2 * 0) == 0) by (nonlinear_arith);
    assert(den * den * (3 * den - 2 * den) == den * den * den) by (nonlinear_arith);
    assert(den * den * (3 * (2 * den) - 2 * den) * 2 == (2 * den) * (2 * den) * (2 * den))
        by (nonlinear_arith);
}

/// On a looping path a whole loop later is the same place.
pub proof fn a_loop_later_is_the_same_place(p: CameraPath, t: int, den: int)
    requires
        den > 0,
        p.spec_wraps(),
    ensures
        p.travel(t + den, den) == p.travel(t, den),
{
    vstd::arithmetic::div_mod::lemma_mod_add_multiples_vanish(t, den);
    assert(t + den == den + t);
}

/// Nothing comes after the last key of a closed path but the first one again.
pub proof fn a_closed_path_goes_round(p: CameraPath, i: int)
    requires
        p.keys@.len() > 0,
        p.closed,
        p.zoom_loop is None,
    ensures
        p.key_at(i + p.keys@.len()) == p.key_at(i),
{
    let n = p.keys@.len() as int;
    vstd::arithmetic::div_mod::lemma_mod_add_multiples_vanish(i, n);
    assert(i + n == n + i);
}

/// A zoom loop's keys repeat one loop deeper.
pub proof fn a_zoom_loop_goes_deeper(p: CameraPath, i: int)
    requires
        p.keys@.len() > 0,
        p.zoom_loop is Some,
    ensures
        p.key_at(i + p.keys@.len()).0 == p.key_at(i).0,
        p.key_at(i + p.keys@.len()).1 == p.key_at(i).1 + 1,
{
    let n = p.keys@.len() as int;
    vstd::arithmetic::div_mod::lemma_mod_add_multiples_vanish(i, n);
    vstd::arithmetic::div_mod::lemma_div_plus_one(i, n);
    assert(i + n == n + i);
}

/// A path is flown at one speed where it does not ease: the share of it that is
/// behind is the share of the time. An open one rests at its ends before and
/// after.
pub proof fn a_path_is_flown_at_one_speed(p: CameraPath, t: int, den: int)
    requires
        den > 0,
        !p.eases(),
    ensures
        ({
            let (x, of) = p.travel(t, den);
            let segs = p.segment_count() as int;
            &&& of > 0
            &&& 0 <= t < den ==> x * den == t * segs * of
            &&& !p.spec_wraps() && t >= den ==> x == segs * of
            &&& !p.spec_wraps() && t <= 0 ==> x == 0
            &&& p.spec_wraps() ==> 0 <= x && (segs > 0 ==> x < segs * of)
        }),
{
    let at = folded(t, den, p.spec_wraps());
    let segs = p.segment_count() as int;
    if 0 <= t < den {
        assert(t % den == t) by (nonlinear_arith)
            requires
                0 <= t < den,
        ;
        assert((t * segs) * den == t * segs * den);
    }
    assert(den * segs == segs * den) by (nonlinear_arith);
    assert(0 * segs == 0);
    if p.spec_wraps() {
        assert(0 <= at < den);
        assert(0 <= at * segs && (segs > 0 ==> at * segs < segs * den)) by (nonlinear_arith)
            requires
                0 <= at < den,
                segs >= 0,
        ;
    }
}

/// A path that eases starts and ends at rest, covers as much in the first part
/// of its time as in the last, never turns back, and what it covers between two
/// times follows the speed of a cubic.
pub proof fn easing_is_smooth(t: int, u: int, den: int)
    requires
        0 <= t <= u <= den,
    ensures
        smooth(t, den) + smooth(den - t, den) == den * den * den,
        smooth(t, den) <= smooth(u, den),
        smooth(u, den) - smooth(t, den) == (u - t) * (3 * den * (u + t) - 2 * (u * u + u * t + t * t)),
        0 <= smooth(t, den) <= 3 * t * t * den,
{
    let (tt, uu) = (t * t, u * u);
    assert(t * t * (3 * den - 2 * t) == 3 * (tt * den) - 2 * (tt * t)) by (nonlinear_arith)
        requires
            tt == t * t,
    ;
    assert(u * u * (3 * den - 2 * u) == 3 * (uu * den) - 2 * (uu * u)) by (nonlinear_arith)
        requires
            uu == u * u,
    ;
    let v = den - t;
    assert(v * v * (3 * den - 2 * v) == den * den * den - 3 * (tt * den) + 2 * (tt * t))
        by (nonlinear_arith)
        requires
            v == den - t,
            tt == t * t,
    ;
    let d = u - t;
    let rest = 3 * den * (u + t) - 2 * (uu + u * t + tt);
    let (sum, square) = (u + t, uu + u * t + tt);
    assert(d * sum == uu - tt) by (nonlinear_arith)
        requires
            d == u - t,
            sum == u + t,
            uu == u * u,
            tt == t * t,
    ;
    assert(d * square == uu * u - tt * t) by {
        let ut = u * t;
        assert(d * (uu + ut + tt) == u * uu + u * ut + u * tt - t * uu - t * ut - t * tt)
            by (nonlinear_arith)
            requires
                d == u - t,
        ;
        assert(u * ut == t * uu) by (nonlinear_arith)
            requires
                ut == u * t,
                uu == u * u,
        ;
        assert(u * tt == t * ut) by (nonlinear_arith)
            requires
                ut == u * t,
                tt == t * t,
        ;
        assert(u * uu == uu * u) by (nonlinear_arith);
        assert(t * tt == tt * t) by (nonlinear_arith);
    }
    assert(d * rest == 3 * (den * (d * sum)) - 2 * (d * square)) by (nonlinear_arith)
        requires
            rest == 3 * den * sum - 2 * square,
    ;
    assert(den * (uu - tt) == uu * den - tt * den) by (nonlinear_arith);
    assert(rest >= 0) by (nonlinear_arith)
        requires
            rest == 3 * den * (u + t) - 2 * (uu + u * t + tt),
            uu == u * u,
            tt == t * t,
            0 <= t <= u <= den,
    ;
    assert(d * rest >= 0) by (nonlinear_arith)
        requires
            d >= 0,
            rest >= 0,
    ;
    assert(0 <= 3 * (tt * den) - 2 * (tt * t) <= 3 * (tt * den)) by (nonlinear_arith)
        requires
            tt == t * t,
            0 <= t <= den,
    ;
    assert(3 * t * t * den == 3 * (tt * den)) by (nonlinear_arith)
        requires
            tt == t * t,
    ;
}

/// A path that eases covers of its segments what easing leaves of the time.
pub proof fn an_eased_path_covers_what_easing_leaves(p: CameraPath, t: int, den: int)
    requires
        den > 0,
        0 <= t < den,
        p.eases(),
    ensures
        ({
            let (x, of) = p.travel(t, den);
            x * (den * den * den) == smooth(t, den) * p.segment_count() * of
        }),
        p.travel(0, den).0 == 0,
        !p.spec_wraps() ==> p.travel(den, den).0 == p.segment_count() * p.travel(den, den).1,
        !p.spec_wraps() ==> p.travel(-t, den) == p.travel(0, den) && p.travel(den + t, den)
            == p.travel(den, den),
{
    assert(t % den == t) by (nonlinear_arith)
            requires
                0 <= t < den,
        ;
    assert(0int % den == 0);
    let segs = p.segment_count() as int;
    easing_keeps_the_ends(den);
    assert(0 * segs == 0);
    let c = den * den * den;
    assert(c * segs == segs * c) by (nonlinear_arith);
}

/// A path comes to its keys in their order. Past its ends an open one stays at
/// the end key, and a closed one goes on with the next lap.
pub proof fn a_path_comes_to_its_keys_in_order(p: CameraPath, i: int)
    requires
        p.keys@.len() > 0,
    ensures
        0 <= i < p.keys@.len() ==> p.key_at(i) == (i, 0int),
        0 <= p.key_at(i).0 < p.keys@.len(),
        !p.closed && p.zoom_loop is None && i < 0 ==> p.key_at(i) == (0int, 0int),
        !p.closed && p.zoom_loop is None && i >= p.keys@.len() ==> p.key_at(i) == (
            p.keys@.len() - 1,
            0int,
        ),
        p.zoom_loop is None ==> p.key_at(i).1 == 0,
        p.zoom_loop is Some ==> p.key_at(i).0 + p.key_at(i).1 * p.keys@.len() == i,
{
    let n = p.keys@.len() as int;
    if 0 <= i < n {
        assert(i % n == i && i / n == 0) by (nonlinear_arith)
            requires
                0 <= i < n,
        ;
    }
    vstd::arithmetic::div_mod::lemma_fundamental_div_mod(i, n);
    assert(n * (i / n) == (i / n) * n) by (nonlinear_arith);
}

/// A path has a segment between every two keys, and one more that closes it
/// where it loops. It eases unless it loops or says otherwise, and is worth
/// flying with two keys, or with one that a zoom carries on.
pub proof fn a_path_has_a_segment_between_keys(p: CameraPath)
    ensures
        p.closed || p.zoom_loop is Some ==> p.segment_count() == p.keys@.len(),
        !(p.closed || p.zoom_loop is Some) && p.keys@.len() > 0 ==> p.segment_count() + 1
            == p.keys@.len(),
        p.keys@.len() == 0 ==> p.segment_count() == 0,
        p.ease is Some ==> p.eases() == p.ease->0,
        p.ease is None ==> (p.eases() <==> !p.closed && p.zoom_loop is None),
        p.is_playable() <==> p.keys@.len() >= 2 || (p.keys@.len() == 1 && p.zoom_loop is Some),
{
}

/// Keys that stand equally far apart are flown through at one speed.
pub proof fn a_spline_of_equal_steps_is_straight(p: int, s: int, u: int, d: int)
    ensures
        spline(p, p + s, p + 2 * s, p + 3 * s, u, d) == 2 * d * d * (d * (p + s) + u * s),
{
    let (d2, u2) = (d * d, u * u);
    let (a, b, c, e) = (d * d * d, u * d * d, u * u * d, u * u * u);
    assert(2 * p - 5 * (p + s) + 4 * (p + 2 * s) - (p + 3 * s) == 0);
    assert(3 * (p + s) - p - 3 * (p + 2 * s) + (p + 3 * s) == 0);
    assert(0 * c == 0 && 0 * e == 0);
    assert(2 * (p + s) * a + (2 * s) * b == 2 * d * d * (d * (p + s) + u * s)) by (nonlinear_arith)
        requires
            a == d * d * d,
            b == u * d * d,
    ;
}

/// The curve is the same flown backward.
pub proof fn a_spline_is_the_same_backward(p0: int, p1: int, p2: int, p3: int, u: int, d: int)
    ensures
        spline(p3, p2, p1, p0, d - u, d) == spline(p0, p1, p2, p3, u, d),
{
    let w = d - u;
    let (a, b, c, e) = (d * d * d, u * d * d, u * u * d, u * u * u);
    assert(w * d * d == a - b) by (nonlinear_arith)
        requires
            w == d - u,
            a == d * d * d,
            b == u * d * d,
    ;
    assert(w * w * d == a - 2 * b + c) by (nonlinear_arith)
        requires
            w == d - u,
            a == d * d * d,
            b == u * d * d,
            c == u * u * d,
    ;
    assert(w * w * w == a - 3 * b + 3 * c - e) by (nonlinear_arith)
        requires
            w == d - u,
            a == d * d * d,
            b == u * d * d,
            c == u * u * d,
            e == u * u * u,
    ;
    backward(p0, p1, p2, p3, a, b, c, e);
}

/// A number that four others make up multiplies as they do.
proof fn parts_multiply(k: int, m: (int, int, int, int), p: (int, int, int, int), x: int)
    requires
        k == m.0 * p.0 + m.1 * p.1 + m.2 * p.2 + m.3 * p.3,
    ensures
        k * x == m.0 * (p.0 * x) + m.1 * (p.1 * x) + m.2 * (p.2 * x) + m.3 * (p.3 * x),
{
    let (a, b, c, d) = (m.0 * p.0, m.1 * p.1, m.2 * p.2, m.3 * p.3);
    assert((a + b + c + d) * x == a * x + b * x + c * x + d * x) by (nonlinear_arith);
    vstd::arithmetic::mul::lemma_mul_is_associative(m.0, p.0, x);
    vstd::arithmetic::mul::lemma_mul_is_associative(m.1, p.1, x);
    vstd::arithmetic::mul::lemma_mul_is_associative(m.2, p.2, x);
    vstd::arithmetic::mul::lemma_mul_is_associative(m.3, p.3, x);
}

proof fn backward(p0: int, p1: int, p2: int, p3: int, a: int, b: int, c: int, e: int)
    ensures
        2 * p2 * a + (p1 - p3) * (a - b) + (2 * p3 - 5 * p2 + 4 * p1 - p0) * (a - 2 * b + c) + (3
            * p2 - p3 - 3 * p1 + p0) * (a - 3 * b + 3 * c - e) == 2 * p1 * a + (p2 - p0) * b + (2
            * p0 - 5 * p1 + 4 * p2 - p3) * c + (3 * p1 - p0 - 3 * p2 + p3) * e,
{
    let p = (p0, p1, p2, p3);
    let (m, n) = (2 * p3 - 5 * p2 + 4 * p1 - p0, 3 * p2 - p3 - 3 * p1 + p0);
    let (q, r) = (2 * p0 - 5 * p1 + 4 * p2 - p3, 3 * p1 - p0 - 3 * p2 + p3);
    parts_multiply(m, (-1, 4, -5, 2), p, a);
    parts_multiply(m, (-1, 4, -5, 2), p, b);
    parts_multiply(m, (-1, 4, -5, 2), p, c);
    parts_multiply(n, (1, -3, 3, -1), p, a);
    parts_multiply(n, (1, -3, 3, -1), p, b);
    parts_multiply(n, (1, -3, 3, -1), p, c);
    parts_multiply(n, (1, -3, 3, -1), p, e);
    parts_multiply(q, (2, -5, 4, -1), p, c);
    parts_multiply(r, (-1, 3, -3, 1), p, e);
    parts_multiply(p2 - p0, (-1, 0, 1, 0), p, b);
    parts_multiply(2 * p2, (0, 0, 2, 0), p, a);
    parts_multiply(2 * p1, (0, 2, 0, 0), p, a);
    assert(m * (a - 2 * b + c) == m * a - 2 * (m * b) + m * c) by (nonlinear_arith);
    assert(n * (a - 3 * b + 3 * c - e) == n * a - 3 * (n * b) + 3 * (n * c) - n * e)
        by (nonlinear_arith);
    assert((p1 - p3) * (a - b) == p1 * a - p1 * b - p3 * a + p3 * b) by (nonlinear_arith);
}

/// At a key the curve goes the way from the key before to the key after, at half
/// that distance a segment: what it adds to that is of the second order.
pub proof fn a_spline_leaves_its_key_toward_its_neighbours(
    p0: int,
    p1: int,
    p2: int,
    p3: int,
    u: int,
    d: int,
)
    ensures
        exists|k: int|
            spline(p0, p1, p2, p3, u, d) == 2 * p1 * (d * d * d) + (p2 - p0) * (u * d * d)
                + #[trigger] (u * u * k),
{
    let (m, n) = (2 * p0 - 5 * p1 + 4 * p2 - p3, 3 * p1 - p0 - 3 * p2 + p3);
    let k = m * d + n * u;
    assert(u * u * k == m * (u * u * d) + n * (u * u * u)) by (nonlinear_arith)
        requires
            k == m * d + n * u,
    ;
}

/// A segment without extra turns of its own has none.
pub proof fn missing_windings_are_none(p: CameraPath, i: int)
    ensures
        i >= p.windings@.len() ==> p.winding_at(i) == 0,
        0 <= i < p.windings@.len() ==> p.winding_at(i) == p.windings@[i],
{
}

/// The default orbit goes round once at 0.18 radians a second.
pub proof fn the_default_orbit_has_its_speed()
    ensures
        -100 < 18 * ORBIT_SECONDS - 100 * TAU < 100,
        10 * MIN_SECONDS == UNIT,
{
}

} // verus!
