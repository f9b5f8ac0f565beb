//! Which part of a transform's gizmo the pointer is on.
//!
//! A gizmo is a right-angled tetrahedron on the screen: an origin dot, three
//! axes that end in tips, and three outer edges. The origin moves its
//! transform, an axis moves it along that axis, a tip scales the axis, and an
//! outer edge turns it about the third.

use crate::num;
use vstd::prelude::*;

verus! {

/// Positions on the screen are counted in parts of a pixel: how many make one.
pub const PIXEL: i64 = 65_536;

/// The farthest from the corner of the screen that a position can be.
pub const FARTHEST: i64 = 0x4000_0000;

/// Pick radius around the origin dot.
pub const ORIGIN_RADIUS: i64 = 786_432;

/// Pick radius around an axis endpoint. Smaller than the origin's: three of
/// these sit around one origin, and the origin is the part one wants when they
/// crowd together.
pub const TIP_RADIUS: i64 = 524_288;

/// Pick radius around edges.
pub const EDGE_RADIUS: i64 = 458_752;

/// Shortest an axis may project and still offer its tip, its shaft, or the
/// outer edges that meet it. One that points nearly at the camera would swing
/// enormously for a pixel of pointer movement.
pub const MIN_AXIS: i64 = 524_288;

/// What the origin is favoured by.
pub const ORIGIN_BONUS: i64 = 524_288;

/// What a tip is favoured by.
pub const TIP_BONUS: i64 = 262_144;

/// A position on the screen.
#[derive(Clone, Copy, Debug, PartialEq, Eq, Structural)]
pub struct Spot {
    pub x: i64,
    pub y: i64,
}

/// Which part of a gizmo was grabbed.
#[derive(Clone, Copy, Debug, PartialEq, Eq, Structural)]
pub enum GizmoPart {
    /// The origin dot: translate in the view plane.
    Origin,
    /// An axis endpoint: scale that axis on its own, and pass through zero to
    /// mirror it.
    Tip(usize),
    /// An axis: translate along it.
    Axis(usize),
    /// An outer edge: rotate around the given axis.
    RotEdge(usize),
}

/// A part of a transform's gizmo.
#[derive(Clone, Copy, Debug, PartialEq, Eq, Structural)]
pub struct GizmoHit {
    pub transform: usize,
    pub part: GizmoPart,
}

/// Where a gizmo projects to; nothing for what is off the screen's side of the
/// camera.
#[derive(Clone, Copy, Debug, PartialEq, Eq, Structural)]
pub struct Gizmo {
    pub origin: Option<Spot>,
    pub x: Option<Spot>,
    pub y: Option<Spot>,
    pub z: Option<Spot>,
}

/// A position near enough to be measured.
pub open spec fn on_screen(s: Spot) -> bool {
    -FARTHEST <= s.x <= FARTHEST && -FARTHEST <= s.y <= FARTHEST
}

/// A projection, if there is one, near enough to be measured.
pub open spec fn maybe_on_screen(s: Option<Spot>) -> bool {
    s matches Some(p) ==> on_screen(p)
}

/// The square of the distance between two positions.
pub open spec fn square_apart(a: Spot, b: Spot) -> int {
    (a.x - b.x) * (a.x - b.x) + (a.y - b.y) * (a.y - b.y)
}

/// How far `p` is along the segment from `a` to `b`, times its square length.
pub open spec fn along(p: Spot, a: Spot, b: Spot) -> int {
    (p.x - a.x) * (b.x - a.x) + (p.y - a.y) * (b.y - a.y)
}

/// How far `p` is to the side of the line through `a` and `b`, times its
/// length.
pub open spec fn aside(p: Spot, a: Spot, b: Spot) -> int {
    (p.x - a.x) * (b.y - a.y) - (p.y - a.y) * (b.x - a.x)
}

/// The square of the distance from a position to a segment, rounded up: to its
/// nearer end, or to the line where the position lies beside it.
pub open spec fn square_from_segment(p: Spot, a: Spot, b: Spot) -> int {
    let len = square_apart(b, a);
    if len == 0 || along(p, a, b) <= 0 {
        square_apart(p, a)
    } else if along(p, a, b) >= len {
        square_apart(p, b)
    } else {
        (aside(p, a, b) * aside(p, a, b) + len - 1) / len
    }
}

/// The distance from a position to a segment, rounded up: it is within a
/// radius exactly where the real distance is.
pub open spec fn from_segment(p: Spot, a: Spot, b: Spot) -> int {
    let square = square_from_segment(p, a, b);
    let r = num::root(square as nat) as int;
    if r * r == square {
        r
    } else {
        r + 1
    }
}

/// Something that could be grabbed: its score, and what it is.
pub struct Offer {
    pub score: int,
    pub hit: GizmoHit,
}

/// A part on offer where the pointer is within reach of it.
pub open spec fn offered(
    distance: int,
    radius: int,
    bonus: int,
    transform: int,
    part: GizmoPart,
) -> Seq<Offer> {
    if distance <= radius {
        seq![
            Offer {
                score: distance - bonus,
                hit: GizmoHit { transform: transform as usize, part },
            },
        ]
    } else {
        Seq::empty()
    }
}

/// Where the end of axis `k` projects to.
pub open spec fn end_of(g: Gizmo, k: int) -> Option<Spot> {
    if k == 0 {
        g.x
    } else if k == 1 {
        g.y
    } else {
        g.z
    }
}

/// Whether axis `k` projects far enough to be worth offering.
pub open spec fn long_enough(g: Gizmo, k: int) -> bool {
    end_of(g, k) matches Some(e) && num::root(square_apart(e, g.origin->0) as nat) >= MIN_AXIS
}

/// The tip of axis `k`.
pub open spec fn tip_offer(g: Gizmo, i: int, k: int, cursor: Spot) -> Seq<Offer> {
    if long_enough(g, k) {
        let e = end_of(g, k)->0;
        offered(
            from_segment(cursor, e, e),
            TIP_RADIUS as int,
            TIP_BONUS as int,
            i,
            GizmoPart::Tip(k as usize),
        )
    } else {
        Seq::empty()
    }
}

/// The shaft of axis `k`.
pub open spec fn axis_offer(g: Gizmo, i: int, k: int, cursor: Spot) -> Seq<Offer> {
    if long_enough(g, k) {
        offered(
            from_segment(cursor, g.origin->0, end_of(g, k)->0),
            EDGE_RADIUS as int,
            0,
            i,
            GizmoPart::Axis(k as usize),
        )
    } else {
        Seq::empty()
    }
}

/// The outer edge between the tips of axes `a` and `b`, which turns about the
/// third.
pub open spec fn edge_offer(g: Gizmo, i: int, a: int, b: int, about: int, cursor: Spot) -> Seq<
    Offer,
> {
    if long_enough(g, a) && long_enough(g, b) {
        offered(
            from_segment(cursor, end_of(g, a)->0, end_of(g, b)->0),
            EDGE_RADIUS as int,
            0,
            i,
            GizmoPart::RotEdge(about as usize),
        )
    } else {
        Seq::empty()
    }
}

/// The origin dot.
pub open spec fn origin_offer(g: Gizmo, i: int, cursor: Spot) -> Seq<Offer> {
    offered(
        from_segment(cursor, g.origin->0, g.origin->0),
        ORIGIN_RADIUS as int,
        ORIGIN_BONUS as int,
        i,
        GizmoPart::Origin,
    )
}

/// The three tips.
pub open spec fn tip_offers(g: Gizmo, i: int, cursor: Spot) -> Seq<Offer> {
    tip_offer(g, i, 0, cursor) + tip_offer(g, i, 1, cursor) + tip_offer(g, i, 2, cursor)
}

/// The three shafts.
pub open spec fn axis_offers(g: Gizmo, i: int, cursor: Spot) -> Seq<Offer> {
    axis_offer(g, i, 0, cursor) + axis_offer(g, i, 1, cursor) + axis_offer(g, i, 2, cursor)
}

/// The three outer edges.
pub open spec fn edge_offers(g: Gizmo, i: int, cursor: Spot) -> Seq<Offer> {
    edge_offer(g, i, 0, 1, 2, cursor) + edge_offer(g, i, 1, 2, 0, cursor) + edge_offer(
        g,
        i,
        0,
        2,
        1,
        cursor,
    )
}

/// The parts of a gizmo other than its origin.
pub open spec fn handle_offers(g: Gizmo, i: int, cursor: Spot) -> Seq<Offer> {
    tip_offers(g, i, cursor) + axis_offers(g, i, cursor) + edge_offers(g, i, cursor)
}

/// What one gizmo offers: its origin dot, and the rest of it where its
/// transform is the selected one.
pub open spec fn gizmo_offers(g: Gizmo, i: int, selected: Option<usize>, cursor: Spot) -> Seq<
    Offer,
> {
    if g.origin is None {
        Seq::empty()
    } else if selected is Some && selected->0 == i {
        origin_offer(g, i, cursor) + handle_offers(g, i, cursor)
    } else {
        origin_offer(g, i, cursor)
    }
}

/// What the first `n` gizmos offer.
pub open spec fn all_offers(
    gizmos: Seq<Gizmo>,
    selected: Option<usize>,
    cursor: Spot,
    n: nat,
) -> Seq<Offer>
    decreases n,
{
    if n == 0 {
        Seq::empty()
    } else {
        all_offers(gizmos, selected, cursor, (n - 1) as nat) + gizmo_offers(
            gizmos[n - 1],
            n - 1,
            selected,
            cursor,
        )
    }
}

/// The best of some offers: the lowest score, and the first of those.
pub open spec fn best(offers: Seq<Offer>) -> Option<Offer>
    decreases offers.len(),
{
    if offers.len() == 0 {
        None
    } else {
        match best(offers.drop_last()) {
            Some(b) if b.score <= offers.last().score => Some(b),
            _ => Some(offers.last()),
        }
    }
}

/// The best so far, with its score.
struct Best {
    score: i64,
    hit: GizmoHit,
}

#[verifier::opaque]
spec fn is_best(b: Option<Best>, offers: Seq<Offer>) -> bool {
    match best(offers) {
        Some(o) => b matches Some(x) && x.score == o.score && x.hit == o.hit,
        None => b is None,
    }
}

fn consider(b: &mut Option<Best>, score: i64, hit: GizmoHit, Ghost(offers): Ghost<Seq<Offer>>)
    requires
        is_best(*old(b), offers),
    ensures
        is_best(*final(b), offers.push(Offer { score: score as int, hit })),
{
    reveal(is_best);
    let ghost more = offers.push(Offer { score: score as int, hit });
    assert(more.drop_last() =~= offers);
    let better = match b {
        Some(x) => score < x.score,
        None => true,
    };
    if better {
        *b = Some(Best { score, hit });
    }
}

fn squared_apart(a: Spot, b: Spot) -> (d: u128)
    requires
        on_screen(a),
        on_screen(b),
    ensures
        d == square_apart(a, b),
        d <= 0x8000_0000_0000_0000,
{
    let x: i128 = a.x as i128 - b.x as i128;
    let y: i128 = a.y as i128 - b.y as i128;
    assert(0 <= x * x <= 0x4000_0000_0000_0000 && 0 <= y * y <= 0x4000_0000_0000_0000)
        by (nonlinear_arith)
        requires
            -0x8000_0000 <= x <= 0x8000_0000,
            -0x8000_0000 <= y <= 0x8000_0000,
    ;
    (x * x + y * y) as u128
}

/// The distance from a position to a segment, which may be a single point.
pub fn dist_point_segment(p: Spot, a: Spot, b: Spot) -> (d: i64)
    requires
        on_screen(p),
        on_screen(a),
        on_screen(b),
    ensures
        d == from_segment(p, a, b),
        0 <= d <= 0xFFFF_FFFF_FFFF,
{
    let len: u128 = squared_apart(b, a);
    let px: i128 = p.x as i128 - a.x as i128;
    let py: i128 = p.y as i128 - a.y as i128;
    let ex: i128 = b.x as i128 - a.x as i128;
    let ey: i128 = b.y as i128 - a.y as i128;
    assert(-0x4000_0000_0000_0000 <= px * ex <= 0x4000_0000_0000_0000 && -0x4000_0000_0000_0000
        <= py * ey <= 0x4000_0000_0000_0000 && -0x4000_0000_0000_0000 <= px * ey
        <= 0x4000_0000_0000_0000 && -0x4000_0000_0000_0000 <= py * ex <= 0x4000_0000_0000_0000)
        by (nonlinear_arith)
        requires
            -0x8000_0000 <= px <= 0x8000_0000,
            -0x8000_0000 <= py <= 0x8000_0000,
            -0x8000_0000 <= ex <= 0x8000_0000,
            -0x8000_0000 <= ey <= 0x8000_0000,
    ;
    let t: i128 = px * ex + py * ey;
    let square: u128 = if len == 0 || t <= 0 {
        squared_apart(p, a)
    } else if t as u128 >= len {
        squared_apart(p, b)
    } else {
        let c: i128 = px * ey - py * ex;
        assert(0 <= c * c <= 0x4000_0000_0000_0000_0000_0000_0000_0000) by (nonlinear_arith)
            requires
                -0x8000_0000_0000_0000 <= c <= 0x8000_0000_0000_0000,
        ;
        let cc: u128 = (c * c) as u128;
        proof {
            // The side of a right triangle is no longer than its diagonal.
            let (w, v, x, y) = (px as int, py as int, ex as int, ey as int);
            side_and_rest(w, v, x, y);
            let far = square_apart(p, a);
            assert(c * c <= far * len) by (nonlinear_arith)
                requires
                    c * c + t * t == far * len,
            ;
            squared_bound(p, a);
            let l = len as int;
            assert((cc as int + l - 1) / l <= far) by (nonlinear_arith)
                requires
                    cc <= far * l,
                    l > 0,
                    cc >= 0,
            ;
        }
        (cc + len - 1) / len
    };
    proof {
        squared_bound(p, a);
        squared_bound(p, b);
    }
    let r: u64 = num::root_of(square);
    assert(r <= 0xFFFF_FFFF) by (nonlinear_arith)
        requires
            r * r <= square,
            square <= 0x8000_0000_0000_0000,
            r >= 0,
    ;
    assert(0 <= r * r <= 0xFFFF_FFFE_0000_0001) by (nonlinear_arith)
        requires
            0 <= r <= 0xFFFF_FFFF,
    ;
    if (r * r) as u128 == square {
        r as i64
    } else {
        r as i64 + 1
    }
}

/// A part is on offer exactly where the real distance to it is within its
/// radius: for a position beside a segment, where the square to its side is at
/// most the radius's times the segment's.
pub proof fn reach_is_exact(p: Spot, a: Spot, b: Spot, radius: int)
    requires
        on_screen(p),
        on_screen(a),
        on_screen(b),
        0 <= radius,
    ensures
        ({
            let len = square_apart(b, a);
            from_segment(p, a, b) <= radius <==> if len == 0 || along(p, a, b) <= 0 {
                square_apart(p, a) <= radius * radius
            } else if along(p, a, b) >= len {
                square_apart(p, b) <= radius * radius
            } else {
                aside(p, a, b) * aside(p, a, b) <= radius * radius * len
            }
        }),
{
    let len = square_apart(b, a);
    squared_bound(b, a);
    squared_bound(p, a);
    squared_bound(p, b);
    let square = square_from_segment(p, a, b);
    let rr = radius * radius;
    if len > 0 && 0 < along(p, a, b) < len {
        let c = aside(p, a, b) * aside(p, a, b);
        let side = aside(p, a, b);
        assert(side * side >= 0) by (nonlinear_arith);
        assert(square >= 0 && (square <= rr <==> c <= rr * len)) by (nonlinear_arith)
            requires
                square == (c + len - 1) / len,
                len > 0,
                c >= 0,
        ;
    }
    num::root_is_whole_part(square as nat);
    let r = num::root(square as nat) as int;
    assert(r * r == square ==> (r <= radius <==> square <= rr)) by (nonlinear_arith)
        requires
            rr == radius * radius,
            r >= 0,
            radius >= 0,
    ;
    assert(r * r < square ==> (r + 1 <= radius <==> square <= rr)) by (nonlinear_arith)
        requires
            rr == radius * radius,
            r * r <= square < (r + 1) * (r + 1),
            r >= 0,
            radius >= 0,
    ;
}

/// The squares of two products of the same sides add up to the product of the
/// squares.
proof fn side_and_rest(w: int, v: int, x: int, y: int)
    ensures
        (w * y - v * x) * (w * y - v * x) + (w * x + v * y) * (w * x + v * y) == (w * w + v * v) * (
        x * x + y * y),
{
    let (a, b, c, d) = (w * y, v * x, w * x, v * y);
    assert((a - b) * (a - b) == a * a - 2 * (a * b) + b * b) by (nonlinear_arith);
    assert((c + d) * (c + d) == c * c + 2 * (c * d) + d * d) by (nonlinear_arith);
    assert((w * y) * (v * x) == (w * x) * (v * y)) by (nonlinear_arith);
    assert((w * y) * (w * y) == (w * w) * (y * y)) by (nonlinear_arith);
    assert((v * x) * (v * x) == (v * v) * (x * x)) by (nonlinear_arith);
    assert((w * x) * (w * x) == (w * w) * (x * x)) by (nonlinear_arith);
    assert((v * y) * (v * y) == (v * v) * (y * y)) by (nonlinear_arith);
    let (p, q, r, s) = (w * w, v * v, x * x, y * y);
    assert((p + q) * (r + s) == p * r + p * s + q * r + q * s) by (nonlinear_arith);
}

proof fn squared_bound(a: Spot, b: Spot)
    requires
        on_screen(a),
        on_screen(b),
    ensures
        0 <= square_apart(a, b) <= 0x8000_0000_0000_0000,
{
    let x = a.x - b.x;
    let y = a.y - b.y;
    assert(0 <= x * x <= 0x4000_0000_0000_0000 && 0 <= y * y <= 0x4000_0000_0000_0000)
        by (nonlinear_arith)
        requires
            -0x8000_0000 <= x <= 0x8000_0000,
            -0x8000_0000 <= y <= 0x8000_0000,
    ;
}

fn end(g: &Gizmo, k: usize) -> (e: Option<Spot>)
    requires
        k < 3,
    ensures
        e == end_of(*g, k as int),
{
    if k == 0 {
        g.x
    } else if k == 1 {
        g.y
    } else {
        g.z
    }
}

/// Where axis `k` ends, if it projects far enough to be worth offering.
fn reach(g: &Gizmo, k: usize, origin: Spot) -> (e: Option<Spot>)
    requires
        k < 3,
        g.origin == Some(origin),
        on_screen(origin),
        maybe_on_screen(end_of(*g, k as int)),
    ensures
        e is Some <==> long_enough(*g, k as int),
        e is Some ==> e == end_of(*g, k as int) && on_screen(e->0),
{
    match end(g, k) {
        Some(e) => {
            let far: u64 = num::root_of(squared_apart(e, origin));
            if far >= MIN_AXIS as u64 {
                Some(e)
            } else {
                None
            }
        },
        None => None,
    }
}

fn offer(
    b: &mut Option<Best>,
    distance: i64,
    radius: i64,
    bonus: i64,
    transform: usize,
    part: GizmoPart,
    Ghost(offers): Ghost<Seq<Offer>>,
)
    requires
        is_best(*old(b), offers),
        0 <= distance <= 0xFFFF_FFFF_FFFF,
        0 <= bonus <= 0xFFFF_FFFF,
    ensures
        is_best(
            *final(b),
            offers + offered(
                distance as int,
                radius as int,
                bonus as int,
                transform as int,
                part,
            ),
        ),
{
    let ghost more = offered(
        distance as int,
        radius as int,
        bonus as int,
        transform as int,
        part,
    );
    if distance <= radius {
        let hit = GizmoHit { transform, part };
        consider(b, distance - bonus, hit, Ghost(offers));
        assert(offers.push(Offer { score: distance - bonus, hit }) =~= offers + more);
    } else {
        assert(offers + more =~= offers);
    }
}

/// The ends of the axes that are worth offering.
spec fn are_reaches(g: Gizmo, ends: (Option<Spot>, Option<Spot>, Option<Spot>)) -> bool {
    is_reach(g, 0, ends.0) && is_reach(g, 1, ends.1) && is_reach(g, 2, ends.2)
}

/// The end of axis `k`, if it is worth offering.
spec fn is_reach(g: Gizmo, k: int, e: Option<Spot>) -> bool {
    &&& e is Some <==> long_enough(g, k)
    &&& e is Some ==> e == end_of(g, k) && on_screen(e->0)
}

proof fn three_together(o: Seq<Offer>, a: Seq<Offer>, b: Seq<Offer>, c: Seq<Offer>)
    ensures
        o + a + b + c == o + (a + b + c),
{
    assert(o + a + b + c =~= o + (a + b + c));
}

fn offer_tips(
    b: &mut Option<Best>,
    g: &Gizmo,
    ends: (Option<Spot>, Option<Spot>, Option<Spot>),
    i: usize,
    cursor: Spot,
    Ghost(offers): Ghost<Seq<Offer>>,
)
    requires
        is_best(*old(b), offers),
        g.origin matches Some(origin) && on_screen(origin),
        are_reaches(*g, ends),
        on_screen(cursor),
    ensures
        is_best(*final(b), offers + tip_offers(*g, i as int, cursor)),
{
    let ghost (one, two, three) = (tip_offer(*g, i as int, 0, cursor), tip_offer(*g, i as int, 1, cursor), tip_offer(*g, i as int, 2, cursor));
    offer_tip(b, g, ends.0, i, 0, cursor, Ghost(offers));
    offer_tip(b, g, ends.1, i, 1, cursor, Ghost(offers + one));
    offer_tip(b, g, ends.2, i, 2, cursor, Ghost(offers + one + two));
    proof {
        three_together(offers, one, two, three);
    }
}

fn offer_axes(
    b: &mut Option<Best>,
    g: &Gizmo,
    origin: Spot,
    ends: (Option<Spot>, Option<Spot>, Option<Spot>),
    i: usize,
    cursor: Spot,
    Ghost(offers): Ghost<Seq<Offer>>,
)
    requires
        is_best(*old(b), offers),
        g.origin == Some(origin),
        on_screen(origin),
        are_reaches(*g, ends),
        on_screen(cursor),
    ensures
        is_best(*final(b), offers + axis_offers(*g, i as int, cursor)),
{
    let ghost (one, two, three) = (axis_offer(*g, i as int, 0, cursor), axis_offer(*g, i as int, 1, cursor), axis_offer(*g, i as int, 2, cursor));
    offer_axis(b, g, origin, ends.0, i, 0, cursor, Ghost(offers));
    offer_axis(b, g, origin, ends.1, i, 1, cursor, Ghost(offers + one));
    offer_axis(b, g, origin, ends.2, i, 2, cursor, Ghost(offers + one + two));
    proof {
        three_together(offers, one, two, three);
    }
}

fn offer_edges(
    b: &mut Option<Best>,
    g: &Gizmo,
    ends: (Option<Spot>, Option<Spot>, Option<Spot>),
    i: usize,
    cursor: Spot,
    Ghost(offers): Ghost<Seq<Offer>>,
)
    requires
        is_best(*old(b), offers),
        g.origin matches Some(origin) && on_screen(origin),
        are_reaches(*g, ends),
        on_screen(cursor),
    ensures
        is_best(*final(b), offers + edge_offers(*g, i as int, cursor)),
{
    let ghost (one, two, three) = (edge_offer(*g, i as int, 0, 1, 2, cursor), edge_offer(*g, i as int, 1, 2, 0, cursor), edge_offer(*g, i as int, 0, 2, 1, cursor));
    offer_edge(b, g, (ends.0, ends.1), i, (0, 1, 2), cursor, Ghost(offers));
    offer_edge(b, g, (ends.1, ends.2), i, (1, 2, 0), cursor, Ghost(offers + one));
    offer_edge(b, g, (ends.0, ends.2), i, (0, 2, 1), cursor, Ghost(offers + one + two));
    proof {
        three_together(offers, one, two, three);
    }
}

fn offer_handles(
    b: &mut Option<Best>,
    g: &Gizmo,
    origin: Spot,
    i: usize,
    cursor: Spot,
    Ghost(offers): Ghost<Seq<Offer>>,
)
    requires
        is_best(*old(b), offers),
        g.origin == Some(origin),
        on_screen(origin),
        maybe_on_screen(g.x),
        maybe_on_screen(g.y),
        maybe_on_screen(g.z),
        on_screen(cursor),
    ensures
        is_best(*final(b), offers + handle_offers(*g, i as int, cursor)),
{
    let ends = (reach(g, 0, origin), reach(g, 1, origin), reach(g, 2, origin));
    let ghost (one, two, three) = (
        tip_offers(*g, i as int, cursor),
        axis_offers(*g, i as int, cursor),
        edge_offers(*g, i as int, cursor),
    );
    offer_tips(b, g, ends, i, cursor, Ghost(offers));
    offer_axes(b, g, origin, ends, i, cursor, Ghost(offers + one));
    offer_edges(b, g, ends, i, cursor, Ghost(offers + one + two));
    proof {
        three_together(offers, one, two, three);
    }
}

fn offer_tip(
    b: &mut Option<Best>,
    g: &Gizmo,
    e: Option<Spot>,
    i: usize,
    k: usize,
    cursor: Spot,
    Ghost(offers): Ghost<Seq<Offer>>,
)
    requires
        is_best(*old(b), offers),
        k < 3,
        e is Some <==> long_enough(*g, k as int),
        e is Some ==> e == end_of(*g, k as int) && on_screen(e->0),
        on_screen(cursor),
    ensures
        is_best(*final(b), offers + tip_offer(*g, i as int, k as int, cursor)),
{
    match e {
        Some(s) => {
            let d: i64 = dist_point_segment(cursor, s, s);
            offer(b, d, TIP_RADIUS, TIP_BONUS, i, GizmoPart::Tip(k), Ghost(offers));
        },
        None => {
            assert(offers + tip_offer(*g, i as int, k as int, cursor) =~= offers);
        },
    }
}

fn offer_axis(
    b: &mut Option<Best>,
    g: &Gizmo,
    origin: Spot,
    e: Option<Spot>,
    i: usize,
    k: usize,
    cursor: Spot,
    Ghost(offers): Ghost<Seq<Offer>>,
)
    requires
        is_best(*old(b), offers),
        k < 3,
        g.origin == Some(origin),
        on_screen(origin),
        e is Some <==> long_enough(*g, k as int),
        e is Some ==> e == end_of(*g, k as int) && on_screen(e->0),
        on_screen(cursor),
    ensures
        is_best(*final(b), offers + axis_offer(*g, i as int, k as int, cursor)),
{
    match e {
        Some(s) => {
            let d: i64 = dist_point_segment(cursor, origin, s);
            offer(b, d, EDGE_RADIUS, 0, i, GizmoPart::Axis(k), Ghost(offers));
        },
        None => {
            assert(offers + axis_offer(*g, i as int, k as int, cursor) =~= offers);
        },
    }
}

fn offer_edge(
    b: &mut Option<Best>,
    g: &Gizmo,
    ends: (Option<Spot>, Option<Spot>),
    i: usize,
    axes: (usize, usize, usize),
    cursor: Spot,
    Ghost(offers): Ghost<Seq<Offer>>,
)
    requires
        is_best(*old(b), offers),
        axes.0 < 3,
        axes.1 < 3,
        ends.0 is Some <==> long_enough(*g, axes.0 as int),
        ends.0 is Some ==> ends.0 == end_of(*g, axes.0 as int) && on_screen(ends.0->0),
        ends.1 is Some <==> long_enough(*g, axes.1 as int),
        ends.1 is Some ==> ends.1 == end_of(*g, axes.1 as int) && on_screen(ends.1->0),
        on_screen(cursor),
    ensures
        is_best(
            *final(b),
            offers + edge_offer(
                *g,
                i as int,
                axes.0 as int,
                axes.1 as int,
                axes.2 as int,
                cursor,
            ),
        ),
{
    match (ends.0, ends.1) {
        (Some(s), Some(t)) => {
            let d: i64 = dist_point_segment(cursor, s, t);
            offer(b, d, EDGE_RADIUS, 0, i, GizmoPart::RotEdge(axes.2), Ghost(offers));
        },
        _ => {
            assert(offers + edge_offer(
                *g,
                i as int,
                axes.0 as int,
                axes.1 as int,
                axes.2 as int,
                cursor,
            ) =~= offers);
        },
    }
}

/// What the pointer is on, of every transform's gizmo: the offer with the
/// lowest score, the earliest of equals. An unselected transform offers only
/// its origin dot, so that what can be grabbed is what can be seen.
pub fn pick_gizmo(gizmos: &Vec<Gizmo>, selected: Option<usize>, cursor: Spot) -> (r: Option<
    GizmoHit,
>)
    requires
        on_screen(cursor),
        forall|i: int|
            0 <= i < gizmos@.len() ==> {
                let g = #[trigger] gizmos@[i];
                maybe_on_screen(g.origin) && maybe_on_screen(g.x) && maybe_on_screen(g.y)
                    && maybe_on_screen(g.z)
            },
    ensures
        match best(all_offers(gizmos@, selected, cursor, gizmos@.len())) {
            Some(o) => r == Some(o.hit),
            None => r is None,
        },
{
    let mut found: Option<Best> = None;
    let ghost mut seen: Seq<Offer> = Seq::empty();
    assert(is_best(found, seen)) by {
        reveal(is_best);
    }
    let mut i: usize = 0;
    while i < gizmos.len()
        invariant
            i <= gizmos@.len(),
            on_screen(cursor),
            forall|k: int|
                0 <= k < gizmos@.len() ==> {
                    let g = #[trigger] gizmos@[k];
                    maybe_on_screen(g.origin) && maybe_on_screen(g.x) && maybe_on_screen(g.y)
                        && maybe_on_screen(g.z)
                },
            seen == all_offers(gizmos@, selected, cursor, i as nat),
            is_best(found, seen),
        decreases gizmos@.len() - i,
    {
        let g = gizmos[i];
        let ghost before = seen;
        if let Some(origin) = g.origin {
            let d: i64 = dist_point_segment(cursor, origin, origin);
            offer(&mut found, d, ORIGIN_RADIUS, ORIGIN_BONUS, i, GizmoPart::Origin, Ghost(seen));
            proof {
                seen = seen + origin_offer(g, i as int, cursor);
            }
            let chosen = match selected {
                Some(s) => s == i,
                None => false,
            };
            if chosen {
                offer_handles(&mut found, &g, origin, i, cursor, Ghost(seen));
                proof {
                    seen = seen + handle_offers(g, i as int, cursor);
                }
            }
        }
        assert(seen =~= before + gizmo_offers(g, i as int, selected, cursor));
        i += 1;
    }
    reveal(is_best);
    match found {
        Some(b) => Some(b.hit),
        None => None,
    }
}

/// The pick is the lowest score there is, and the earliest of those.
pub proof fn the_lowest_score_wins(offers: Seq<Offer>)
    requires
        offers.len() > 0,
    ensures
        exists|k: int|
            #![trigger offers[k]]
            0 <= k < offers.len() && best(offers) == Some(offers[k]) && (forall|j: int|
                0 <= j < offers.len() ==> offers[k].score <= (#[trigger] offers[j]).score) && (
            forall|j: int| 0 <= j < k ==> offers[k].score < (#[trigger] offers[j]).score),
    decreases offers.len(),
{
    let before = offers.drop_last();
    let n = offers.len() - 1;
    if before.len() == 0 {
        assert(best(before) is None);
        assert(best(offers) == Some(offers[n]));
    } else {
        the_lowest_score_wins(before);
        let k = choose|k: int|
            #![trigger before[k]]
            0 <= k < before.len() && best(before) == Some(before[k]) && (forall|j: int|
                0 <= j < before.len() ==> before[k].score <= (#[trigger] before[j]).score) && (
            forall|j: int| 0 <= j < k ==> before[k].score < (#[trigger] before[j]).score);
        assert(before[k] == offers[k]);
        if offers[k].score <= offers[n].score {
            assert(best(offers) == Some(offers[k]));
            assert forall|j: int| 0 <= j < offers.len() implies offers[k].score <= (
            #[trigger] offers[j]).score by {
                if j < n {
                    assert(before[j] == offers[j]);
                }
            }
            assert forall|j: int| 0 <= j < k implies offers[k].score < (#[trigger] offers[j]).score by {
                assert(before[j] == offers[j]);
            }
        } else {
            assert(best(offers) == Some(offers[n]));
            assert forall|j: int| 0 <= j < offers.len() implies offers[n].score <= (
            #[trigger] offers[j]).score by {
                if j < n {
                    assert(before[j] == offers[j]);
                }
            }
            assert forall|j: int| 0 <= j < n implies offers[n].score < (#[trigger] offers[j]).score by {
                assert(before[j] == offers[j]);
            }
        }
    }
}

/// A transform that is not selected offers nothing but its origin dot.
pub proof fn an_unselected_gizmo_offers_only_its_origin(
    g: Gizmo,
    i: int,
    selected: Option<usize>,
    cursor: Spot,
    k: int,
)
    requires
        !(selected is Some && selected->0 == i),
        0 <= k < gizmo_offers(g, i, selected, cursor).len(),
    ensures
        gizmo_offers(g, i, selected, cursor)[k].hit.part == GizmoPart::Origin,
{
}

/// Where parts crowd together the least destructive grab wins: at one distance
/// the origin scores below a tip, and a tip below an edge.
pub proof fn crowded_parts_prefer_the_origin(d: int, i: int, k: usize)
    requires
        0 <= d <= EDGE_RADIUS,
    ensures
        offered(d, ORIGIN_RADIUS as int, ORIGIN_BONUS as int, i, GizmoPart::Origin)[0].score
            < offered(d, TIP_RADIUS as int, TIP_BONUS as int, i, GizmoPart::Tip(k))[0].score,
        offered(d, TIP_RADIUS as int, TIP_BONUS as int, i, GizmoPart::Tip(k))[0].score < offered(
            d,
            EDGE_RADIUS as int,
            0,
            i,
            GizmoPart::Axis(k),
        )[0].score,
{
}

// ---- what a pick is for ----------------------------------------------------

/// Whether a position is within a radius of a segment: some point of the
/// segment, so many parts of the way along it, is no farther off.
pub open spec fn is_near(p: Spot, a: Spot, b: Spot, radius: int) -> bool {
    exists|t: int, n: int|
        0 <= t <= n && 0 < n && #[trigger] square_to(p, a, b, t, n) <= radius * radius * (n * n)
}

/// The square of the distance from a position to the point `t` parts in `n` of
/// the way along a segment, times the square of `n`.
pub open spec fn square_to(p: Spot, a: Spot, b: Spot, t: int, n: int) -> int {
    let x = n * (p.x - a.x) - t * (b.x - a.x);
    let y = n * (p.y - a.y) - t * (b.y - a.y);
    x * x + y * y
}

proof fn square_of_difference(n: int, x: int, t: int, y: int)
    ensures
        (n * x - t * y) * (n * x - t * y) == (n * n) * (x * x) - 2 * ((n * t) * (x * y)) + (t * t) * (y
            * y),
{
    let (a, b) = (n * x, t * y);
    assert((a - b) * (a - b) == a * a - 2 * (a * b) + b * b) by (nonlinear_arith);
    assert((n * x) * (n * x) == (n * n) * (x * x)) by (nonlinear_arith);
    assert((n * x) * (t * y) == (n * t) * (x * y)) by (nonlinear_arith);
    assert((t * y) * (t * y) == (t * t) * (y * y)) by (nonlinear_arith);
}

proof fn square_to_expands(p: Spot, a: Spot, b: Spot, t: int, n: int)
    ensures
        square_to(p, a, b, t, n) == (n * n) * square_apart(p, a) - 2 * ((n * t) * along(p, a, b)) + (t
            * t) * square_apart(b, a),
{
    let (x, y, u, v) = (p.x - a.x, p.y - a.y, b.x - a.x, b.y - a.y);
    square_of_difference(n, x, t, u);
    square_of_difference(n, y, t, v);
    let (nn, nt, tt) = (n * n, n * t, t * t);
    assert(nn * (x * x + y * y) == nn * (x * x) + nn * (y * y)) by (nonlinear_arith);
    assert(nt * (x * u + y * v) == nt * (x * u) + nt * (y * v)) by (nonlinear_arith);
    assert(tt * (u * u + v * v) == tt * (u * u) + tt * (v * v)) by (nonlinear_arith);
}

proof fn near_has_a_point(p: Spot, a: Spot, b: Spot, radius: int)
    requires
        on_screen(p),
        on_screen(a),
        on_screen(b),
        0 <= radius,
        from_segment(p, a, b) <= radius,
    ensures
        is_near(p, a, b, radius),
{
    reach_is_exact(p, a, b, radius);
    let len = square_apart(b, a);
    let t = along(p, a, b);
    squared_bound(b, a);
    let rr = radius * radius;
    if len == 0 || t <= 0 {
        assert(square_to(p, a, b, 0, 1) == square_apart(p, a)) by {
            square_to_expands(p, a, b, 0, 1);
        }
        assert(rr * (1 * 1) == rr) by (nonlinear_arith);
    } else if t >= len {
        let (x, y) = (p.x - b.x, p.y - b.y);
        assert(square_to(p, a, b, 1, 1) == x * x + y * y) by {
            assert(1 * (p.x - a.x) - 1 * (b.x - a.x) == x);
            assert(1 * (p.y - a.y) - 1 * (b.y - a.y) == y);
        }
        assert(rr * (1 * 1) == rr) by (nonlinear_arith);
    } else {
        square_to_expands(p, a, b, t, len);
        let (x, y, u, v) = (p.x - a.x, p.y - a.y, b.x - a.x, b.y - a.y);
        side_and_rest(x, y, u, v);
        let far = square_apart(p, a);
        let s = aside(p, a, b);
        let ss = s * s;
        assert(ss + t * t == far * len);
        assert((len * len) * far - 2 * ((len * t) * t) + (t * t) * len == len * ss)
            by (nonlinear_arith)
            requires
                ss + t * t == far * len,
        ;
        assert(len * ss <= rr * (len * len)) by (nonlinear_arith)
            requires
                ss <= rr * len,
                len > 0,
        ;
        assert(square_to(p, a, b, t, len) <= rr * (len * len));
    }
}

proof fn a_point_is_near(p: Spot, a: Spot, b: Spot, radius: int, t: int, n: int)
    requires
        on_screen(p),
        on_screen(a),
        on_screen(b),
        0 <= radius,
        0 <= t <= n,
        0 < n,
        square_to(p, a, b, t, n) <= radius * radius * (n * n),
    ensures
        from_segment(p, a, b) <= radius,
{
    reach_is_exact(p, a, b, radius);
    let len = square_apart(b, a);
    let s = along(p, a, b);
    squared_bound(b, a);
    let rr = radius * radius;
    let nn = n * n;
    assert(nn > 0) by (nonlinear_arith)
        requires
            nn == n * n,
            n > 0,
    ;
    let far = square_apart(p, a);
    square_to_expands(p, a, b, t, n);
    if len == 0 || s <= 0 {
        let (u, v) = (b.x - a.x, b.y - a.y);
        if len == 0 {
            assert(u == 0 && v == 0) by (nonlinear_arith)
                requires
                    u * u + v * v == 0,
            ;
            let (x, y) = (p.x - a.x, p.y - a.y);
            assert(x * u == 0 && y * v == 0) by (nonlinear_arith)
                requires
                    u == 0,
                    v == 0,
            ;
        }
        assert((n * t) * s <= 0) by (nonlinear_arith)
            requires
                s <= 0,
                t >= 0,
                n > 0,
        ;
        assert((t * t) * len >= 0) by (nonlinear_arith)
            requires
                len >= 0,
        ;
        assert(far <= rr) by (nonlinear_arith)
            requires
                nn * far <= rr * nn,
                nn > 0,
        ;
    } else if s >= len {
        // From the other end the rest of the way is as long.
        let m = n - t;
        square_to_expands(p, b, a, m, n);
        let (x, y) = (p.x - a.x, p.y - a.y);
        let (u, v) = (b.x - a.x, b.y - a.y);
        assert(n * (p.x - b.x) - m * (a.x - b.x) == n * x - t * u) by (nonlinear_arith)
            requires
                p.x - b.x == x - u,
                a.x - b.x == -u,
                m == n - t,
        ;
        assert(n * (p.y - b.y) - m * (a.y - b.y) == n * y - t * v) by (nonlinear_arith)
            requires
                p.y - b.y == y - v,
                a.y - b.y == -v,
                m == n - t,
        ;
        assert(square_to(p, b, a, m, n) == square_to(p, a, b, t, n));
        let back = along(p, b, a);
        assert(back == len - s) by {
            assert((x - u) * (-u) == u * u - x * u) by (nonlinear_arith);
            assert((y - v) * (-v) == v * v - y * v) by (nonlinear_arith);
        }
        assert((n * m) * back <= 0) by (nonlinear_arith)
            requires
                back <= 0,
                m >= 0,
                n > 0,
        ;
        squared_bound(a, b);
        let l = square_apart(a, b);
        assert((m * m) * l >= 0) by (nonlinear_arith)
            requires
                l >= 0,
        ;
        let end = square_apart(p, b);
        assert(end <= rr) by (nonlinear_arith)
            requires
                nn * end <= rr * nn,
                nn > 0,
        ;
    } else {
        let (x, y, u, v) = (p.x - a.x, p.y - a.y, b.x - a.x, b.y - a.y);
        side_and_rest(x, y, u, v);
        let c = aside(p, a, b);
        let cc = c * c;
        let q = square_to(p, a, b, t, n);
        let off = n * s - t * len;
        assert(cc + s * s == far * len);
        assert(len * q == nn * cc + off * off) by {
            assert(off * off == nn * (s * s) - 2 * ((n * t) * (s * len)) + (t * t) * (len * len)) by {
                square_of_difference(n, s, t, len);
            }
            let (a1, a2, a3) = (nn * far, (n * t) * s, (t * t) * len);
            assert(len * (a1 - 2 * a2 + a3) == len * a1 - 2 * (len * a2) + len * a3)
                by (nonlinear_arith);
            assert(len * (nn * far) == nn * (far * len)) by (nonlinear_arith);
            assert(len * ((n * t) * s) == (n * t) * (s * len)) by (nonlinear_arith);
            assert(len * ((t * t) * len) == (t * t) * (len * len)) by (nonlinear_arith);
            assert(nn * (cc + s * s) == nn * cc + nn * (s * s)) by (nonlinear_arith);
        }
        assert(off * off >= 0) by (nonlinear_arith);
        assert(nn * cc <= len * (rr * nn)) by (nonlinear_arith)
            requires
                len * q == nn * cc + off * off,
                off * off >= 0,
                q <= rr * nn,
                len > 0,
        ;
        assert(cc <= rr * len) by (nonlinear_arith)
            requires
                nn * cc <= len * (rr * nn),
                nn > 0,
        ;
    }
}

/// The distance to a segment is that to the nearest of its points: it is within
/// a radius just where some point of the segment is.
pub proof fn a_segment_is_as_near_as_its_nearest_point(p: Spot, a: Spot, b: Spot, radius: int)
    requires
        on_screen(p),
        on_screen(a),
        on_screen(b),
        0 <= radius,
    ensures
        from_segment(p, a, b) <= radius <==> is_near(p, a, b, radius),
{
    if from_segment(p, a, b) <= radius {
        near_has_a_point(p, a, b, radius);
    }
    if is_near(p, a, b, radius) {
        let (t, n) = choose|t: int, n: int|
            0 <= t <= n && 0 < n && #[trigger] square_to(p, a, b, t, n) <= radius * radius * (n * n);
        a_point_is_near(p, a, b, radius, t, n);
    }
}

/// Whether an axis from `o` to `e` is at least eight pixels long.
pub open spec fn is_long(o: Spot, e: Spot) -> bool {
    (e.x - o.x) * (e.x - o.x) + (e.y - o.y) * (e.y - o.y) >= (8 * PIXEL) * (8 * PIXEL)
}

/// The ends of the segment that a part of a gizmo is drawn along: the origin
/// and every tip alone, an axis from the origin to its tip, and an edge between
/// the tips of the two axes that it does not turn about.
pub open spec fn ends_of(g: Gizmo, part: GizmoPart) -> (Option<Spot>, Option<Spot>) {
    match part {
        GizmoPart::Origin => (g.origin, g.origin),
        GizmoPart::Tip(0) => (g.x, g.x),
        GizmoPart::Tip(1) => (g.y, g.y),
        GizmoPart::Tip(2) => (g.z, g.z),
        GizmoPart::Axis(0) => (g.origin, g.x),
        GizmoPart::Axis(1) => (g.origin, g.y),
        GizmoPart::Axis(2) => (g.origin, g.z),
        GizmoPart::RotEdge(0) => (g.y, g.z),
        GizmoPart::RotEdge(1) => (g.x, g.z),
        GizmoPart::RotEdge(2) => (g.x, g.y),
        _ => (None, None),
    }
}

/// How near the pointer has to be to a part: twelve pixels to an origin, eight
/// to a tip, seven to an axis or an edge.
pub open spec fn reach_of(part: GizmoPart) -> int {
    match part {
        GizmoPart::Origin => 12 * PIXEL,
        GizmoPart::Tip(_) => 8 * PIXEL,
        _ => 7 * PIXEL,
    }
}

/// What a part is favoured by: an origin by eight pixels and a tip by four.
pub open spec fn favour_of(part: GizmoPart) -> int {
    match part {
        GizmoPart::Origin => 8 * PIXEL,
        GizmoPart::Tip(_) => 4 * PIXEL,
        _ => 0,
    }
}

/// Whether the pointer is on a part of a gizmo: the part is drawn, its axes are
/// long enough, and the pointer is within reach of it. All but an origin belongs
/// to the selected transform alone.
pub open spec fn is_on(
    g: Gizmo,
    i: int,
    selected: Option<usize>,
    part: GizmoPart,
    cursor: Spot,
) -> bool {
    let (a, b) = ends_of(g, part);
    &&& g.origin is Some
    &&& a is Some
    &&& b is Some
    &&& part != GizmoPart::Origin ==> selected is Some && selected->0 == i
    &&& part is RotEdge || part is Tip ==> is_long(g.origin->0, a->0)
    &&& part != GizmoPart::Origin ==> is_long(g.origin->0, b->0)
    &&& is_near(cursor, a->0, b->0, reach_of(part))
}

/// How far the pointer is from a part, less what the part is favoured by.
pub open spec fn rank_of(g: Gizmo, part: GizmoPart, cursor: Spot) -> int {
    let (a, b) = ends_of(g, part);
    from_segment(cursor, a->0, b->0) - favour_of(part)
}

/// Whether the projections of a gizmo are near enough to be measured.
pub open spec fn is_shown(g: Gizmo) -> bool {
    maybe_on_screen(g.origin) && maybe_on_screen(g.x) && maybe_on_screen(g.y) && maybe_on_screen(
        g.z,
    )
}

proof fn long_is_long(g: Gizmo, k: int)
    requires
        g.origin is Some,
        end_of(g, k) is Some,
    ensures
        long_enough(g, k) <==> is_long(g.origin->0, end_of(g, k)->0),
{
    let (e, o) = (end_of(g, k)->0, g.origin->0);
    let sq = square_apart(e, o);
    let (x, y) = (e.x - o.x, e.y - o.y);
    assert(sq >= 0) by {
        assert(x * x >= 0) by (nonlinear_arith);
        assert(y * y >= 0) by (nonlinear_arith);
    }
    num::root_is_whole_part(sq as nat);
    let r = num::root(sq as nat) as int;
    let least = 8 * PIXEL;
    assert(r >= least <==> sq >= least * least) by (nonlinear_arith)
        requires
            r * r <= sq < (r + 1) * (r + 1),
            r >= 0,
            least == 524_288,
    ;
}

proof fn in_sum(a: Seq<Offer>, b: Seq<Offer>, o: Offer)
    ensures
        (a + b).contains(o) <==> a.contains(o) || b.contains(o),
{
    let s = a + b;
    if a.contains(o) {
        let k = choose|k: int| 0 <= k < a.len() && a[k] == o;
        assert(s[k] == o);
    }
    if b.contains(o) {
        let k = choose|k: int| 0 <= k < b.len() && b[k] == o;
        assert(s[a.len() + k] == o);
    }
    if s.contains(o) {
        let k = choose|k: int| 0 <= k < s.len() && s[k] == o;
        if k < a.len() {
            assert(a[k] == o);
        } else {
            assert(b[k - a.len()] == o);
        }
    }
}

/// Whether an offer is of a part that the pointer is on, at its rank.
spec fn is_true_offer(o: Offer, g: Gizmo, i: int, selected: Option<usize>, cursor: Spot) -> bool {
    &&& o.hit.transform == i
    &&& is_on(g, i, selected, o.hit.part, cursor)
    &&& o.score == rank_of(g, o.hit.part, cursor)
}

proof fn one_offer(distance: int, radius: int, bonus: int, i: int, part: GizmoPart, o: Offer)
    requires
        0 <= i <= usize::MAX,
    ensures
        offered(distance, radius, bonus, i, part).contains(o) <==> distance <= radius && o.score
            == distance - bonus && o.hit.transform == i && o.hit.part == part,
{
    let s = offered(distance, radius, bonus, i, part);
    if distance <= radius {
        assert(s[0].score == distance - bonus);
        if o.score == distance - bonus && o.hit.transform == i && o.hit.part == part {
            assert(s[0] == o);
        }
    }
}

proof fn tips_are_true(g: Gizmo, i: int, k: int, cursor: Spot, o: Offer)
    requires
        0 <= i <= usize::MAX,
        0 <= k < 3,
        is_shown(g),
        on_screen(cursor),
        g.origin is Some,
    ensures
        tip_offer(g, i, k, cursor).contains(o) <==> o.hit.part == GizmoPart::Tip(k as usize)
            && is_true_offer(o, g, i, Some(i as usize), cursor),
{
    if end_of(g, k) is Some {
        let e = end_of(g, k)->0;
        long_is_long(g, k);
        one_offer(
            from_segment(cursor, e, e),
            TIP_RADIUS as int,
            TIP_BONUS as int,
            i,
            GizmoPart::Tip(k as usize),
            o,
        );
        a_segment_is_as_near_as_its_nearest_point(cursor, e, e, 8 * PIXEL);
    }
}

proof fn axes_are_true(g: Gizmo, i: int, k: int, cursor: Spot, o: Offer)
    requires
        0 <= i <= usize::MAX,
        0 <= k < 3,
        is_shown(g),
        on_screen(cursor),
        g.origin is Some,
    ensures
        axis_offer(g, i, k, cursor).contains(o) <==> o.hit.part == GizmoPart::Axis(k as usize)
            && is_true_offer(o, g, i, Some(i as usize), cursor),
{
    if end_of(g, k) is Some {
        let e = end_of(g, k)->0;
        long_is_long(g, k);
        one_offer(
            from_segment(cursor, g.origin->0, e),
            EDGE_RADIUS as int,
            0,
            i,
            GizmoPart::Axis(k as usize),
            o,
        );
        a_segment_is_as_near_as_its_nearest_point(cursor, g.origin->0, e, 7 * PIXEL);
    }
}

proof fn edges_are_true(g: Gizmo, i: int, a: int, b: int, c: int, cursor: Spot, o: Offer)
    requires
        0 <= i <= usize::MAX,
        (a, b, c) == (0int, 1int, 2int) || (a, b, c) == (1int, 2int, 0int) || (a, b, c) == (
            0int,
            2int,
            1int,
        ),
        is_shown(g),
        on_screen(cursor),
        g.origin is Some,
    ensures
        edge_offer(g, i, a, b, c, cursor).contains(o) <==> o.hit.part == GizmoPart::RotEdge(
            c as usize,
        ) && is_true_offer(o, g, i, Some(i as usize), cursor),
{
    if end_of(g, a) is Some && end_of(g, b) is Some {
        let (e, f) = (end_of(g, a)->0, end_of(g, b)->0);
        long_is_long(g, a);
        long_is_long(g, b);
        one_offer(
            from_segment(cursor, e, f),
            EDGE_RADIUS as int,
            0,
            i,
            GizmoPart::RotEdge(c as usize),
            o,
        );
        a_segment_is_as_near_as_its_nearest_point(cursor, e, f, 7 * PIXEL);
    }
}

proof fn three_in_sum(a: Seq<Offer>, b: Seq<Offer>, c: Seq<Offer>, o: Offer)
    ensures
        (a + b + c).contains(o) <==> a.contains(o) || b.contains(o) || c.contains(o),
{
    in_sum(a, b, o);
    in_sum(a + b, c, o);
}

proof fn a_gizmo_offers_what_it_is_on(
    g: Gizmo,
    i: int,
    selected: Option<usize>,
    cursor: Spot,
    o: Offer,
)
    requires
        0 <= i <= usize::MAX,
        is_shown(g),
        on_screen(cursor),
    ensures
        gizmo_offers(g, i, selected, cursor).contains(o) <==> is_true_offer(o, g, i, selected, cursor),
{
    if g.origin is Some {
        let at = g.origin->0;
        one_offer(
            from_segment(cursor, at, at),
            ORIGIN_RADIUS as int,
            ORIGIN_BONUS as int,
            i,
            GizmoPart::Origin,
            o,
        );
        a_segment_is_as_near_as_its_nearest_point(cursor, at, at, 12 * PIXEL);
        tips_are_true(g, i, 0, cursor, o);
        tips_are_true(g, i, 1, cursor, o);
        tips_are_true(g, i, 2, cursor, o);
        axes_are_true(g, i, 0, cursor, o);
        axes_are_true(g, i, 1, cursor, o);
        axes_are_true(g, i, 2, cursor, o);
        edges_are_true(g, i, 0, 1, 2, cursor, o);
        edges_are_true(g, i, 1, 2, 0, cursor, o);
        edges_are_true(g, i, 0, 2, 1, cursor, o);
        three_in_sum(
            tip_offer(g, i, 0, cursor),
            tip_offer(g, i, 1, cursor),
            tip_offer(g, i, 2, cursor),
            o,
        );
        three_in_sum(
            axis_offer(g, i, 0, cursor),
            axis_offer(g, i, 1, cursor),
            axis_offer(g, i, 2, cursor),
            o,
        );
        three_in_sum(
            edge_offer(g, i, 0, 1, 2, cursor),
            edge_offer(g, i, 1, 2, 0, cursor),
            edge_offer(g, i, 0, 2, 1, cursor),
            o,
        );
        three_in_sum(
            tip_offers(g, i, cursor),
            axis_offers(g, i, cursor),
            edge_offers(g, i, cursor),
            o,
        );
        in_sum(origin_offer(g, i, cursor), handle_offers(g, i, cursor), o);
    }
}

proof fn all_offers_are_true(
    gizmos: Seq<Gizmo>,
    selected: Option<usize>,
    cursor: Spot,
    n: nat,
    o: Offer,
)
    requires
        n <= gizmos.len() <= usize::MAX,
        on_screen(cursor),
        forall|i: int| 0 <= i < gizmos.len() ==> is_shown(#[trigger] gizmos[i]),
    ensures
        all_offers(gizmos, selected, cursor, n).contains(o) <==> o.hit.transform < n && is_true_offer(
            o,
            gizmos[o.hit.transform as int],
            o.hit.transform as int,
            selected,
            cursor,
        ),
    decreases n,
{
    if n > 0 {
        let m = (n - 1) as nat;
        all_offers_are_true(gizmos, selected, cursor, m, o);
        a_gizmo_offers_what_it_is_on(gizmos[m as int], m as int, selected, cursor, o);
        in_sum(
            all_offers(gizmos, selected, cursor, m),
            gizmo_offers(gizmos[m as int], m as int, selected, cursor),
            o,
        );
    }
}

/// A pick is a part that the pointer is on, and of all of those one that ranks
/// first: nearest, less what it is favoured by. There is a pick wherever the
/// pointer is on something.
pub proof fn a_pick_is_what_the_pointer_is_on(
    gizmos: Seq<Gizmo>,
    selected: Option<usize>,
    cursor: Spot,
)
    requires
        gizmos.len() <= usize::MAX,
        on_screen(cursor),
        forall|i: int| 0 <= i < gizmos.len() ==> is_shown(#[trigger] gizmos[i]),
    ensures
        match best(all_offers(gizmos, selected, cursor, gizmos.len())) {
            Some(o) => {
                let g = gizmos[o.hit.transform as int];
                &&& o.hit.transform < gizmos.len()
                &&& is_on(g, o.hit.transform as int, selected, o.hit.part, cursor)
                &&& forall|j: int, part: GizmoPart|
                    0 <= j < gizmos.len() && #[trigger] is_on(gizmos[j], j, selected, part, cursor) ==> rank_of(g, o.hit.part, cursor) <= rank_of(gizmos[j], part, cursor)
            },
            None => forall|j: int, part: GizmoPart|
                0 <= j < gizmos.len() ==> !(#[trigger] is_on(gizmos[j], j, selected, part, cursor)),
        },
{
    let offers = all_offers(gizmos, selected, cursor, gizmos.len());
    assert forall|j: int, part: GizmoPart|
        0 <= j < gizmos.len() && #[trigger] is_on(gizmos[j], j, selected, part, cursor) implies offers.contains(
        Offer {
            score: rank_of(gizmos[j], part, cursor),
            hit: GizmoHit { transform: j as usize, part },
        },
    ) by {
        let o = Offer {
            score: rank_of(gizmos[j], part, cursor),
            hit: GizmoHit { transform: j as usize, part },
        };
        all_offers_are_true(gizmos, selected, cursor, gizmos.len(), o);
    }
    if offers.len() > 0 {
        the_lowest_score_wins(offers);
        let o = best(offers)->0;
        assert(offers.contains(o));
        all_offers_are_true(gizmos, selected, cursor, gizmos.len(), o);
        assert forall|j: int, part: GizmoPart|
            0 <= j < gizmos.len() && #[trigger] is_on(gizmos[j], j, selected, part, cursor) implies o.score <= rank_of(gizmos[j], part, cursor) by {
            let other = Offer {
                score: rank_of(gizmos[j], part, cursor),
                hit: GizmoHit { transform: j as usize, part },
            };
            assert(offers.contains(other));
            let k = choose|k: int| 0 <= k < offers.len() && offers[k] == other;
            assert(o.score <= offers[k].score);
        }
    } else {
        assert forall|j: int, part: GizmoPart|
            0 <= j < gizmos.len() implies !(#[trigger] is_on(gizmos[j], j, selected, part, cursor)) by {
            if is_on(gizmos[j], j, selected, part, cursor) {
                let other = Offer {
                    score: rank_of(gizmos[j], part, cursor),
                    hit: GizmoHit { transform: j as usize, part },
                };
                assert(offers.contains(other));
            }
        }
    }
}

/// An edge that is picked turns about the axis that it does not touch: the
/// pointer is within seven pixels of the segment between the tips of the two
/// other axes.
pub proof fn an_edge_turns_about_the_third_axis(
    gizmos: Seq<Gizmo>,
    selected: Option<usize>,
    cursor: Spot,
    c: usize,
)
    requires
        gizmos.len() <= usize::MAX,
        on_screen(cursor),
        forall|i: int| 0 <= i < gizmos.len() ==> is_shown(#[trigger] gizmos[i]),
        best(all_offers(gizmos, selected, cursor, gizmos.len())) is Some,
        best(all_offers(gizmos, selected, cursor, gizmos.len()))->0.hit.part == GizmoPart::RotEdge(c),
    ensures
        ({
            let i = best(all_offers(gizmos, selected, cursor, gizmos.len()))->0.hit.transform;
            let g = gizmos[i as int];
            &&& c < 3
            &&& selected == Some(i)
            &&& c != 0 ==> g.x is Some
            &&& c != 1 ==> g.y is Some
            &&& c != 2 ==> g.z is Some
            &&& c == 0 ==> is_near(cursor, g.y->0, g.z->0, 7 * PIXEL)
            &&& c == 1 ==> is_near(cursor, g.x->0, g.z->0, 7 * PIXEL)
            &&& c == 2 ==> is_near(cursor, g.x->0, g.y->0, 7 * PIXEL)
        }),
{
    a_pick_is_what_the_pointer_is_on(gizmos, selected, cursor);
}

} // verus!
