//! How long the graphics processor was busy: slots for timestamps, and a line
//! that sums them up.

use crate::text;
use vstd::prelude::*;

verus! {

/// Timestamps are written at both ends of a pass.
pub const SLOTS_PER_PASS: u32 = 2;

/// What a buffer that timestamps are resolved into is aligned to, in bytes.
pub const RESOLVE_ALIGNMENT: u64 = 256;

/// Times are counted in billionths of a millisecond: how many make one.
pub const MILLISECOND: u64 = 1_000_000_000;

/// The slots of a query set. Measuring stops when the set fills: a sample of
/// the first passes answers the question, and going round would mix two runs'
/// numbers into one mean.
#[derive(Clone, Copy, Debug, PartialEq, Eq, Structural)]
pub struct Slots {
    pub capacity: u32,
    pub used: u32,
}

impl Slots {
    /// Slots are claimed in pairs and never past the end.
    pub open spec fn valid(self) -> bool {
        &&& self.used <= self.capacity
        &&& self.capacity % 2 == 0
        &&& self.used % 2 == 0
    }

    /// Room for so many passes, and for one at least.
    pub fn new(passes: u32) -> (s: Slots)
        requires
            passes <= u32::MAX / 2,
        ensures
            s.valid(),
            s.used == 0,
            s.capacity == 2 * (if passes == 0 {
                1
            } else {
                passes as int
            }),
    {
        let p: u32 = if passes == 0 {
            1
        } else {
            passes
        };
        Slots { capacity: p * SLOTS_PER_PASS, used: 0 }
    }

    /// How many bytes the resolved timestamps take, rounded up to what they
    /// are aligned to.
    pub fn buffer_bytes(self) -> (n: u64)
        ensures
            n % RESOLVE_ALIGNMENT == 0,
            8 * self.capacity <= n < 8 * self.capacity + RESOLVE_ALIGNMENT,
    {
        let bytes: u64 = self.capacity as u64 * 8;
        let up: u64 = (bytes + (RESOLVE_ALIGNMENT - 1)) / RESOLVE_ALIGNMENT;
        assert(up * 256 <= bytes + 255 && up * 256 >= bytes && up * 256 % 256 == 0);
        up * RESOLVE_ALIGNMENT
    }

    /// Claim the two slots of one pass: the first of them, or nothing once the
    /// set is full.
    pub fn claim(&mut self) -> (base: Option<u32>)
        requires
            old(self).valid(),
        ensures
            final(self).valid(),
            final(self).capacity == old(self).capacity,
            base is None <==> old(self).used == old(self).capacity,
            base is None ==> final(self).used == old(self).used,
            base matches Some(b) ==> b == old(self).used && final(self).used == old(self).used + 2,
    {
        if self.capacity - self.used < SLOTS_PER_PASS {
            return None;
        }
        let base: u32 = self.used;
        self.used = self.used + SLOTS_PER_PASS;
        Some(base)
    }

    /// How many passes have been measured so far.
    pub fn measured(&self) -> (n: u32)
        ensures
            n == self.used / 2,
    {
        self.used / SLOTS_PER_PASS
    }

    /// Whether there is no room for another pass.
    pub fn is_full(&self) -> (b: bool)
        requires
            self.valid(),
        ensures
            b == (self.used == self.capacity),
    {
        self.capacity - self.used < SLOTS_PER_PASS
    }
}

/// How long pass `i` took, in ticks: nothing where its end is not after its
/// beginning, which is a driver's quirk and no negative duration.
pub open spec fn pass_ticks(ticks: Seq<u64>, i: int) -> u64 {
    if ticks[2 * i + 1] > ticks[2 * i] {
        (ticks[2 * i + 1] - ticks[2 * i]) as u64
    } else {
        0
    }
}

/// How long each pass took, from the timestamps at its two ends. A timestamp
/// without a partner is left out.
pub fn durations(ticks: &Vec<u64>) -> (v: Vec<u64>)
    ensures
        v@.len() == ticks@.len() / 2,
        forall|i: int| 0 <= i < v@.len() ==> #[trigger] v@[i] == pass_ticks(ticks@, i),
{
    let len: usize = ticks.len();
    let n: usize = len / 2;
    let mut v: Vec<u64> = Vec::new();
    let mut i: usize = 0;
    while i < n
        invariant
            i <= n,
            n == len / 2,
            len == ticks@.len(),
            v@.len() == i,
            forall|k: int| 0 <= k < i ==> #[trigger] v@[k] == pass_ticks(ticks@, k),
        decreases n - i,
    {
        let a: u64 = ticks[2 * i];
        let b: u64 = ticks[2 * i + 1];
        let d: u64 = if b > a {
            b - a
        } else {
            0
        };
        v.push(d);
        i += 1;
    }
    v
}

/// `s` in order with `x` put in its place.
pub open spec fn inserted(s: Seq<u64>, x: u64) -> Seq<u64>
    decreases s.len(),
{
    if s.len() == 0 || s.last() <= x {
        s.push(x)
    } else {
        inserted(s.drop_last(), x).push(s.last())
    }
}

/// The numbers in order.
pub open spec fn sorted(s: Seq<u64>) -> Seq<u64>
    decreases s.len(),
{
    if s.len() == 0 {
        s
    } else {
        inserted(sorted(s.drop_last()), s.last())
    }
}

/// The numbers added up.
pub open spec fn total(s: Seq<u64>) -> nat
    decreases s.len(),
{
    if s.len() == 0 {
        0
    } else {
        total(s.drop_last()) + s.last() as nat
    }
}

/// No number is before a smaller one.
pub open spec fn in_order(s: Seq<u64>) -> bool {
    forall|i: int, j: int| 0 <= i <= j < s.len() ==> s[i] <= s[j]
}

proof fn inserted_keeps(s: Seq<u64>, x: u64)
    ensures
        inserted(s, x).len() == s.len() + 1,
        inserted(s, x).to_multiset() == s.to_multiset().insert(x),
        in_order(s) ==> in_order(inserted(s, x)),
        in_order(s) && s.len() > 0 && s.last() > x ==> inserted(s, x).last() == s.last(),
        s.len() == 0 || s.last() <= x ==> inserted(s, x).last() == x,
    decreases s.len(),
{
    broadcast use vstd::seq_lib::group_to_multiset_ensures;

    if s.len() == 0 || s.last() <= x {
    } else {
        let t = s.drop_last();
        inserted_keeps(t, x);
        let r = inserted(t, x);
        assert(s =~= t.push(s.last()));
        assert(s.to_multiset().insert(x) =~= t.to_multiset().insert(s.last()).insert(x));
        assert(inserted(s, x).to_multiset() =~= t.to_multiset().insert(x).insert(s.last()));
        assert(t.to_multiset().insert(s.last()).insert(x) =~= t.to_multiset().insert(x).insert(
            s.last(),
        ));
        if in_order(s) {
            assert(in_order(t)) by {
                assert forall|i: int, j: int| 0 <= i <= j < t.len() implies t[i] <= t[j] by {
                    assert(s[i] <= s[j]);
                }
            }
            assert(r.last() <= s.last()) by {
                if t.len() > 0 {
                    assert(s[t.len() - 1] <= s[s.len() - 1]);
                }
            }
            let w = r.push(s.last());
            assert forall|i: int, j: int| 0 <= i <= j < w.len() implies w[i] <= w[j] by {
                if j < r.len() {
                    assert(r[i] <= r[j]);
                } else if i < r.len() {
                    assert(r[i] <= r[r.len() - 1]);
                }
            }
        }
    }
}

/// Sorting puts the numbers in order, and keeps them: none is lost and none
/// is made up.
pub proof fn sorting_keeps_the_numbers(s: Seq<u64>)
    ensures
        sorted(s).len() == s.len(),
        in_order(sorted(s)),
        sorted(s).to_multiset() == s.to_multiset(),
    decreases s.len(),
{
    broadcast use vstd::seq_lib::group_to_multiset_ensures;

    if s.len() > 0 {
        sorting_keeps_the_numbers(s.drop_last());
        inserted_keeps(sorted(s.drop_last()), s.last());
        assert(s =~= s.drop_last().push(s.last()));
    }
}

fn insert_in_order(s: &mut Vec<u64>, x: u64)
    ensures
        final(s)@ == inserted(old(s)@, x),
    decreases old(s)@.len(),
{
    let n: usize = s.len();
    if n == 0 || s[n - 1] <= x {
        s.push(x);
    } else {
        let ghost before = s@;
        match s.pop() {
            Some(last) => {
                assert(s@ =~= before.drop_last());
                insert_in_order(s, x);
                s.push(last);
            },
            None => {},
        }
    }
}

fn sort(v: &Vec<u64>) -> (s: Vec<u64>)
    ensures
        s@ == sorted(v@),
{
    let mut s: Vec<u64> = Vec::new();
    let mut i: usize = 0;
    assert(v@.take(0) =~= Seq::empty());
    assert(s@ =~= Seq::empty());
    while i < v.len()
        invariant
            i <= v@.len(),
            s@ == sorted(v@.take(i as int)),
        decreases v@.len() - i,
    {
        assert(v@.take(i + 1).drop_last() =~= v@.take(i as int));
        insert_in_order(&mut s, v[i]);
        i += 1;
    }
    assert(v@.take(i as int) =~= v@);
    s
}

/// What a line on some pass times says: how many, how long in all, and the
/// mean and the median, since the first pass of a run carries warmup that a
/// mean overstates the steady state by.
pub open spec fn summary_text(label: Seq<char>, ms: Seq<u64>) -> Seq<char> {
    let unit = MILLISECOND as nat;
    let n = ms.len();
    if n == 0 {
        label + ": no timings (device has no TIMESTAMP_QUERY)"@
    } else {
        let s = sorted(ms);
        label + ": "@ + text::decimal(n) + " passes, "@ + text::ratio_text(total(ms), unit, 3)
            + " ms total, mean "@ + text::ratio_text(total(ms), unit * n, 4) + " ms, median "@
            + text::ratio_text(s[n as int / 2] as nat, unit, 4) + " ms, min "@ + text::ratio_text(
            s[0] as nat,
            unit,
            4,
        ) + ", max "@ + text::ratio_text(s[n - 1] as nat, unit, 4)
    }
}

fn sum(v: &Vec<u64>) -> (t: u128)
    requires
        v@.len() <= 0x1_0000_0000,
    ensures
        t == total(v@),
        t <= 0x1_0000_0000 * 0xFFFF_FFFF_FFFF_FFFF,
{
    let mut t: u128 = 0;
    let mut i: usize = 0;
    assert(v@.take(0) =~= Seq::empty());
    while i < v.len()
        invariant
            i <= v@.len() <= 0x1_0000_0000,
            t == total(v@.take(i as int)),
            t <= i * 0xFFFF_FFFF_FFFF_FFFF,
        decreases v@.len() - i,
    {
        assert(v@.take(i + 1).drop_last() =~= v@.take(i as int));
        t = t + v[i] as u128;
        i += 1;
    }
    assert(v@.take(i as int) =~= v@);
    t
}

fn push_ms(out: &mut String, v: u64)
    ensures
        final(out)@ == old(out)@ + text::ratio_text(v as nat, MILLISECOND as nat, 4),
{
    assert(text::pow10(4) == 10_000) by {
        reveal_with_fuel(text::pow10, 5);
    }
    text::push_ratio(out, v as u128, MILLISECOND as u128, 4);
}

/// A line on some pass times, in billionths of a millisecond.
pub fn summarize(label: &str, ms: &Vec<u64>) -> (line: String)
    requires
        ms@.len() <= 0x1_0000_0000,
    ensures
        line@ == summary_text(label@, ms@),
{
    let n: usize = ms.len();
    let mut line = String::new();
    line.append(label);
    if n == 0 {
        line.append(": no timings (device has no TIMESTAMP_QUERY)");
        assert(line@ =~= summary_text(label@, ms@));
        return line;
    }
    let s = sort(ms);
    let t: u128 = sum(ms);
    proof {
        sorting_keeps_the_numbers(ms@);
        assert(text::pow10(3) == 1000 && text::pow10(4) == 10_000) by {
            reveal_with_fuel(text::pow10, 5);
        }
        assert(0 < MILLISECOND * n <= 1_000_000_000 * 0x1_0000_0000) by (nonlinear_arith)
            requires
                0 < n <= 0x1_0000_0000,
                MILLISECOND == 1_000_000_000,
        ;
    }
    let unit: u128 = MILLISECOND as u128;
    line.append(": ");
    text::push_decimal(&mut line, n as u128);
    line.append(" passes, ");
    text::push_ratio(&mut line, t, unit, 3);
    line.append(" ms total, mean ");
    text::push_ratio(&mut line, t, unit * n as u128, 4);
    line.append(" ms, median ");
    push_ms(&mut line, s[n / 2]);
    line.append(" ms, min ");
    push_ms(&mut line, s[0]);
    line.append(", max ");
    push_ms(&mut line, s[n - 1]);
    assert(line@ =~= summary_text(label@, ms@));
    line
}

/// A summary tells the sum and the mean of all passes, the shortest and the
/// longest of them, and one that has as many on either side: no more than half
/// of them are shorter, and no more than half longer.
pub proof fn a_summary_tells_of_all_passes(label: Seq<char>, ms: Seq<u64>)
    requires
        ms.len() > 0,
    ensures
        exists|low: u64, mid: u64, high: u64|
            #![trigger told(label, ms, low, mid, high)]
            {
                &&& ms.contains(low) && ms.contains(mid) && ms.contains(high)
                &&& forall|i: int| 0 <= i < ms.len() ==> low <= #[trigger] ms[i] <= high
                &&& is_middle(ms, mid)
                &&& summary_text(label, ms) == told(label, ms, low, mid, high)
            },
{
    let s = sorted(ms);
    let n = ms.len() as int;
    sorting_keeps_the_numbers(ms);
    let (low, mid, high) = (s[0], s[n / 2], s[n - 1]);
    assert forall|i: int| 0 <= i < n implies low <= #[trigger] ms[i] <= high by {
        same_numbers(s, ms, i);
        let k = choose|k: int| 0 <= k < s.len() && s[k] == ms[i];
        assert(s[0] <= s[k] <= s[n - 1]);
    }
    same_numbers(ms, s, 0);
    same_numbers(ms, s, n / 2);
    same_numbers(ms, s, n - 1);
    assert(is_middle(ms, mid)) by {
        assert(sorted(ms)[n / 2] == mid);
    }
    let unit = MILLISECOND as nat;
    assert(summary_text(label, ms) =~= told(label, ms, low, mid, high));
}

/// Whether a number stands in the middle of others once they are in order.
pub open spec fn is_middle(ms: Seq<u64>, mid: u64) -> bool {
    exists|s: Seq<u64>|
        #![trigger in_order(s)]
        in_order(s) && s.to_multiset() == ms.to_multiset() && s.len() == ms.len() && s[s.len() as int
            / 2] == mid
}

/// What a summary tells of passes.
pub open spec fn told(label: Seq<char>, ms: Seq<u64>, low: u64, mid: u64, high: u64) -> Seq<char> {
    let n = ms.len();
    label + ": "@ + text::decimal(n) + " passes, "@ + text::ratio_text(total(ms), 1_000_000_000, 3)
        + " ms total, mean "@ + text::ratio_text(total(ms), 1_000_000_000 * n, 4) + " ms, median "@
        + text::ratio_text(mid as nat, 1_000_000_000, 4) + " ms, min "@ + text::ratio_text(
        low as nat,
        1_000_000_000,
        4,
    ) + ", max "@ + text::ratio_text(high as nat, 1_000_000_000, 4)
}

proof fn same_numbers(a: Seq<u64>, b: Seq<u64>, i: int)
    requires
        a.to_multiset() == b.to_multiset(),
        0 <= i < b.len(),
    ensures
        a.contains(b[i]),
{
    b.to_multiset_ensures();
    a.to_multiset_ensures();
    assert(b.contains(b[i]));
    assert(b.to_multiset().count(b[i]) > 0);
    assert(a.to_multiset().count(b[i]) > 0);
}

/// The total is of all passes, whatever comes last, and a pass takes what lies
/// between its two ticks.
pub proof fn passes_add_up(s: Seq<u64>, x: u64, ticks: Seq<u64>, i: int)
    ensures
        total(Seq::<u64>::empty()) == 0,
        total(s.push(x)) == total(s) + x,
        ticks[2 * i] <= ticks[2 * i + 1] ==> ticks[2 * i] + pass_ticks(ticks, i) == ticks[2 * i + 1],
        ticks[2 * i] > ticks[2 * i + 1] ==> pass_ticks(ticks, i) == 0,
{
    assert(s.push(x).drop_last() =~= s);
}

} // verus!
