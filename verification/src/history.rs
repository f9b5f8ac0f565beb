//! Unified undo/redo history: a single snapshot-based stack covering every
//! edit of the document.
//!
//! Both stacks store the "before" snapshot of each entry; `undo` and `redo`
//! pop one entry, push the current state onto the opposite stack, and return
//! the popped entry's `before` to restore. A commit clears the redo stack
//! unless it coalesces: one that carries the newest entry's key and lands
//! within the coalescing window of it merges into that entry, keeps the
//! entry's original `before`, and leaves the redo stack alone.

use vstd::prelude::*;
use crate::text;

verus! {

/// How long a coalescing key stays hot, in milliseconds.
pub const COALESCE_WINDOW: u64 = 1000;

/// Default entry-count cap.
pub const DEFAULT_MAX_ENTRIES: usize = 64;

/// Default estimated-bytes cap.
pub const DEFAULT_MAX_BYTES: usize = 134_217_728;

/// Entries the byte cap may never take, however large the snapshots are.
pub const MIN_ENTRIES: usize = 10;

/// Everything an edit can touch, captured whole, with the number of transforms
/// that its size is estimated from.
pub struct EditSnapshot<S> {
    pub scene: S,
    pub transforms: usize,
}

impl<S> EditSnapshot<S> {
    /// The estimated memory footprint.
    pub open spec fn weight(&self) -> nat {
        (self.transforms * 176 + 4096) as nat
    }

    /// Rough memory footprint, for the byte cap.
    pub fn estimated_bytes(&self) -> (n: usize)
        requires
            self.weight() <= usize::MAX,
        ensures
            n == self.weight(),
    {
        self.transforms * 176 + 4096
    }
}

/// One undoable or redoable action.
pub struct HistoryEntry<S> {
    pub label: String,
    /// Coalescing key; `None` never coalesces.
    pub key: Option<String>,
    /// When the entry was last committed to, in milliseconds.
    pub at: u64,
    pub before: EditSnapshot<S>,
    /// Names the document state this entry produced. It travels with the entry
    /// between the stacks.
    pub serial: u64,
}

/// An entry as the contracts speak of it.
pub struct Step<S> {
    pub label: Seq<char>,
    pub key: Option<Seq<char>>,
    pub at: nat,
    pub before: EditSnapshot<S>,
    pub serial: nat,
}

/// The history as the contracts speak of it: oldest entry first.
#[verifier::ext_equal]
pub struct Stacks<S> {
    pub undo: Seq<Step<S>>,
    pub redo: Seq<Step<S>>,
    pub max_entries: nat,
    pub max_bytes: nat,
    pub dropped: nat,
    pub next_serial: nat,
}

/// What an optional text reads.
pub open spec fn key_view(key: Option<String>) -> Option<Seq<char>> {
    match key {
        Some(k) => Some(k@),
        None => None,
    }
}

impl<S> HistoryEntry<S> {
    pub open spec fn view(&self) -> Step<S> {
        Step {
            label: self.label@,
            key: key_view(self.key),
            at: self.at as nat,
            before: self.before,
            serial: self.serial as nat,
        }
    }
}

/// The entries of a stack.
pub open spec fn steps<S>(stack: Seq<HistoryEntry<S>>) -> Seq<Step<S>> {
    Seq::new(stack.len(), |i: int| stack[i].view())
}

/// The bytes that a stack's snapshots are estimated at.
pub open spec fn total_bytes<S>(s: Seq<Step<S>>) -> nat
    decreases s.len(),
{
    if s.len() == 0 {
        0
    } else {
        s[0].before.weight() + total_bytes(s.drop_first())
    }
}

/// The number of entries that the byte cap leaves alone.
pub open spec fn floor_of(max_entries: nat) -> nat {
    if MIN_ENTRIES < max_entries {
        MIN_ENTRIES as nat
    } else {
        max_entries
    }
}

/// Whether a stack is within both caps.
pub open spec fn fits<S>(s: Seq<Step<S>>, max_entries: nat, max_bytes: nat) -> bool {
    &&& s.len() <= max_entries
    &&& s.len() <= floor_of(max_entries) || total_bytes(s) <= max_bytes
}

/// What is left of a stack when its oldest entries go until it is within both
/// caps.
pub open spec fn evicted<S>(s: Seq<Step<S>>, max_entries: nat, max_bytes: nat) -> Seq<Step<S>>
    decreases s.len(),
{
    if s.len() == 0 || fits(s, max_entries, max_bytes) {
        s
    } else {
        evicted(s.drop_first(), max_entries, max_bytes)
    }
}

/// Every serial along the document's timeline: what was done, oldest first,
/// then what can be redone, next first.
pub open spec fn timeline<S>(undo: Seq<Step<S>>, redo: Seq<Step<S>>) -> Seq<nat> {
    Seq::new(
        undo.len() + redo.len(),
        |i: int|
            if i < undo.len() {
                undo[i].serial
            } else {
                redo[undo.len() + redo.len() - 1 - i].serial
            },
    )
}

impl<S> Stacks<S> {
    /// Serials are used once along the timeline, both stacks are within the
    /// caps, and no more entries were dropped than were ever made.
    pub open spec fn valid(self) -> bool {
        &&& forall|i: int, j: int|
            0 <= i < j < self.undo.len() + self.redo.len() ==> #[trigger] timeline(
                self.undo,
                self.redo,
            )[i] != #[trigger] timeline(self.undo, self.redo)[j]
        &&& forall|i: int|
            0 <= i < self.undo.len() + self.redo.len() ==> #[trigger] timeline(
                self.undo,
                self.redo,
            )[i] < self.next_serial
        &&& fits(self.undo, self.max_entries, self.max_bytes)
        &&& fits(self.redo, self.max_entries, self.max_bytes)
        &&& self.dropped + self.undo.len() + self.redo.len() <= self.next_serial
    }

    /// The state that the stacks are at, by name.
    pub open spec fn top(self) -> Option<nat> {
        if self.undo.len() == 0 {
            None
        } else {
            Some(self.undo.last().serial)
        }
    }

    /// Whether a commit under `key` at `now` merges into the newest entry.
    pub open spec fn coalesces(self, key: Option<Seq<char>>, now: nat) -> bool {
        &&& key is Some
        &&& self.undo.len() > 0
        &&& self.undo.last().key == key
        &&& now < self.undo.last().at + COALESCE_WINDOW
    }

    /// The history after a commit.
    pub open spec fn committed(
        self,
        label: Seq<char>,
        key: Option<Seq<char>>,
        before: EditSnapshot<S>,
        now: nat,
    ) -> Stacks<S> {
        if self.coalesces(key, now) {
            Stacks {
                undo: self.undo.drop_last().push(
                    Step { at: now, serial: self.next_serial, ..self.undo.last() },
                ),
                next_serial: self.next_serial + 1,
                ..self
            }
        } else {
            let serial = if key is Some {
                self.next_serial + 1
            } else {
                self.next_serial
            };
            let grown = self.undo.push(Step { label, key, at: now, before, serial });
            let left = evicted(grown, self.max_entries, self.max_bytes);
            Stacks {
                undo: left,
                redo: Seq::empty(),
                next_serial: serial + 1,
                dropped: (self.dropped + grown.len() - left.len()) as nat,
                ..self
            }
        }
    }

    /// The history after undoing one entry from the state `current`.
    pub open spec fn undone(self, current: EditSnapshot<S>) -> Stacks<S> {
        let e = self.undo.last();
        Stacks {
            undo: self.undo.drop_last(),
            redo: evicted(
                self.redo.push(Step { key: None, before: current, ..e }),
                self.max_entries,
                self.max_bytes,
            ),
            ..self
        }
    }

    /// The history after redoing one entry from the state `current`.
    pub open spec fn redone(self, current: EditSnapshot<S>) -> Stacks<S> {
        let e = self.redo.last();
        let grown = self.undo.push(Step { key: None, before: current, ..e });
        let left = evicted(grown, self.max_entries, self.max_bytes);
        Stacks {
            undo: left,
            redo: self.redo.drop_last(),
            dropped: (self.dropped + grown.len() - left.len()) as nat,
            ..self
        }
    }

    /// The history after undoing `n` entries, and the state that it restores.
    pub open spec fn undone_by(self, n: nat, current: EditSnapshot<S>) -> (
        Stacks<S>,
        EditSnapshot<S>,
    )
        decreases n,
    {
        if n == 0 {
            (self, current)
        } else {
            self.undone(current).undone_by((n - 1) as nat, self.undo.last().before)
        }
    }

    /// The history after redoing `n` entries, and the state that it restores.
    pub open spec fn redone_by(self, n: nat, current: EditSnapshot<S>) -> (
        Stacks<S>,
        EditSnapshot<S>,
    )
        decreases n,
    {
        if n == 0 {
            (self, current)
        } else {
            self.redone(current).redone_by((n - 1) as nat, self.redo.last().before)
        }
    }
}

/// Eviction leaves the newest entries: a stretch at the end of the stack that
/// is within both caps, and the longest such stretch.
pub proof fn eviction_takes_the_oldest<S>(s: Seq<Step<S>>, max_entries: nat, max_bytes: nat)
    ensures
        evicted(s, max_entries, max_bytes).len() <= s.len(),
        evicted(s, max_entries, max_bytes) == s.skip(
            s.len() - evicted(s, max_entries, max_bytes).len(),
        ),
        fits(evicted(s, max_entries, max_bytes), max_entries, max_bytes),
        forall|k: int|
            0 <= k < s.len() - evicted(s, max_entries, max_bytes).len() ==> !fits(
                #[trigger] s.skip(k),
                max_entries,
                max_bytes,
            ),
    decreases s.len(),
{
    let e = evicted(s, max_entries, max_bytes);
    if s.len() == 0 || fits(s, max_entries, max_bytes) {
        assert(s.skip(0) =~= s);
    } else {
        let t = s.drop_first();
        eviction_takes_the_oldest(t, max_entries, max_bytes);
        assert(e =~= s.skip(s.len() - e.len())) by {
            assert(t.skip(t.len() - e.len()) =~= s.skip(s.len() - e.len()));
        }
        assert forall|k: int| 0 <= k < s.len() - e.len() implies !fits(
            #[trigger] s.skip(k),
            max_entries,
            max_bytes,
        ) by {
            if k == 0 {
                assert(s.skip(0) =~= s);
            } else {
                assert(s.skip(k) =~= t.skip(k - 1));
            }
        }
    }
}

proof fn total_bytes_appends<S>(s: Seq<Step<S>>, e: Step<S>)
    ensures
        total_bytes(s.push(e)) == total_bytes(s) + e.before.weight(),
    decreases s.len(),
{
    if s.len() == 0 {
        assert(s.push(e).drop_first() =~= Seq::<Step<S>>::empty());
        assert(total_bytes(Seq::<Step<S>>::empty()) == 0);
    } else {
        assert(s.push(e).drop_first() =~= s.drop_first().push(e));
        total_bytes_appends(s.drop_first(), e);
    }
}

/// Taking the newest entry off keeps a stack within the caps.
proof fn fits_without_last<S>(s: Seq<Step<S>>, max_entries: nat, max_bytes: nat)
    requires
        s.len() > 0,
        fits(s, max_entries, max_bytes),
    ensures
        fits(s.drop_last(), max_entries, max_bytes),
{
    total_bytes_appends(s.drop_last(), s.last());
    assert(s.drop_last().push(s.last()) =~= s);
}

/// Two stacks whose snapshots weigh the same fit alike.
proof fn fits_by_weight<S>(a: Seq<Step<S>>, b: Seq<Step<S>>)
    requires
        a.len() == b.len(),
        forall|i: int| 0 <= i < a.len() ==> (#[trigger] a[i]).before.weight() == b[i].before.weight(),
    ensures
        total_bytes(a) == total_bytes(b),
    decreases a.len(),
{
    if a.len() > 0 {
        assert forall|i: int| 0 <= i < a.drop_first().len() implies (
        #[trigger] a.drop_first()[i]).before.weight() == b.drop_first()[i].before.weight() by {
            assert(a.drop_first()[i] == a[i + 1]);
        }
        fits_by_weight(a.drop_first(), b.drop_first());
    }
}

/// A stack that may hold an entry keeps its newest one through eviction.
proof fn eviction_keeps_the_newest<S>(s: Seq<Step<S>>, max_entries: nat, max_bytes: nat)
    requires
        s.len() > 0,
        max_entries > 0,
    ensures
        evicted(s, max_entries, max_bytes).len() > 0,
        evicted(s, max_entries, max_bytes).last() == s.last(),
    decreases s.len(),
{
    if s.len() > 1 && !fits(s, max_entries, max_bytes) {
        eviction_keeps_the_newest(s.drop_first(), max_entries, max_bytes);
    }
}

/// A commit keeps the history valid.
pub proof fn commit_keeps_valid<S>(
    m: Stacks<S>,
    label: Seq<char>,
    key: Option<Seq<char>>,
    before: EditSnapshot<S>,
    now: nat,
)
    requires
        m.valid(),
    ensures
        m.committed(label, key, before, now).valid(),
{
    let c = m.committed(label, key, before, now);
    assert(forall|i: int|
        0 <= i < m.undo.len() ==> timeline(m.undo, m.redo)[i] == #[trigger] m.undo[i].serial);
    if m.coalesces(key, now) {
        fits_by_weight(m.undo, c.undo);
    } else {
        let serial = if key is Some {
            m.next_serial + 1
        } else {
            m.next_serial
        };
        let grown = m.undo.push(Step { label, key, at: now, before, serial });
        eviction_takes_the_oldest(grown, m.max_entries, m.max_bytes);
        let gone = grown.len() - c.undo.len();
        assert(forall|i: int| 0 <= i < c.undo.len() ==> #[trigger] c.undo[i] == grown[i + gone]);
    }
    let t = timeline(m.undo, m.redo);
    let u = timeline(c.undo, c.redo);
    if m.coalesces(key, now) {
        let top = m.undo.len() - 1;
        assert(u[top] == m.next_serial);
        assert(forall|i: int| 0 <= i < u.len() && i != top ==> #[trigger] u[i] == t[i]);
    } else {
        let serial = if key is Some {
            m.next_serial + 1
        } else {
            m.next_serial
        };
        let grown = m.undo.push(Step { label, key, at: now, before, serial });
        let gone = grown.len() - c.undo.len();
        assert forall|i: int| 0 <= i < u.len() implies #[trigger] u[i] == (if i + gone
            < m.undo.len() {
            t[i + gone]
        } else {
            serial
        }) by {
            assert(c.undo[i] == grown[i + gone]);
        }
    }
    assert(total_bytes(Seq::<Step<S>>::empty()) == 0);
}

/// Undoing an entry keeps the history valid.
pub proof fn undo_keeps_valid<S>(m: Stacks<S>, current: EditSnapshot<S>)
    requires
        m.valid(),
        m.undo.len() > 0,
    ensures
        m.undone(current).valid(),
{
    let c = m.undone(current);
    let e = m.undo.last();
    let grown = m.redo.push(Step { key: None, before: current, ..e });
    eviction_takes_the_oldest(grown, m.max_entries, m.max_bytes);
    fits_without_last(m.undo, m.max_entries, m.max_bytes);
    let gone = grown.len() - c.redo.len();
    let n = m.undo.len() + m.redo.len();
    assert forall|i: int| 0 <= i < c.undo.len() + c.redo.len() implies #[trigger] timeline(
        c.undo,
        c.redo,
    )[i] == timeline(m.undo, m.redo)[i] by {
        if i >= c.undo.len() {
            let k = c.undo.len() + c.redo.len() - 1 - i;
            assert(c.redo[k] == grown[k + gone]);
        }
    }
}

/// Redoing an entry keeps the history valid.
pub proof fn redo_keeps_valid<S>(m: Stacks<S>, current: EditSnapshot<S>)
    requires
        m.valid(),
        m.redo.len() > 0,
    ensures
        m.redone(current).valid(),
{
    let c = m.redone(current);
    let e = m.redo.last();
    let grown = m.undo.push(Step { key: None, before: current, ..e });
    eviction_takes_the_oldest(grown, m.max_entries, m.max_bytes);
    fits_without_last(m.redo, m.max_entries, m.max_bytes);
    let gone = grown.len() - c.undo.len();
    assert forall|i: int| 0 <= i < c.undo.len() + c.redo.len() implies #[trigger] timeline(
        c.undo,
        c.redo,
    )[i] == timeline(m.undo, m.redo)[i + gone] by {
        if i < c.undo.len() {
            assert(c.undo[i] == grown[i + gone]);
        }
    }
}

/// The labels of a stack.
pub open spec fn labels<S>(s: Seq<Step<S>>) -> Seq<Seq<char>> {
    Seq::new(s.len(), |i: int| s[i].label)
}

/// Undoing and then redoing comes back: the redo hands back the state that
/// the undo started from, under the same label, and the history reads as the
/// same document with the same entries (the entry that went round no longer
/// coalesces). Where the caps leave room for the entry to be redone, nothing
/// that could be redone before is lost either.
pub proof fn undo_then_redo_comes_back<S>(m: Stacks<S>, current: EditSnapshot<S>)
    requires
        m.valid(),
        m.undo.len() > 0,
    ensures
        ({
            let restored = m.undo.last().before;
            let back = m.undone(current);
            let again = back.redone(restored);
            &&& back.redo.len() > 0
            &&& back.redo.last().before == current
            &&& back.redo.last().label == m.undo.last().label
            &&& again.top() == m.top()
            &&& again.undo == m.undo.drop_last().push(Step { key: None, ..m.undo.last() })
            &&& labels(again.undo) == labels(m.undo)
            &&& again.dropped == m.dropped
            &&& fits(
                m.redo.push(Step { key: None, before: current, ..m.undo.last() }),
                m.max_entries,
                m.max_bytes,
            ) ==> again.redo == m.redo
        }),
{
    let restored = m.undo.last().before;
    let e = m.undo.last();
    let grown = m.redo.push(Step { key: None, before: current, ..e });
    eviction_keeps_the_newest(grown, m.max_entries, m.max_bytes);
    let back = m.undone(current);
    let again = m.undo.drop_last().push(Step { key: None, ..m.undo.last() });
    fits_by_weight(m.undo, again);
    assert(back.undo.push(Step { key: None, before: restored, ..back.redo.last() }) =~= again);
    assert(labels(again) =~= labels(m.undo));
    assert(grown.drop_last() =~= m.redo);
}

/// Redoing and then undoing comes back in the same way.
pub proof fn redo_then_undo_comes_back<S>(m: Stacks<S>, current: EditSnapshot<S>)
    requires
        m.valid(),
        m.redo.len() > 0,
    ensures
        ({
            let restored = m.redo.last().before;
            let ahead = m.redone(current);
            let again = ahead.undone(restored);
            &&& ahead.undo.len() > 0
            &&& ahead.undo.last().before == current
            &&& ahead.undo.last().label == m.redo.last().label
            &&& again.redo == m.redo.drop_last().push(Step { key: None, ..m.redo.last() })
            &&& m.undo.len() < m.max_entries && fits(
                m.undo.push(Step { key: None, before: current, ..m.redo.last() }),
                m.max_entries,
                m.max_bytes,
            ) ==> again.undo == m.undo && again.top() == m.top()
        }),
{
    let restored = m.redo.last().before;
    let e = m.redo.last();
    let grown = m.undo.push(Step { key: None, before: current, ..e });
    eviction_keeps_the_newest(grown, m.max_entries, m.max_bytes);
    let ahead = m.redone(current);
    let again = m.redo.drop_last().push(Step { key: None, ..m.redo.last() });
    fits_by_weight(m.redo, again);
    assert(ahead.redo.push(Step { key: None, before: restored, ..ahead.undo.last() }) =~= again);
    assert(grown.drop_last() =~= m.undo);
}

/// A commit leads to a state that no earlier one is named like, whether it
/// coalesced or not: what was saved before it never reads as saved after it.
pub proof fn a_commit_leaves_every_named_state<S>(
    m: Stacks<S>,
    label: Seq<char>,
    key: Option<Seq<char>>,
    before: EditSnapshot<S>,
    now: nat,
    saved: nat,
)
    requires
        m.valid(),
        m.max_entries > 0,
        saved < m.next_serial,
    ensures
        m.committed(label, key, before, now).top() is Some,
        m.committed(label, key, before, now).top() != Some(saved),
        m.committed(label, key, before, now).top() != m.top(),
        m.committed(label, key, before, now).next_serial > m.next_serial,
{
    if m.undo.len() > 0 {
        assert(timeline(m.undo, m.redo)[m.undo.len() - 1] < m.next_serial);
    }
    if !m.coalesces(key, now) {
        let serial = if key is Some {
            m.next_serial + 1
        } else {
            m.next_serial
        };
        let grown = m.undo.push(Step { label, key, at: now, before, serial });
        eviction_keeps_the_newest(grown, m.max_entries, m.max_bytes);
    }
}

/// A state whose name left the timeline is never reached again: commits use
/// new names, and undoing and redoing only move along the timeline.
pub proof fn a_lost_state_stays_lost<S>(
    m: Stacks<S>,
    label: Seq<char>,
    key: Option<Seq<char>>,
    state: EditSnapshot<S>,
    now: nat,
    saved: nat,
)
    requires
        m.valid(),
        saved < m.next_serial,
        !timeline(m.undo, m.redo).contains(saved),
    ensures
        ({
            let c = m.committed(label, key, state, now);
            !timeline(c.undo, c.redo).contains(saved) && c.top() != Some(saved)
        }),
        m.undo.len() > 0 ==> {
            let c = m.undone(state);
            !timeline(c.undo, c.redo).contains(saved) && c.top() != Some(saved)
        },
        m.redo.len() > 0 ==> {
            let c = m.redone(state);
            !timeline(c.undo, c.redo).contains(saved) && c.top() != Some(saved)
        },
{
    let t = timeline(m.undo, m.redo);
    assert(forall|i: int| 0 <= i < t.len() ==> t[i] != saved);
    assert(forall|i: int| 0 <= i < m.undo.len() ==> t[i] == #[trigger] m.undo[i].serial);
    assert forall|i: int| 0 <= i < m.redo.len() implies (#[trigger] m.redo[i]).serial != saved by {
        assert(t[m.undo.len() + m.redo.len() - 1 - i] == m.redo[i].serial);
    }
    {
        let c = m.committed(label, key, state, now);
        if !m.coalesces(key, now) {
            let serial = if key is Some {
                m.next_serial + 1
            } else {
                m.next_serial
            };
            let grown = m.undo.push(Step { label, key, at: now, before: state, serial });
            eviction_takes_the_oldest(grown, m.max_entries, m.max_bytes);
            let gone = grown.len() - c.undo.len();
            assert forall|i: int| 0 <= i < c.undo.len() implies (#[trigger] c.undo[i]).serial
                != saved by {
                assert(c.undo[i] == grown[i + gone]);
            }
        }
        assert(forall|i: int| 0 <= i < c.undo.len() ==> (#[trigger] c.undo[i]).serial != saved);
        assert(forall|i: int|
            0 <= i < timeline(c.undo, c.redo).len() ==> #[trigger] timeline(c.undo, c.redo)[i]
                != saved);
    }
    if m.undo.len() > 0 {
        let c = m.undone(state);
        let grown = m.redo.push(Step { key: None, before: state, ..m.undo.last() });
        eviction_takes_the_oldest(grown, m.max_entries, m.max_bytes);
        let gone = grown.len() - c.redo.len();
        assert forall|i: int| 0 <= i < c.redo.len() implies (#[trigger] c.redo[i]).serial
            != saved by {
            assert(c.redo[i] == grown[i + gone]);
        }
        assert forall|i: int| 0 <= i < c.undo.len() implies (#[trigger] c.undo[i]).serial
            != saved by {
            assert(c.undo[i] == m.undo[i]);
        }
        assert(forall|i: int|
            0 <= i < timeline(c.undo, c.redo).len() ==> #[trigger] timeline(c.undo, c.redo)[i]
                != saved);
    }
    if m.redo.len() > 0 {
        let c = m.redone(state);
        let grown = m.undo.push(Step { key: None, before: state, ..m.redo.last() });
        eviction_takes_the_oldest(grown, m.max_entries, m.max_bytes);
        let gone = grown.len() - c.undo.len();
        assert forall|i: int| 0 <= i < c.undo.len() implies (#[trigger] c.undo[i]).serial
            != saved by {
            assert(c.undo[i] == grown[i + gone]);
        }
        assert forall|i: int| 0 <= i < c.redo.len() implies (#[trigger] c.redo[i]).serial
            != saved by {
            assert(c.redo[i] == m.redo[i]);
        }
        assert(forall|i: int|
            0 <= i < timeline(c.undo, c.redo).len() ==> #[trigger] timeline(c.undo, c.redo)[i]
                != saved);
    }
}

/// A commit merges or adds. One with the newest entry's key that lands within
/// the window keeps that entry's label and `before`, and what can be redone;
/// any other is the newest entry afterwards, and nothing can be redone.
pub proof fn a_commit_merges_or_adds<S>(
    m: Stacks<S>,
    label: Seq<char>,
    key: Option<Seq<char>>,
    before: EditSnapshot<S>,
    now: nat,
)
    requires
        m.valid(),
        m.max_entries > 0,
    ensures
        ({
            let c = m.committed(label, key, before, now);
            if m.undo.len() > 0 && key is Some && m.undo.last().key == key && now
                < m.undo.last().at + COALESCE_WINDOW {
                &&& labels(c.undo) == labels(m.undo)
                &&& c.undo.last().before == m.undo.last().before
                &&& c.undo.last().at == now
                &&& c.redo == m.redo
                &&& c.dropped == m.dropped
            } else {
                &&& c.undo.len() > 0
                &&& c.undo.last().label == label
                &&& c.undo.last().before == before
                &&& c.redo.len() == 0
            }
        }),
{
    let c = m.committed(label, key, before, now);
    if m.coalesces(key, now) {
        assert(labels(c.undo) =~= labels(m.undo));
    } else {
        let serial = if key is Some {
            m.next_serial + 1
        } else {
            m.next_serial
        };
        let grown = m.undo.push(Step { label, key, at: now, before, serial });
        eviction_keeps_the_newest(grown, m.max_entries, m.max_bytes);
    }
}

/// What can be asked of a history.
pub enum Call<S> {
    Commit { label: Seq<char>, key: Option<Seq<char>>, before: EditSnapshot<S>, now: nat },
    Undo { current: EditSnapshot<S> },
    Redo { current: EditSnapshot<S> },
    Clear,
}

impl<S> Stacks<S> {
    /// The history after dropping all of it.
    pub open spec fn cleared(self) -> Stacks<S> {
        Stacks { undo: Seq::empty(), redo: Seq::empty(), dropped: 0, ..self }
    }

    /// The history after one call. Undoing or redoing where there is nothing
    /// to undo or redo changes nothing.
    pub open spec fn called(self, call: Call<S>) -> Stacks<S> {
        match call {
            Call::Commit { label, key, before, now } => self.committed(label, key, before, now),
            Call::Undo { current } => if self.undo.len() > 0 {
                self.undone(current)
            } else {
                self
            },
            Call::Redo { current } => if self.redo.len() > 0 {
                self.redone(current)
            } else {
                self
            },
            Call::Clear => self.cleared(),
        }
    }

    /// The history after several calls.
    pub open spec fn after(self, calls: Seq<Call<S>>) -> Stacks<S>
        decreases calls.len(),
    {
        if calls.len() == 0 {
            self
        } else {
            self.after(calls.drop_last()).called(calls.last())
        }
    }
}

/// Whatever is called, the history stays valid, its caps stay, its serials
/// only go on, and the state that it is at has a serial that was handed out.
pub proof fn calls_keep_valid<S>(m: Stacks<S>, calls: Seq<Call<S>>)
    requires
        m.valid(),
    ensures
        m.after(calls).valid(),
        m.after(calls).max_entries == m.max_entries,
        m.after(calls).next_serial >= m.next_serial,
        m.after(calls).top() matches Some(s) ==> s < m.after(calls).next_serial,
    decreases calls.len(),
{
    if calls.len() > 0 {
        let b = m.after(calls.drop_last());
        calls_keep_valid(m, calls.drop_last());
        match calls.last() {
            Call::Commit { label, key, before, now } => {
                commit_keeps_valid(b, label, key, before, now);
            },
            Call::Undo { current } => if b.undo.len() > 0 {
                undo_keeps_valid(b, current);
            },
            Call::Redo { current } => if b.redo.len() > 0 {
                redo_keeps_valid(b, current);
            },
            Call::Clear => {
                assert(total_bytes(Seq::<Step<S>>::empty()) == 0);
            },
        }
    }
    let a = m.after(calls);
    if a.undo.len() > 0 {
        assert(timeline(a.undo, a.redo)[a.undo.len() - 1] < a.next_serial);
    }
}

proof fn serials_only_go_on<S>(m: Stacks<S>, calls: Seq<Call<S>>, k: int)
    requires
        m.valid(),
        0 <= k <= calls.len(),
    ensures
        m.after(calls.take(k)).next_serial <= m.after(calls).next_serial,
    decreases calls.len(),
{
    if k == calls.len() {
        assert(calls.take(k) =~= calls);
    } else {
        assert(calls.drop_last().take(k) =~= calls.take(k));
        serials_only_go_on(m, calls.drop_last(), k);
        calls_keep_valid(m, calls.drop_last());
        calls_keep_valid(m.after(calls.drop_last()), seq![calls.last()]);
        assert(seq![calls.last()].drop_last() =~= Seq::<Call<S>>::empty());
        reveal_with_fuel(Stacks::after, 2);
    }
}

/// Serials are never reused: after any calls, a commit is at a state with a
/// greater serial than every state that the history was at before it, whether
/// it coalesces or not, and even past a clear.
pub proof fn a_commit_is_named_after_every_earlier_state<S>(
    m: Stacks<S>,
    calls: Seq<Call<S>>,
    k: int,
    label: Seq<char>,
    key: Option<Seq<char>>,
    before: EditSnapshot<S>,
    now: nat,
)
    requires
        m.valid(),
        m.max_entries > 0,
        0 <= k <= calls.len(),
    ensures
        m.after(calls).committed(label, key, before, now).top() is Some,
        m.after(calls.take(k)).top() matches Some(s) ==> s < m.after(calls).committed(
            label,
            key,
            before,
            now,
        ).top()->0,
{
    let a = m.after(calls);
    calls_keep_valid(m, calls);
    calls_keep_valid(m, calls.take(k));
    serials_only_go_on(m, calls, k);
    if !a.coalesces(key, now) {
        let serial = if key is Some {
            a.next_serial + 1
        } else {
            a.next_serial
        };
        let grown = a.undo.push(Step { label, key, at: now, before, serial });
        eviction_keeps_the_newest(grown, a.max_entries, a.max_bytes);
    }
}

/// Clearing empties both stacks, forgets what was dropped and is at no state;
/// serials do not restart.
pub proof fn clearing_leaves_nothing_but_the_count<S>(m: Stacks<S>)
    requires
        m.valid(),
    ensures
        m.cleared().undo.len() == 0,
        m.cleared().redo.len() == 0,
        m.cleared().dropped == 0,
        m.cleared().top() is None,
        m.cleared().next_serial == m.next_serial,
        m.cleared().valid(),
{
    assert(total_bytes(Seq::<Step<S>>::empty()) == 0);
}

/// Unified undo and redo stacks. The newest entry is the last of `undo`.
pub struct History<S> {
    pub undo: Vec<HistoryEntry<S>>,
    pub redo: Vec<HistoryEntry<S>>,
    pub max_entries: usize,
    pub max_bytes: usize,
    /// How many undo entries have been evicted since the last `clear`.
    pub dropped: usize,
    /// The next serial to hand out: never reused, not even after `clear`.
    pub next_serial: u64,
}

/// Whether the estimated bytes of a stack are over `max_bytes`.
fn over_bytes<S>(stack: &Vec<HistoryEntry<S>>, max_bytes: usize) -> (b: bool)
    ensures
        b == (total_bytes(steps(stack@)) > max_bytes),
{
    let mut sum: u128 = 0;
    let mut i: usize = stack.len();
    let ghost all = steps(stack@);
    assert(all.skip(all.len() as int) =~= Seq::<Step<S>>::empty());
    while i > 0
        invariant
            i <= stack.len(),
            all == steps(stack@),
            sum == total_bytes(all.skip(i as int)),
            sum <= max_bytes,
        decreases i,
    {
        i -= 1;
        sum = sum + (stack[i].before.transforms as u128 * 176 + 4096);
        proof {
            assert(all.skip(i as int).drop_first() =~= all.skip(i + 1));
            assert(all.skip(i as int)[0] == stack@[i as int].view());
            bytes_of_suffix(all, i as int);
        }
        if sum > max_bytes as u128 {
            return true;
        }
    }
    assert(all.skip(0) =~= all);
    false
}

proof fn bytes_of_suffix<S>(s: Seq<Step<S>>, k: int)
    requires
        0 <= k <= s.len(),
    ensures
        total_bytes(s.skip(k)) <= total_bytes(s),
    decreases k,
{
    if k == 0 {
        assert(s.skip(0) =~= s);
    } else {
        bytes_of_suffix(s, k - 1);
        assert(s.skip(k - 1).drop_first() =~= s.skip(k));
    }
}

/// Evict oldest-first until both caps are satisfied, returning how many
/// entries went.
fn evict<S>(stack: &mut Vec<HistoryEntry<S>>, max_entries: usize, max_bytes: usize) -> (n: usize)
    ensures
        steps(final(stack)@) == evicted(
            steps(old(stack)@),
            max_entries as nat,
            max_bytes as nat,
        ),
        n == old(stack)@.len() - final(stack)@.len(),
{
    let was: usize = stack.len();
    let ghost goal = evicted(steps(stack@), max_entries as nat, max_bytes as nat);
    while stack.len() > max_entries
        invariant
            was == old(stack)@.len(),
            stack@.len() <= was,
            goal == evicted(steps(stack@), max_entries as nat, max_bytes as nat),
        decreases stack@.len(),
    {
        let ghost before = steps(stack@);
        stack.remove(0);
        assert(steps(stack@) =~= before.drop_first());
    }
    let floor: usize = if MIN_ENTRIES < max_entries {
        MIN_ENTRIES
    } else {
        max_entries
    };
    while stack.len() > floor && over_bytes(stack, max_bytes)
        invariant
            was == old(stack)@.len(),
            stack@.len() <= was,
            stack@.len() <= max_entries,
            floor == floor_of(max_entries as nat),
            goal == evicted(steps(stack@), max_entries as nat, max_bytes as nat),
        decreases stack@.len(),
    {
        let ghost before = steps(stack@);
        stack.remove(0);
        assert(steps(stack@) =~= before.drop_first());
    }
    was - stack.len()
}

impl<S> History<S> {
    pub open spec fn view(&self) -> Stacks<S> {
        Stacks {
            undo: steps(self.undo@),
            redo: steps(self.redo@),
            max_entries: self.max_entries as nat,
            max_bytes: self.max_bytes as nat,
            dropped: self.dropped as nat,
            next_serial: self.next_serial as nat,
        }
    }

    /// An empty history with the default caps.
    pub fn new() -> (h: History<S>)
        ensures
            h@.valid(),
            h@ == (Stacks::<S> {
                undo: Seq::empty(),
                redo: Seq::empty(),
                max_entries: DEFAULT_MAX_ENTRIES as nat,
                max_bytes: DEFAULT_MAX_BYTES as nat,
                dropped: 0nat,
                next_serial: 0nat,
            }),
    {
        Self::with_caps(DEFAULT_MAX_ENTRIES, DEFAULT_MAX_BYTES)
    }

    /// An empty history with the given caps.
    pub fn with_caps(max_entries: usize, max_bytes: usize) -> (h: History<S>)
        ensures
            h@.valid(),
            h@ == (Stacks::<S> {
                undo: Seq::empty(),
                redo: Seq::empty(),
                max_entries: max_entries as nat,
                max_bytes: max_bytes as nat,
                dropped: 0nat,
                next_serial: 0nat,
            }),
    {
        let h = History {
            undo: Vec::new(),
            redo: Vec::new(),
            max_entries,
            max_bytes,
            dropped: 0,
            next_serial: 0,
        };
        assert(steps(h.undo@) =~= Seq::<Step<S>>::empty());
        assert(steps(h.redo@) =~= Seq::<Step<S>>::empty());
        assert(total_bytes(Seq::<Step<S>>::empty()) == 0);
        h
    }

    /// Names the document state the stacks are at: the serial of the newest
    /// applied edit, or `None` for "nothing has been done".
    pub fn top_serial(&self) -> (s: Option<u64>)
        ensures
            match self@.top() {
                Some(n) => s == Some(n as u64),
                None => s is None,
            },
            s is Some <==> self@.top() is Some,
    {
        let n: usize = self.undo.len();
        if n == 0 {
            None
        } else {
            Some(self.undo[n - 1].serial)
        }
    }

    /// Undo entries evicted since the last `clear`.
    pub fn dropped(&self) -> (n: usize)
        ensures
            n == self@.dropped,
    {
        self.dropped
    }

    /// Record a commit made at `now`, in milliseconds. Clears the redo stack,
    /// unless this commit coalesces into the top of the undo stack, in which
    /// case the original `before` is kept and only the time and the serial
    /// refresh.
    pub fn commit(
        &mut self,
        label: String,
        coalesce_key: Option<&str>,
        before: EditSnapshot<S>,
        now: u64,
    )
        requires
            old(self)@.valid(),
            old(self)@.next_serial + 2 <= u64::MAX,
            old(self)@.next_serial + 2 <= usize::MAX,
        ensures
            final(self)@ == old(self)@.committed(
                label@,
                match coalesce_key {
                    Some(k) => Some(k@),
                    None => None,
                },
                before,
                now as nat,
            ),
            final(self)@.valid(),
    {
        let ghost key = match coalesce_key {
            Some(k) => Some(k@),
            None => None,
        };
        let ghost m = self@;
        proof {
            commit_keeps_valid(m, label@, key, before, now as nat);
        }
        let mut owned: Option<String> = None;
        if let Some(key) = coalesce_key {
            let serial: u64 = self.next_serial;
            self.next_serial = serial + 1;
            let n: usize = self.undo.len();
            if n > 0 {
                let same = match &self.undo[n - 1].key {
                    Some(k) => text::same(k.as_str(), key),
                    None => false,
                };
                let at: u64 = self.undo[n - 1].at;
                let elapsed: u64 = if now > at {
                    now - at
                } else {
                    0
                };
                if same && elapsed < COALESCE_WINDOW {
                    self.undo[n - 1].at = now;
                    self.undo[n - 1].serial = serial;
                    assert(self@ =~= m.committed(label@, Some(key@), before, now as nat)) by {
                        assert(self@.undo =~= m.undo.drop_last().push(
                            Step { at: now as nat, serial: m.next_serial, ..m.undo.last() },
                        ));
                    }
                    return;
                }
            }
            owned = Some(key.to_owned());
        }
        self.redo.clear();
        assert(steps(self.redo@) =~= Seq::<Step<S>>::empty());
        let serial: u64 = self.next_serial;
        self.next_serial = serial + 1;
        let ghost entry = Step::<S> {
            label: label@,
            key,
            at: now as nat,
            before,
            serial: serial as nat,
        };
        self.undo.push(HistoryEntry { label, key: owned, at: now, before, serial });
        assert(steps(self.undo@) =~= m.undo.push(entry));
        let gone: usize = evict(&mut self.undo, self.max_entries, self.max_bytes);
        self.dropped = self.dropped + gone;
        assert(self@ =~= m.committed(entry.label, key, before, now as nat));
    }

    /// Pop the most recent undo entry, push `current` onto redo, and return
    /// the label and the snapshot to restore. `None` when there is nothing to
    /// undo.
    pub fn undo(&mut self, current: EditSnapshot<S>) -> (r: Option<(String, EditSnapshot<S>)>)
        requires
            old(self)@.valid(),
        ensures
            r is Some <==> old(self)@.undo.len() > 0,
            r is None ==> final(self)@ == old(self)@,
            r is Some ==> {
                &&& final(self)@ == old(self)@.undone(current)
                &&& (r->0).0@ == old(self)@.undo.last().label
                &&& (r->0).1 == old(self)@.undo.last().before
            },
            final(self)@.valid(),
    {
        let ghost m = self@;
        let popped = self.undo.pop();
        match popped {
            None => {
                None
            },
            Some(entry) => {
                proof {
                    undo_keeps_valid(m, current);
                }
                assert(steps(self.undo@) =~= m.undo.drop_last());
                let HistoryEntry { label, key, at, before, serial } = entry;
                let kept = label.clone();
                self.redo.push(HistoryEntry { label: kept, key: None, at, before: current, serial });
                assert(steps(self.redo@) =~= m.redo.push(
                    Step { key: None, before: current, ..m.undo.last() },
                ));
                let gone: usize = evict(&mut self.redo, self.max_entries, self.max_bytes);
                assert(self@ =~= m.undone(current));
                Some((label, before))
            },
        }
    }

    /// Symmetric opposite of `undo`.
    pub fn redo(&mut self, current: EditSnapshot<S>) -> (r: Option<(String, EditSnapshot<S>)>)
        requires
            old(self)@.valid(),
            old(self)@.next_serial <= usize::MAX,
        ensures
            r is Some <==> old(self)@.redo.len() > 0,
            r is None ==> final(self)@ == old(self)@,
            r is Some ==> {
                &&& final(self)@ == old(self)@.redone(current)
                &&& (r->0).0@ == old(self)@.redo.last().label
                &&& (r->0).1 == old(self)@.redo.last().before
            },
            final(self)@.valid(),
    {
        let ghost m = self@;
        let popped = self.redo.pop();
        match popped {
            None => {
                None
            },
            Some(entry) => {
                proof {
                    redo_keeps_valid(m, current);
                }
                assert(steps(self.redo@) =~= m.redo.drop_last());
                let HistoryEntry { label, key, at, before, serial } = entry;
                let kept = label.clone();
                self.undo.push(HistoryEntry { label: kept, key: None, at, before: current, serial });
                assert(steps(self.undo@) =~= m.undo.push(
                    Step { key: None, before: current, ..m.redo.last() },
                ));
                let gone: usize = evict(&mut self.undo, self.max_entries, self.max_bytes);
                self.dropped = self.dropped + gone;
                assert(self@ =~= m.redone(current));
                Some((label, before))
            },
        }
    }

    /// Undo `n` entries in one go. `None`, and no change, if `n` is zero or
    /// more than there are.
    pub fn jump_undo(&mut self, n: usize, current: EditSnapshot<S>) -> (r: Option<EditSnapshot<S>>)
        requires
            old(self)@.valid(),
        ensures
            r is Some <==> 0 < n <= old(self)@.undo.len(),
            r is None ==> final(self)@ == old(self)@,
            r is Some ==> (final(self)@, r->0) == old(self)@.undone_by(n as nat, current),
            final(self)@.valid(),
    {
        if n == 0 || n > self.undo.len() {
            return None;
        }
        let ghost m = self@;
        let ghost start = current;
        let mut current = current;
        let mut i: usize = 0;
        while i < n
            invariant
                i <= n,
                n - i <= self@.undo.len(),
                self@.valid(),
                m.undone_by(n as nat, start) == self@.undone_by((n - i) as nat, current),
            decreases n - i,
        {
            match self.undo(current) {
                None => {
                    return None;
                },
                Some((_, restored)) => {
                    current = restored;
                },
            }
            i += 1;
        }
        Some(current)
    }

    /// Symmetric opposite of `jump_undo`.
    pub fn jump_redo(&mut self, n: usize, current: EditSnapshot<S>) -> (r: Option<EditSnapshot<S>>)
        requires
            old(self)@.valid(),
            old(self)@.next_serial <= usize::MAX,
        ensures
            r is Some <==> 0 < n <= old(self)@.redo.len(),
            r is None ==> final(self)@ == old(self)@,
            r is Some ==> (final(self)@, r->0) == old(self)@.redone_by(n as nat, current),
            final(self)@.valid(),
    {
        if n == 0 || n > self.redo.len() {
            return None;
        }
        let ghost m = self@;
        let ghost start = current;
        let mut current = current;
        let mut i: usize = 0;
        while i < n
            invariant
                i <= n,
                n - i <= self@.redo.len(),
                self@.valid(),
                self@.next_serial <= usize::MAX,
                m.redone_by(n as nat, start) == self@.redone_by((n - i) as nat, current),
            decreases n - i,
        {
            match self.redo(current) {
                None => {
                    return None;
                },
                Some((_, restored)) => {
                    current = restored;
                },
            }
            i += 1;
        }
        Some(current)
    }

    /// Drop all history; serials go on from where they were.
    pub fn clear(&mut self)
        requires
            old(self)@.valid(),
        ensures
            final(self)@ == old(self)@.cleared(),
            final(self)@.valid(),
    {
        self.undo.clear();
        self.redo.clear();
        self.dropped = 0;
        assert(steps(self.undo@) =~= Seq::<Step<S>>::empty());
        assert(steps(self.redo@) =~= Seq::<Step<S>>::empty());
        assert(total_bytes(Seq::<Step<S>>::empty()) == 0);
    }

    pub fn undo_len(&self) -> (n: usize)
        ensures
            n == self@.undo.len(),
    {
        self.undo.len()
    }

    pub fn redo_len(&self) -> (n: usize)
        ensures
            n == self@.redo.len(),
    {
        self.redo.len()
    }

    /// The labels of the undo entries, newest first.
    pub fn undo_display(&self) -> (v: Vec<&str>)
        ensures
            v@.len() == self@.undo.len(),
            forall|i: int|
                0 <= i < v@.len() ==> (#[trigger] v@[i])@ == self@.undo[v@.len() - 1 - i].label,
    {
        let mut v: Vec<&str> = Vec::new();
        let n: usize = self.undo.len();
        let mut i: usize = 0;
        while i < n
            invariant
                i <= n,
                n == self.undo@.len(),
                v@.len() == i,
                forall|k: int| 0 <= k < i ==> (#[trigger] v@[k])@ == self@.undo[n - 1 - k].label,
            decreases n - i,
        {
            v.push(self.undo[n - 1 - i].label.as_str());
            i += 1;
        }
        v
    }

    /// The labels of the redo entries, the furthest first.
    pub fn redo_display(&self) -> (v: Vec<&str>)
        ensures
            v@.len() == self@.redo.len(),
            forall|i: int| 0 <= i < v@.len() ==> (#[trigger] v@[i])@ == self@.redo[i].label,
    {
        let mut v: Vec<&str> = Vec::new();
        let n: usize = self.redo.len();
        let mut i: usize = 0;
        while i < n
            invariant
                i <= n,
                n == self.redo@.len(),
                v@.len() == i,
                forall|k: int| 0 <= k < i ==> (#[trigger] v@[k])@ == self@.redo[k].label,
            decreases n - i,
        {
            v.push(self.redo[i].label.as_str());
            i += 1;
        }
        v
    }
}

impl<S> Default for History<S> {
    fn default() -> (h: History<S>)
        ensures
            h@.valid(),
            h@.undo.len() == 0,
            h@.redo.len() == 0,
            h@.max_entries == DEFAULT_MAX_ENTRIES,
            h@.max_bytes == DEFAULT_MAX_BYTES,
            h@.dropped == 0,
            h@.next_serial == 0,
    {
        Self::new()
    }
}

/// Undoing several steps at once is undoing them one by one: it gives the state
/// that stood before the earliest of them, and leaves the steps before that.
pub proof fn undoing_several_reaches_the_earliest<S>(m: Stacks<S>, n: nat, current: EditSnapshot<S>)
    requires
        0 < n <= m.undo.len(),
    ensures
        m.undone_by(n, current).1 == m.undo[m.undo.len() - n].before,
        m.undone_by(n, current).0.undo == m.undo.take(m.undo.len() - n),
        m.undone_by(n, current).0.dropped == m.dropped,
    decreases n,
{
    let one = m.undone(current);
    let next = m.undo.last().before;
    if n == 1 {
        assert(one.undone_by(0, next) == (one, next));
        assert(m.undo.drop_last() =~= m.undo.take(m.undo.len() - 1));
    } else {
        undoing_several_reaches_the_earliest(one, (n - 1) as nat, next);
        assert(one.undo.take(one.undo.len() - (n - 1)) =~= m.undo.take(m.undo.len() - n));
    }
}

/// Redoing several steps at once gives the state that the last of them made, and
/// leaves those after it to redo.
pub proof fn redoing_several_reaches_the_last<S>(m: Stacks<S>, n: nat, current: EditSnapshot<S>)
    requires
        0 < n <= m.redo.len(),
    ensures
        m.redone_by(n, current).1 == m.redo[m.redo.len() - n].before,
        m.redone_by(n, current).0.redo == m.redo.take(m.redo.len() - n),
    decreases n,
{
    let one = m.redone(current);
    let next = m.redo.last().before;
    if n == 1 {
        assert(one.redone_by(0, next) == (one, next));
        assert(m.redo.drop_last() =~= m.redo.take(m.redo.len() - 1));
    } else {
        redoing_several_reaches_the_last(one, (n - 1) as nat, next);
        assert(one.redo.take(one.redo.len() - (n - 1)) =~= m.redo.take(m.redo.len() - n));
    }
}

/// However much they weigh, ten steps are kept, or as many as the cap on their
/// number allows; and beyond ten, what is kept weighs no more than its cap.
pub proof fn ten_steps_are_always_kept<S>(s: Seq<Step<S>>, max_entries: nat, max_bytes: nat)
    ensures
        ({
            let left = evicted(s, max_entries, max_bytes).len();
            &&& left <= max_entries
            &&& s.len() >= 10 && max_entries >= 10 ==> left >= 10
            &&& s.len() <= 10 && s.len() <= max_entries ==> left == s.len()
            &&& max_entries < 10 && s.len() >= max_entries ==> left == max_entries
            &&& left > 10 ==> total_bytes(evicted(s, max_entries, max_bytes)) <= max_bytes
        }),
    decreases s.len(),
{
    if !(s.len() == 0 || fits(s, max_entries, max_bytes)) {
        ten_steps_are_always_kept(s.drop_first(), max_entries, max_bytes);
    }
}

/// Steps weigh what each of them weighs: four kibibytes, and 176 bytes for every
/// transform.
pub proof fn steps_weigh_what_each_weighs<S>(s: Seq<Step<S>>, more: Step<S>)
    ensures
        total_bytes(Seq::<Step<S>>::empty()) == 0,
        total_bytes(seq![more] + s) == total_bytes(s) + 176 * more.before.transforms + 4096,
{
    let all = seq![more] + s;
    assert(all[0] == more);
    assert(all.drop_first() =~= s);
}

/// A commit adds a step on top of those there are, but for the oldest where
/// there are too many, and merges into the top step just where both have one key
/// and less than a second lies between them.
pub proof fn a_commit_stands_on_the_steps_before<S>(
    m: Stacks<S>,
    label: Seq<char>,
    key: Option<Seq<char>>,
    before: EditSnapshot<S>,
    now: nat,
)
    requires
        m.valid(),
        m.max_entries > 0,
    ensures
        ({
            let c = m.committed(label, key, before, now);
            let merges = key is Some && m.undo.len() > 0 && m.undo.last().key == key && now
                < m.undo.last().at + 1000;
            &&& merges ==> c.undo.len() == m.undo.len() && c.undo.drop_last() == m.undo.drop_last()
            &&& !merges ==> c.undo.len() + (c.dropped - m.dropped) == m.undo.len() + 1
            &&& !merges ==> forall|i: int|
                0 <= i < c.undo.len() - 1 ==> #[trigger] c.undo[i] == m.undo[i + (c.dropped
                    - m.dropped)]
            &&& !merges ==> c.undo.last().key == key && c.undo.last().at == now
        }),
{
    let c = m.committed(label, key, before, now);
    if m.coalesces(key, now) {
        assert(c.undo.drop_last() =~= m.undo.drop_last());
    } else {
        let serial = if key is Some {
            m.next_serial + 1
        } else {
            m.next_serial
        };
        let grown = m.undo.push(Step { label, key, at: now, before, serial });
        eviction_takes_the_oldest(grown, m.max_entries, m.max_bytes);
        ten_steps_are_always_kept(grown, m.max_entries, m.max_bytes);
        let left = evicted(grown, m.max_entries, m.max_bytes);
        assert(left.len() > 0);
        let off = grown.len() - left.len();
        assert forall|i: int| 0 <= i < left.len() implies #[trigger] left[i] == grown[i + off] by {
            assert(grown.skip(off)[i] == grown[i + off]);
        }
    }
}

/// Edits of one kind are one step while each follows the one before within a
/// second, and others are steps of their own.
pub proof fn edits_within_a_second_are_one_step<S>(m: Stacks<S>, key: Option<Seq<char>>, now: nat)
    requires
        m.undo.len() > 0,
        now >= m.undo.last().at,
    ensures
        m.coalesces(key, now) <==> key is Some && key == m.undo.last().key && now
            - m.undo.last().at < 1000,
{
}

/// A history keeps 64 steps and 128 mebibytes where it is not told otherwise.
pub proof fn a_history_has_its_caps()
    ensures
        DEFAULT_MAX_ENTRIES == 64,
        DEFAULT_MAX_BYTES == 128 * 1024 * 1024,
{
}

} // verus!
