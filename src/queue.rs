//! A queue of pending events kept in ascending order of play time.

use vstd::prelude::*;
use crate::events::{NoteKey, TimestampedEvent};

verus! {

broadcast use vstd::seq_lib::group_filter_ensures;

/// Every event plays no later than each event after it.
pub open spec fn sorted(s: Seq<TimestampedEvent>) -> bool {
    forall|i: int, j: int| 0 <= i <= j < s.len() ==> s[i].play_time <= s[j].play_time
}

/// Events that play at or before `t`.
pub open spec fn at_or_before(t: u64) -> spec_fn(TimestampedEvent) -> bool {
    |e: TimestampedEvent| e.play_time <= t
}

/// Events that play after `t`.
pub open spec fn after(t: u64) -> spec_fn(TimestampedEvent) -> bool {
    |e: TimestampedEvent| e.play_time > t
}

/// Events that play at or after `t`.
pub open spec fn not_before(t: u64) -> spec_fn(TimestampedEvent) -> bool {
    |e: TimestampedEvent| e.play_time >= t
}

/// Events inside the window `[start, end)`.
pub open spec fn in_window(start: u64, end: u64) -> spec_fn(TimestampedEvent) -> bool {
    |e: TimestampedEvent| start <= e.play_time < end
}

/// Events that are not a note-off for `key`.
pub open spec fn not_note_off_of(key: NoteKey) -> spec_fn(TimestampedEvent) -> bool {
    |e: TimestampedEvent| !e.is_note_off_of(key)
}

/// Stable insertion: `e` goes after every event that plays no later than it.
pub open spec fn sorted_insert(s: Seq<TimestampedEvent>, e: TimestampedEvent) -> Seq<
    TimestampedEvent,
> {
    s.filter(at_or_before(e.play_time)).push(e) + s.filter(after(e.play_time))
}

/// `e`, played `offset` samples later.
pub open spec fn shifted(e: TimestampedEvent, offset: u64) -> TimestampedEvent {
    e.at((e.play_time + offset) as u64)
}

/// The queue after each event of `others` is played `offset` samples later
/// and inserted, in their order.
pub open spec fn merged(s: Seq<TimestampedEvent>, others: Seq<TimestampedEvent>, offset: u64) -> Seq<
    TimestampedEvent,
>
    decreases others.len(),
{
    if others.len() == 0 {
        s
    } else {
        sorted_insert(merged(s, others.drop_last(), offset), shifted(others.last(), offset))
    }
}

/// Where `pred` holds on the first `p` items and on no other, filtering keeps the first `p`.
pub(crate) proof fn lemma_filter_prefix<A>(s: Seq<A>, pred: spec_fn(A) -> bool, p: int)
    requires
        0 <= p <= s.len(),
        forall|j: int| 0 <= j < p ==> pred(s[j]),
        forall|j: int| p <= j < s.len() ==> !pred(s[j]),
    ensures
        s.filter(pred) == s.take(p),
    decreases s.len(),
{
    reveal(Seq::filter);
    if s.len() > 0 {
        let q = if p == s.len() { p - 1 } else { p };
        lemma_filter_prefix(s.drop_last(), pred, q);
        assert(s.drop_last().take(q) =~= s.take(q));
        if p == s.len() {
            assert(s.take(q).push(s.last()) =~= s.take(p));
        }
    } else {
        assert(s.take(p) =~= s);
    }
}

/// Where `pred` fails on the first `p` items and holds on every other, filtering drops the first `p`.
proof fn lemma_filter_suffix<A>(s: Seq<A>, pred: spec_fn(A) -> bool, p: int)
    requires
        0 <= p <= s.len(),
        forall|j: int| 0 <= j < p ==> !pred(s[j]),
        forall|j: int| p <= j < s.len() ==> pred(s[j]),
    ensures
        s.filter(pred) == s.skip(p),
    decreases s.len(),
{
    reveal(Seq::filter);
    if s.len() > 0 {
        if p == s.len() {
            lemma_filter_suffix(s.drop_last(), pred, p - 1);
            assert(s.drop_last().skip(p - 1) =~= Seq::<A>::empty());
            assert(s.skip(p) =~= Seq::<A>::empty());
        } else {
            lemma_filter_suffix(s.drop_last(), pred, p);
            assert(s.drop_last().skip(p).push(s.last()) =~= s.skip(p));
        }
    } else {
        assert(s.skip(p) =~= s);
    }
}

/// Filtering only the first `k` items loses nothing where `pred` fails from `k` on.
proof fn lemma_filter_tail_false<A>(s: Seq<A>, pred: spec_fn(A) -> bool, k: int)
    requires
        0 <= k <= s.len(),
        forall|j: int| k <= j < s.len() ==> !pred(s[j]),
    ensures
        s.filter(pred) == s.take(k).filter(pred),
{
    assert(s =~= s.take(k) + s.skip(k));
    Seq::filter_distributes_over_add(s.take(k), s.skip(k), pred);
    lemma_filter_prefix(s.skip(k), pred, 0);
    assert(s.skip(k).take(0) =~= Seq::<A>::empty());
    assert(s.take(k).filter(pred) + Seq::<A>::empty() =~= s.take(k).filter(pred));
}

/// A filtered sorted sequence is sorted.
proof fn lemma_filter_sorted(s: Seq<TimestampedEvent>, pred: spec_fn(TimestampedEvent) -> bool)
    requires
        sorted(s),
    ensures
        sorted(s.filter(pred)),
    decreases s.len(),
{
    reveal(Seq::filter);
    if s.len() > 0 {
        let d = s.drop_last();
        assert(sorted(d));
        lemma_filter_sorted(d, pred);
        let f = d.filter(pred);
        assert forall|i: int| 0 <= i < f.len() implies f[i].play_time <= s.last().play_time by {
            assert(f.contains(f[i]));
            d.lemma_filter_contains_rev(pred, f[i]);
            let k = choose|k: int| 0 <= k < d.len() && d[k] == f[i];
            assert(s[k] == d[k]);
        }
    }
}

/// Where the first `p` events play at or before `t` and the others after it,
/// the two filters of `sorted_insert` are the two sides of `p`.
proof fn lemma_split_at(s: Seq<TimestampedEvent>, t: u64, p: int)
    requires
        0 <= p <= s.len(),
        forall|j: int| 0 <= j < p ==> s[j].play_time <= t,
        forall|j: int| p <= j < s.len() ==> s[j].play_time > t,
    ensures
        s.filter(at_or_before(t)) == s.take(p),
        s.filter(after(t)) == s.skip(p),
{
    lemma_filter_prefix(s, at_or_before(t), p);
    lemma_filter_suffix(s, after(t), p);
}

/// Every event of `s.filter(pred)` is an event of `s` that `pred` accepts.
proof fn lemma_filter_member(s: Seq<TimestampedEvent>, pred: spec_fn(TimestampedEvent) -> bool, i: int)
    requires
        0 <= i < s.filter(pred).len(),
    ensures
        pred(s.filter(pred)[i]),
        s.contains(s.filter(pred)[i]),
{
    assert(s.filter(pred).contains(s.filter(pred)[i]));
    s.lemma_filter_contains_rev(pred, s.filter(pred)[i]);
}

/// A note-off that arrives at time `t` under a delay of `d` samples is queued
/// at `t + d`: a window releases it exactly when the window holds `t + d`, and
/// a window that ends at or before `t + d` leaves it queued.
pub proof fn lemma_delayed_release(
    q: Seq<TimestampedEvent>,
    off: TimestampedEvent,
    d: u64,
    start: u64,
    end: u64,
)
    requires
        off.play_time + d <= u64::MAX,
    ensures
        ({
            let e = shifted(off, d);
            let q1 = merged(q, seq![off], d);
            &&& e.play_time == off.play_time + d
            &&& e.message == off.message
            &&& q1.contains(e)
            &&& (q1.filter(in_window(start, end)).contains(e) <==> start <= e.play_time < end)
            &&& (e.play_time >= end ==> q1.filter(not_before(end)).contains(e))
        }),
{
    let e = shifted(off, d);
    assert(seq![off].drop_last() =~= Seq::<TimestampedEvent>::empty());
    assert(merged(q, seq![off].drop_last(), d) == q);
    assert(seq![off].last() == off);
    let a = q.filter(at_or_before(e.play_time));
    let q1 = merged(q, seq![off], d);
    assert(q1 == a.push(e) + q.filter(after(e.play_time)));
    let k = a.len() as int;
    assert(q1[k] == e);
    let w = q1.filter(in_window(start, end));
    if w.contains(e) {
        let i = choose|i: int| 0 <= i < w.len() && w[i] == e;
        lemma_filter_member(q1, in_window(start, end), i);
    }
}

/// Once a note-on for a note is queued, no note-off for that note is
/// pending, and no window drawn from the queue releases one.
pub proof fn lemma_retrigger_cancels(
    q: Seq<TimestampedEvent>,
    e: TimestampedEvent,
    start: u64,
    end: u64,
)
    requires
        e.message is NoteOn,
    ensures
        ({
            let key = e.message.key().unwrap();
            let q1 = sorted_insert(q.filter(not_note_off_of(key)), e);
            let w = q1.filter(in_window(start, end));
            &&& forall|i: int| 0 <= i < q1.len() ==> !(#[trigger] q1[i]).is_note_off_of(key)
            &&& forall|i: int| 0 <= i < w.len() ==> !(#[trigger] w[i]).is_note_off_of(key)
        }),
{
    let key = e.message.key().unwrap();
    let f = q.filter(not_note_off_of(key));
    let a = f.filter(at_or_before(e.play_time));
    let b = f.filter(after(e.play_time));
    let q1 = sorted_insert(f, e);
    assert forall|i: int| 0 <= i < q1.len() implies !(#[trigger] q1[i]).is_note_off_of(key) by {
        if i < a.len() {
            lemma_filter_member(f, at_or_before(e.play_time), i);
            let k = choose|k: int| 0 <= k < f.len() && f[k] == q1[i];
            lemma_filter_member(q, not_note_off_of(key), k);
        } else if i > a.len() {
            lemma_filter_member(f, after(e.play_time), i - a.len() - 1);
            let k = choose|k: int| 0 <= k < f.len() && f[k] == q1[i];
            lemma_filter_member(q, not_note_off_of(key), k);
        }
    }
    let w = q1.filter(in_window(start, end));
    assert forall|i: int| 0 <= i < w.len() implies !(#[trigger] w[i]).is_note_off_of(key) by {
        lemma_filter_member(q1, in_window(start, end), i);
        let k = choose|k: int| 0 <= k < q1.len() && q1[k] == w[i];
        assert(!q1[k].is_note_off_of(key));
    }
}

/// A queue of pending events in ascending order of play time; events of equal
/// play time stay in the order in which they were inserted.
pub struct EventQueue {
    events: Vec<TimestampedEvent>,
}

impl View for EventQueue {
    type V = Seq<TimestampedEvent>;

    closed spec fn view(&self) -> Seq<TimestampedEvent> {
        self.events@
    }
}

impl EventQueue {
    pub open spec fn wf(&self) -> bool {
        sorted(self@)
    }

    pub fn new() -> (r: EventQueue)
        ensures
            r@ == Seq::<TimestampedEvent>::empty(),
            r.wf(),
    {
        EventQueue { events: Vec::new() }
    }

    pub fn len(&self) -> (r: usize)
        ensures
            r == self@.len(),
    {
        self.events.len()
    }

    pub fn is_empty(&self) -> (r: bool)
        ensures
            r == (self@.len() == 0),
    {
        self.events.len() == 0
    }

    pub fn get(&self, i: usize) -> (r: TimestampedEvent)
        requires
            i < self@.len(),
        ensures
            r == self@[i as int],
    {
        self.events[i]
    }

    /// Whether a note-off for `key` is pending.
    pub fn holds_note_off(&self, key: NoteKey) -> (r: bool)
        ensures
            r == exists|i: int|
                0 <= i < self@.len() && self@[i].message is NoteOff && self@[i].message.key()
                    == Some(key),
    {
        let mut i: usize = 0;
        while i < self.events.len()
            invariant
                i <= self@.len(),
                forall|j: int|
                    0 <= j < i ==> !(self@[j].message is NoteOff && self@[j].message.key() == Some(
                        key,
                    )),
            decreases self@.len() - i,
        {
            let m = self.events[i].message;
            if m.is_note_off() && m.note_key() == Some(key) {
                return true;
            }
            i = i + 1;
        }
        false
    }

    /// The number of leading events that play at or before `t`.
    fn count_at_or_before(&self, t: u64) -> (p: usize)
        requires
            self.wf(),
        ensures
            p <= self@.len(),
            forall|j: int| 0 <= j < p ==> self@[j].play_time <= t,
            forall|j: int| p <= j < self@.len() ==> self@[j].play_time > t,
    {
        let mut p: usize = 0;
        while p < self.events.len() && self.events[p].play_time <= t
            invariant
                self.wf(),
                p <= self@.len(),
                forall|j: int| 0 <= j < p ==> self@[j].play_time <= t,
            decreases self@.len() - p,
        {
            p = p + 1;
        }
        p
    }

    /// Inserts `e` after every event that plays no later than it.
    pub fn insert(&mut self, e: TimestampedEvent)
        requires
            old(self).wf(),
        ensures
            final(self).wf(),
            final(self)@ == sorted_insert(old(self)@, e),
    {
        let p = self.count_at_or_before(e.play_time);
        let ghost s = self@;
        self.events.insert(p, e);
        proof {
            lemma_split_at(s, e.play_time, p as int);
            assert(self@ =~= s.take(p as int).push(e) + s.skip(p as int));
        }
    }

    /// Removes and returns the event at `i`.
    pub fn remove_at(&mut self, i: usize) -> (r: TimestampedEvent)
        requires
            old(self).wf(),
            i < old(self)@.len(),
        ensures
            final(self).wf(),
            r == old(self)@[i as int],
            final(self)@ == old(self)@.remove(i as int),
    {
        self.events.remove(i)
    }

    /// Removes every pending note-off for `key`.
    pub fn cancel_note_offs(&mut self, key: NoteKey)
        requires
            old(self).wf(),
        ensures
            final(self).wf(),
            final(self)@ == old(self)@.filter(not_note_off_of(key)),
    {
        let ghost s = self@;
        let mut kept: Vec<TimestampedEvent> = Vec::new();
        let mut i: usize = 0;
        while i < self.events.len()
            invariant
                self@ == s,
                i <= s.len(),
                kept@ == s.take(i as int).filter(not_note_off_of(key)),
            decreases s.len() - i,
        {
            let e = self.events[i];
            proof {
                assert(s.take(i + 1).drop_last() =~= s.take(i as int));
                reveal(Seq::filter);
            }
            let is_off = e.message.is_note_off();
            if !(is_off && e.message.note_key() == Some(key)) {
                kept.push(e);
            }
            i = i + 1;
        }
        proof {
            assert(s.take(s.len() as int) =~= s);
            lemma_filter_sorted(s, not_note_off_of(key));
        }
        self.events = kept;
    }

    /// Removes the events that play before `end`. Returns, in order, those
    /// that play in `[start, end)`; those before `start` come too late and are
    /// dropped.
    pub fn extract_due(&mut self, start: u64, end: u64) -> (r: Vec<TimestampedEvent>)
        requires
            old(self).wf(),
        ensures
            final(self).wf(),
            sorted(r@),
            r@ == old(self)@.filter(in_window(start, end)),
            final(self)@ == old(self)@.filter(not_before(end)),
    {
        let ghost s = self@;
        let mut due: Vec<TimestampedEvent> = Vec::new();
        let mut k: usize = 0;
        while k < self.events.len() && self.events[k].play_time < end
            invariant
                self@ == s,
                sorted(s),
                k <= s.len(),
                forall|j: int| 0 <= j < k ==> s[j].play_time < end,
                due@ == s.take(k as int).filter(in_window(start, end)),
            decreases s.len() - k,
        {
            let e = self.events[k];
            proof {
                assert(s.take(k + 1).drop_last() =~= s.take(k as int));
                reveal(Seq::filter);
            }
            if e.play_time >= start {
                due.push(e);
            }
            k = k + 1;
        }
        let mut rest: Vec<TimestampedEvent> = Vec::new();
        let mut i: usize = k;
        while i < self.events.len()
            invariant
                self@ == s,
                k <= i <= s.len(),
                rest@ == s.subrange(k as int, i as int),
            decreases s.len() - i,
        {
            rest.push(self.events[i]);
            proof {
                assert(rest@ =~= s.subrange(k as int, i + 1));
            }
            i = i + 1;
        }
        proof {
            assert(forall|j: int| k <= j < s.len() ==> s[j].play_time >= end);
            lemma_filter_tail_false(s, in_window(start, end), k as int);
            lemma_filter_suffix(s, not_before(end), k as int);
            assert(rest@ =~= s.skip(k as int));
            lemma_filter_sorted(s, in_window(start, end));
            lemma_filter_sorted(s, not_before(end));
        }
        self.events = rest;
        due
    }

    /// Plays every event of `others` `offset` samples later than it says,
    /// and inserts them in their order.
    pub fn merge_with_offset(&mut self, others: &Vec<TimestampedEvent>, offset: u64)
        requires
            old(self).wf(),
            forall|i: int| 0 <= i < others@.len() ==> others@[i].play_time + offset <= u64::MAX,
        ensures
            final(self).wf(),
            final(self)@ == merged(old(self)@, others@, offset),
    {
        let ghost s = self@;
        let mut j: usize = 0;
        while j < others.len()
            invariant
                self.wf(),
                j <= others@.len(),
                forall|i: int| 0 <= i < others@.len() ==> others@[i].play_time + offset <= u64::MAX,
                self@ == merged(s, others@.take(j as int), offset),
            decreases others@.len() - j,
        {
            proof {
                assert(others@.take(j + 1).drop_last() =~= others@.take(j as int));
            }
            let e = others[j];
            self.insert(TimestampedEvent { message: e.message, play_time: e.play_time + offset });
            j = j + 1;
        }
        proof {
            assert(others@.take(others@.len() as int) =~= others@);
        }
    }
}

} // verus!
