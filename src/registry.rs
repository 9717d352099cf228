//! The notes that are sounding, and the polyphony ceiling that evicts the oldest.

use vstd::prelude::*;
use crate::events::{MidiMessage, NoteKey, TimestampedEvent};
use crate::parameters::MaxNotes;
use crate::queue::EventQueue;

verus! {

broadcast use vstd::seq_lib::group_filter_ensures;

/// Events of another note than `key`.
pub open spec fn other_note(key: NoteKey) -> spec_fn(TimestampedEvent) -> bool {
    |e: TimestampedEvent| e.message.key() != Some(key)
}

/// Whether a note `key` is among the entries.
pub open spec fn tracks(s: Seq<TimestampedEvent>, key: NoteKey) -> bool {
    exists|i: int| 0 <= i < s.len() && s[i].message.key() == Some(key)
}

/// The first entry of least play time.
pub open spec fn oldest_index(s: Seq<TimestampedEvent>) -> int
    decreases s.len(),
{
    if s.len() <= 1 {
        0
    } else {
        let i = oldest_index(s.drop_last());
        if s.last().play_time < s[i].play_time {
            s.len() - 1
        } else {
            i
        }
    }
}

/// Every entry may be evicted.
pub open spec fn any_note() -> spec_fn(TimestampedEvent) -> bool {
    |e: TimestampedEvent| true
}

/// Entries whose note has a note-off pending in `pending`.
pub open spec fn release_pending(pending: Seq<TimestampedEvent>) -> spec_fn(TimestampedEvent) -> bool {
    |e: TimestampedEvent|
        exists|i: int|
            0 <= i < pending.len() && pending[i].message is NoteOff && pending[i].message.key()
                == e.message.key()
}

/// The entries that may be evicted: those with a pending note-off where a
/// queue of pending events is given, else all.
pub open spec fn eligible(pending: Option<Seq<TimestampedEvent>>) -> spec_fn(TimestampedEvent) -> bool {
    match pending {
        Some(q) => release_pending(q),
        None => any_note(),
    }
}

pub open spec fn pending_view(pending: Option<&EventQueue>) -> Option<Seq<TimestampedEvent>> {
    match pending {
        Some(q) => Some(q@),
        None => None,
    }
}

/// The first entry of least play time among those that `elig` accepts; -1
/// where it accepts none.
pub open spec fn oldest_among(s: Seq<TimestampedEvent>, elig: spec_fn(TimestampedEvent) -> bool) -> int
    decreases s.len(),
{
    if s.len() == 0 {
        -1
    } else {
        let i = oldest_among(s.drop_last(), elig);
        if !elig(s.last()) {
            i
        } else if i < 0 || s.last().play_time < s[i].play_time {
            s.len() - 1
        } else {
            i
        }
    }
}

/// The note-off, with velocity zero, that ends the note of `m`.
pub open spec fn release_of(m: MidiMessage) -> MidiMessage {
    match m {
        MidiMessage::NoteOn { channel, pitch, .. } => MidiMessage::NoteOff {
            channel,
            pitch,
            velocity: 0,
        },
        MidiMessage::NoteOff { channel, pitch, .. } => MidiMessage::NoteOff {
            channel,
            pitch,
            velocity: 0,
        },
        MidiMessage::Other { .. } => m,
    }
}

/// The forced note-off of `victim`, at time `t`.
pub open spec fn forced_off(victim: TimestampedEvent, t: u64) -> TimestampedEvent {
    TimestampedEvent { message: release_of(victim.message), play_time: t }
}

/// The entries after the note-on `e` starts its note, with the note it evicts:
/// an earlier entry of the same note is replaced, and the new note goes last;
/// where that makes more entries than the ceiling, the oldest of those that
/// `elig` accepts, if any, is evicted and released at the time of `e`.
pub open spec fn start_note(
    s: Seq<TimestampedEvent>,
    e: TimestampedEvent,
    max_notes: MaxNotes,
    elig: spec_fn(TimestampedEvent) -> bool,
) -> (Seq<TimestampedEvent>, Option<TimestampedEvent>) {
    let key = e.message.key().unwrap();
    let s1 = s.filter(other_note(key)).push(e);
    let v = oldest_among(s1, elig);
    match max_notes {
        MaxNotes::Limited(n) if s1.len() > n && v >= 0 => (
            s1.remove(v),
            Some(forced_off(s1[v], e.play_time)),
        ),
        _ => (s1, None),
    }
}

/// The entries after the event `e`, with the forced note-off it causes.
pub open spec fn step(
    s: Seq<TimestampedEvent>,
    e: TimestampedEvent,
    max_notes: MaxNotes,
    elig: spec_fn(TimestampedEvent) -> bool,
) -> (Seq<TimestampedEvent>, Option<TimestampedEvent>) {
    match e.message {
        MidiMessage::NoteOff { channel, pitch, .. } => (
            s.filter(other_note((channel, pitch))),
            None,
        ),
        MidiMessage::NoteOn { .. } => start_note(s, e, max_notes, elig),
        MidiMessage::Other { .. } => (s, None),
    }
}

pub open spec fn option_seq(o: Option<TimestampedEvent>) -> Seq<TimestampedEvent> {
    match o {
        Some(x) => seq![x],
        None => Seq::empty(),
    }
}

/// The entries after the events, in order, with every forced note-off they cause.
pub open spec fn run(
    s: Seq<TimestampedEvent>,
    events: Seq<TimestampedEvent>,
    max_notes: MaxNotes,
    elig: spec_fn(TimestampedEvent) -> bool,
) -> (Seq<TimestampedEvent>, Seq<TimestampedEvent>)
    decreases events.len(),
{
    if events.len() == 0 {
        (s, Seq::empty())
    } else {
        let (s0, offs) = run(s, events.drop_last(), max_notes, elig);
        let (s1, off) = step(s0, events.last(), max_notes, elig);
        (s1, offs + option_seq(off))
    }
}

/// Entries that are note-ons of distinct notes.
pub open spec fn registry_wf(s: Seq<TimestampedEvent>) -> bool {
    &&& forall|i: int| 0 <= i < s.len() ==> s[i].message is NoteOn
    &&& forall|i: int, j: int|
        0 <= i < s.len() && 0 <= j < s.len() && i != j ==> s[i].message.key() != s[j].message.key()
}

/// The oldest entry plays no later than any entry, and strictly earlier than those before it.
pub proof fn lemma_oldest_index(s: Seq<TimestampedEvent>)
    requires
        s.len() > 0,
    ensures
        0 <= oldest_index(s) < s.len(),
        forall|j: int| 0 <= j < s.len() ==> s[oldest_index(s)].play_time <= #[trigger] s[j].play_time,
        forall|j: int| 0 <= j < oldest_index(s) ==> s[oldest_index(s)].play_time < #[trigger] s[j].play_time,
    decreases s.len(),
{
    if s.len() > 1 {
        let d = s.drop_last();
        lemma_oldest_index(d);
        let i = oldest_index(d);
        assert(d[i] == s[i]);
        assert forall|j: int| 0 <= j < s.len() - 1 implies #[trigger] s[j] == d[j] by {}
    }
}

/// The eligible entry that `oldest_among` picks plays no later than any
/// eligible entry, and strictly earlier than the eligible ones before it.
pub proof fn lemma_oldest_among(s: Seq<TimestampedEvent>, elig: spec_fn(TimestampedEvent) -> bool)
    ensures
        -1 <= oldest_among(s, elig) < s.len(),
        oldest_among(s, elig) >= 0 ==> elig(s[oldest_among(s, elig)]),
        oldest_among(s, elig) < 0 ==> forall|j: int| 0 <= j < s.len() ==> !elig(#[trigger] s[j]),
        forall|j: int|
            0 <= j < s.len() && elig(#[trigger] s[j]) ==> s[oldest_among(s, elig)].play_time
                <= s[j].play_time,
        forall|j: int|
            0 <= j < oldest_among(s, elig) && elig(#[trigger] s[j]) ==> s[oldest_among(
                s,
                elig,
            )].play_time < s[j].play_time,
    decreases s.len(),
{
    if s.len() > 0 {
        let d = s.drop_last();
        lemma_oldest_among(d, elig);
        assert forall|j: int| 0 <= j < s.len() - 1 implies #[trigger] s[j] == d[j] by {}
    }
}

/// Where every entry may be evicted, the pick is the oldest entry.
pub proof fn lemma_oldest_among_any(s: Seq<TimestampedEvent>)
    requires
        s.len() > 0,
    ensures
        oldest_among(s, any_note()) == oldest_index(s),
    decreases s.len(),
{
    let d = s.drop_last();
    assert((any_note())(s.last()));
    if s.len() > 1 {
        lemma_oldest_among_any(d);
        lemma_oldest_index(d);
        assert(s[oldest_index(d)] == d[oldest_index(d)]);
    } else {
        assert(d.len() == 0);
        assert(oldest_among(d, any_note()) == -1);
    }
}

proof fn lemma_filter_wf(s: Seq<TimestampedEvent>, pred: spec_fn(TimestampedEvent) -> bool)
    requires
        registry_wf(s),
    ensures
        registry_wf(s.filter(pred)),
    decreases s.len(),
{
    reveal(Seq::filter);
    if s.len() > 0 {
        let d = s.drop_last();
        assert(registry_wf(d));
        lemma_filter_wf(d, pred);
        let f = d.filter(pred);
        assert forall|i: int| 0 <= i < f.len() implies f[i].message.key()
            != s.last().message.key() by {
            assert(f.contains(f[i]));
            d.lemma_filter_contains_rev(pred, f[i]);
            let k = choose|k: int| 0 <= k < d.len() && d[k] == f[i];
            assert(s[k] == d[k]);
        }
    }
}

/// Starting a note keeps the entries note-ons of distinct notes.
proof fn lemma_start_note_wf(
    s: Seq<TimestampedEvent>,
    e: TimestampedEvent,
    max_notes: MaxNotes,
    elig: spec_fn(TimestampedEvent) -> bool,
)
    requires
        registry_wf(s),
        e.message is NoteOn,
    ensures
        registry_wf(start_note(s, e, max_notes, elig).0),
{
    let key = e.message.key().unwrap();
    let f = s.filter(other_note(key));
    lemma_filter_wf(s, other_note(key));
    let s1 = f.push(e);
    assert forall|i: int| 0 <= i < f.len() implies f[i].message.key() != e.message.key() by {
        assert((other_note(key))(f[i]));
    }
    assert(registry_wf(s1));
    if let MaxNotes::Limited(n) = max_notes {
        let v = oldest_among(s1, elig);
        lemma_oldest_among(s1, elig);
        if s1.len() > n && v >= 0 {
            let r = s1.remove(v);
            assert forall|i: int| 0 <= i < r.len() implies r[i] == s1[if i < v { i } else { i + 1 }] by {}
        }
    }
}

/// Filtering out a note that is not among the entries keeps them all.
proof fn lemma_untracked_kept(s: Seq<TimestampedEvent>, key: NoteKey)
    requires
        !tracks(s, key),
    ensures
        s.filter(other_note(key)) == s,
{
    crate::queue::lemma_filter_prefix(s, other_note(key), s.len() as int);
    assert(s.take(s.len() as int) =~= s);
}

/// With a ceiling of `n`, entries that number no more than `n` still number
/// no more than `n` after any events.
pub proof fn lemma_ceiling_holds(s: Seq<TimestampedEvent>, events: Seq<TimestampedEvent>, n: u8)
    requires
        s.len() <= n,
    ensures
        run(s, events, MaxNotes::Limited(n), any_note()).0.len() <= n,
    decreases events.len(),
{
    if events.len() > 0 {
        lemma_ceiling_holds(s, events.drop_last(), n);
        let s0 = run(s, events.drop_last(), MaxNotes::Limited(n), any_note()).0;
        let e = events.last();
        if let MidiMessage::NoteOn { .. } = e.message {
            let key = e.message.key().unwrap();
            assert(s0.filter(other_note(key)).len() <= s0.len());
            lemma_oldest_among(s0.filter(other_note(key)).push(e), any_note());
            lemma_oldest_among_any(s0.filter(other_note(key)).push(e));
            lemma_oldest_index(s0.filter(other_note(key)).push(e));
        } else if let MidiMessage::NoteOff { channel, pitch, .. } = e.message {
            assert(s0.filter(other_note((channel, pitch))).len() <= s0.len());
        }
    }
}

/// Where `n` notes sound and a note-on of another note comes under a ceiling
/// of `n`, exactly one note is released, at the time of the note-on: the one
/// of least play time, and `n` notes sound after it.
pub proof fn lemma_one_eviction_of_oldest(s: Seq<TimestampedEvent>, e: TimestampedEvent, n: u8)
    requires
        registry_wf(s),
        s.len() == n,
        e.message is NoteOn,
        !tracks(s, e.message.key().unwrap()),
    ensures
        ({
            let s1 = s.push(e);
            let v = oldest_index(s1);
            &&& 0 <= v < s1.len()
            &&& step(s, e, MaxNotes::Limited(n), any_note()).1 == Some(forced_off(s1[v], e.play_time))
            &&& forall|j: int| 0 <= j < s1.len() ==> s1[v].play_time <= #[trigger] s1[j].play_time
            &&& step(s, e, MaxNotes::Limited(n), any_note()).0 == s1.remove(v)
            &&& step(s, e, MaxNotes::Limited(n), any_note()).0.len() == n
        }),
{
    lemma_untracked_kept(s, e.message.key().unwrap());
    lemma_oldest_index(s.push(e));
    lemma_oldest_among_any(s.push(e));
}

/// Without a ceiling, no note is ever released by force.
pub proof fn lemma_infinite_never_releases(
    s: Seq<TimestampedEvent>,
    events: Seq<TimestampedEvent>,
    elig: spec_fn(TimestampedEvent) -> bool,
)
    ensures
        run(s, events, MaxNotes::Infinite, elig).1 == Seq::<TimestampedEvent>::empty(),
    decreases events.len(),
{
    if events.len() > 0 {
        lemma_infinite_never_releases(s, events.drop_last(), elig);
        assert(Seq::<TimestampedEvent>::empty() + Seq::<TimestampedEvent>::empty() =~= Seq::<
            TimestampedEvent,
        >::empty());
    }
}

/// A note-off for a note that is not sounding changes nothing and releases nothing.
pub proof fn lemma_untracked_note_off(
    s: Seq<TimestampedEvent>,
    e: TimestampedEvent,
    max_notes: MaxNotes,
    elig: spec_fn(TimestampedEvent) -> bool,
)
    requires
        e.message is NoteOff,
        !tracks(s, e.message.key().unwrap()),
    ensures
        step(s, e, max_notes, elig) == (s, Option::<TimestampedEvent>::None),
{
    lemma_untracked_kept(s, e.message.key().unwrap());
}

/// Where only notes with a pending note-off may be evicted, a forced
/// note-off is only ever for such a note.
pub proof fn lemma_only_pending_notes_released(
    s: Seq<TimestampedEvent>,
    e: TimestampedEvent,
    max_notes: MaxNotes,
    pending: Seq<TimestampedEvent>,
)
    ensures
        step(s, e, max_notes, release_pending(pending)).1 matches Some(off) ==> exists|i: int|
            0 <= i < pending.len() && pending[i].message is NoteOff && pending[i].message.key()
                == off.message.key(),
{
    if let MidiMessage::NoteOn { .. } = e.message {
        let s1 = s.filter(other_note(e.message.key().unwrap())).push(e);
        lemma_oldest_among(s1, release_pending(pending));
    }
}

/// The notes that are sounding, each with the note-on that started it, in the
/// order in which they were last started.
pub struct CurrentPlayingNotes {
    notes: Vec<TimestampedEvent>,
}

impl View for CurrentPlayingNotes {
    type V = Seq<TimestampedEvent>;

    closed spec fn view(&self) -> Seq<TimestampedEvent> {
        self.notes@
    }
}

impl CurrentPlayingNotes {
    pub open spec fn wf(&self) -> bool {
        registry_wf(self@)
    }

    pub fn new() -> (r: CurrentPlayingNotes)
        ensures
            r@ == Seq::<TimestampedEvent>::empty(),
            r.wf(),
    {
        CurrentPlayingNotes { notes: Vec::new() }
    }

    pub fn len(&self) -> (r: usize)
        ensures
            r == self@.len(),
    {
        self.notes.len()
    }

    /// Whether the note `key` is sounding.
    pub fn contains(&self, key: NoteKey) -> (r: bool)
        ensures
            r == tracks(self@, key),
    {
        let mut i: usize = 0;
        while i < self.notes.len()
            invariant
                i <= self@.len(),
                forall|j: int| 0 <= j < i ==> self@[j].message.key() != Some(key),
            decreases self@.len() - i,
        {
            if self.notes[i].message.note_key() == Some(key) {
                return true;
            }
            i = i + 1;
        }
        false
    }

    fn oldest_position(&self) -> (r: usize)
        requires
            self@.len() > 0,
        ensures
            r == oldest_index(self@),
            r < self@.len(),
    {
        let ghost s = self@;
        let mut best: usize = 0;
        let mut i: usize = 1;
        proof {
            assert(s.take(1).len() == 1);
        }
        while i < self.notes.len()
            invariant
                s == self@,
                1 <= i <= s.len(),
                best < i,
                best == oldest_index(s.take(i as int)),
            decreases s.len() - i,
        {
            proof {
                assert(s.take(i + 1).drop_last() =~= s.take(i as int));
            }
            if self.notes[i].play_time < self.notes[best].play_time {
                best = i;
            }
            i = i + 1;
        }
        proof {
            assert(s.take(s.len() as int) =~= s);
            lemma_oldest_index(s);
        }
        best
    }

    /// The entry of the note that has sounded longest: of least play time, and
    /// the earliest started among equals.
    pub fn oldest(&self) -> (r: Option<TimestampedEvent>)
        ensures
            self@.len() == 0 ==> r is None,
            self@.len() > 0 ==> r == Some(self@[oldest_index(self@)]),
    {
        if self.notes.len() == 0 {
            None
        } else {
            let i = self.oldest_position();
            Some(self.notes[i])
        }
    }

    /// Forgets the note `key`, if it is sounding.
    fn remove_note(&mut self, key: NoteKey)
        requires
            old(self).wf(),
        ensures
            final(self).wf(),
            final(self)@ == old(self)@.filter(other_note(key)),
    {
        let ghost s = self@;
        let mut kept: Vec<TimestampedEvent> = Vec::new();
        let mut i: usize = 0;
        while i < self.notes.len()
            invariant
                self@ == s,
                i <= s.len(),
                kept@ == s.take(i as int).filter(other_note(key)),
            decreases s.len() - i,
        {
            let e = self.notes[i];
            proof {
                assert(s.take(i + 1).drop_last() =~= s.take(i as int));
                reveal(Seq::filter);
            }
            if e.message.note_key() != Some(key) {
                kept.push(e);
            }
            i = i + 1;
        }
        proof {
            assert(s.take(s.len() as int) =~= s);
            lemma_filter_wf(s, other_note(key));
        }
        self.notes = kept;
    }

    /// Whether `entry` may be evicted: it may where no queue is given, else
    /// where the queue holds a note-off for its note.
    fn may_evict(entry: &TimestampedEvent, pending: Option<&EventQueue>) -> (r: bool)
        ensures
            r == (eligible(pending_view(pending)))(*entry),
    {
        match pending {
            None => true,
            Some(q) => match entry.message.note_key() {
                Some(key) => q.holds_note_off(key),
                None => false,
            },
        }
    }

    fn oldest_eligible(&self, pending: Option<&EventQueue>) -> (r: Option<usize>)
        ensures
            r matches Some(v) ==> v == oldest_among(self@, eligible(pending_view(pending))),
            r is None ==> oldest_among(self@, eligible(pending_view(pending))) < 0,
    {
        let ghost s = self@;
        let ghost elig = eligible(pending_view(pending));
        let mut found = false;
        let mut best: usize = 0;
        let mut i: usize = 0;
        while i < self.notes.len()
            invariant
                s == self@,
                elig == eligible(pending_view(pending)),
                i <= s.len(),
                found ==> best < i,
                oldest_among(s.take(i as int), elig) == (if found { best as int } else { -1 }),
            decreases s.len() - i,
        {
            proof {
                assert(s.take(i + 1).drop_last() =~= s.take(i as int));
                assert(s.take(i + 1).last() == s[i as int]);
                if found {
                    assert(s.take(i + 1)[best as int] == s[best as int]);
                }
            }
            if Self::may_evict(&self.notes[i], pending) {
                if !found || self.notes[i].play_time < self.notes[best].play_time {
                    best = i;
                    found = true;
                }
            }
            i = i + 1;
        }
        proof {
            assert(s.take(s.len() as int) =~= s);
        }
        if found {
            Some(best)
        } else {
            None
        }
    }

    /// Starts the note of a note-on, evicting under the ceiling among the
    /// entries that `pending` allows.
    fn start(
        &mut self,
        event: TimestampedEvent,
        max_notes: MaxNotes,
        pending: Option<&EventQueue>,
    ) -> (r: Option<TimestampedEvent>)
        requires
            old(self).wf(),
            event.message is NoteOn,
        ensures
            final(self).wf(),
            (final(self)@, r) == start_note(old(self)@, event, max_notes, eligible(pending_view(pending))),
    {
        let key = match event.message.note_key() {
            Some(key) => key,
            None => (0, 0),
        };
        proof {
            lemma_start_note_wf(self@, event, max_notes, eligible(pending_view(pending)));
        }
        self.remove_note(key);
        self.notes.push(event);
        if let MaxNotes::Limited(n) = max_notes {
            if self.notes.len() > n as usize {
                proof {
                    lemma_oldest_among(self@, eligible(pending_view(pending)));
                }
                if let Some(v) = self.oldest_eligible(pending) {
                    let victim = self.notes.remove(v);
                    let release = match victim.message {
                        MidiMessage::NoteOn { channel, pitch, .. } => MidiMessage::NoteOff {
                            channel,
                            pitch,
                            velocity: 0,
                        },
                        MidiMessage::NoteOff { channel, pitch, .. } => MidiMessage::NoteOff {
                            channel,
                            pitch,
                            velocity: 0,
                        },
                        MidiMessage::Other { .. } => victim.message,
                    };
                    return Some(TimestampedEvent { message: release, play_time: event.play_time });
                }
            }
        }
        None
    }

    /// Starts the note of a note-on; where that makes more notes than
    /// `max_notes`, evicts the oldest and returns its forced note-off. Any
    /// other event is ignored.
    pub fn add_event(&mut self, event: TimestampedEvent, max_notes: MaxNotes) -> (r: Option<
        TimestampedEvent,
    >)
        requires
            old(self).wf(),
        ensures
            final(self).wf(),
            event.message is NoteOn ==> (final(self)@, r) == start_note(old(self)@, event, max_notes, any_note()),
            !(event.message is NoteOn) ==> final(self)@ == old(self)@ && r is None,
    {
        if event.message.is_note_on() {
            self.start(event, max_notes, None)
        } else {
            None
        }
    }

    /// Takes one due event into account: a note-off forgets its note, a
    /// note-on starts its note. Returns the forced note-off it causes, if any;
    /// where `pending` is given, only a note with a note-off in it may be
    /// evicted.
    pub fn handle_event(
        &mut self,
        event: TimestampedEvent,
        max_notes: MaxNotes,
        pending: Option<&EventQueue>,
    ) -> (r: Option<TimestampedEvent>)
        requires
            old(self).wf(),
        ensures
            final(self).wf(),
            (final(self)@, r) == step(old(self)@, event, max_notes, eligible(pending_view(pending))),
    {
        match event.message {
            MidiMessage::NoteOff { channel, pitch, .. } => {
                self.remove_note((channel, pitch));
                None
            },
            MidiMessage::NoteOn { .. } => self.start(event, max_notes, pending),
            MidiMessage::Other { .. } => None,
        }
    }

    /// Takes the due events of a block into account, in order. Returns the
    /// forced note-offs they cause, in order.
    pub fn update(&mut self, events: &Vec<TimestampedEvent>, max_notes: MaxNotes) -> (r: Vec<
        TimestampedEvent,
    >)
        requires
            old(self).wf(),
        ensures
            final(self).wf(),
            (final(self)@, r@) == run(old(self)@, events@, max_notes, any_note()),
    {
        let ghost s = self@;
        let mut notes_off: Vec<TimestampedEvent> = Vec::new();
        let mut i: usize = 0;
        while i < events.len()
            invariant
                self.wf(),
                i <= events@.len(),
                (self@, notes_off@) == run(s, events@.take(i as int), max_notes, any_note()),
            decreases events@.len() - i,
        {
            proof {
                assert(events@.take(i + 1).drop_last() =~= events@.take(i as int));
            }
            let off = self.handle_event(events[i], max_notes, None);
            match off {
                Some(x) => {
                    notes_off.push(x);
                },
                None => {},
            }
            proof {
                assert(notes_off@ =~= run(s, events@.take(i as int), max_notes, any_note()).1
                    + option_seq(off));
            }
            i = i + 1;
        }
        proof {
            assert(events@.take(events@.len() as int) =~= events@);
        }
        notes_off
    }
}

} // verus!
