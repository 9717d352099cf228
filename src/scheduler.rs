//! The per-block pipeline: incoming events are classified and queued, note-offs
//! are delayed, due events are released, and the polyphony ceiling is enforced.

use vstd::prelude::*;
use crate::events::{MidiMessage, TimestampedEvent};
use crate::parameters::{Delay, MaxNotes};
use crate::queue::{
    EventQueue, sorted, sorted_insert, merged, in_window, not_before, not_note_off_of,
};
use crate::registry::{
    CurrentPlayingNotes, registry_wf, step, run, option_seq, eligible, pending_view,
};

verus! {

/// An event as the host hands it over: raw bytes at an offset into the block.
#[derive(Clone, Copy, Debug, PartialEq, Eq, Structural)]
pub struct InputEvent {
    pub delta_frames: u32,
    pub status: u8,
    pub data1: u8,
    pub data2: u8,
}

/// The event that `input` stands for in a block that starts at `now`; `None`
/// for bytes that are no channel-voice message.
pub open spec fn timestamped(input: InputEvent, now: u64) -> Option<TimestampedEvent> {
    match MidiMessage::decoded(input.status, input.data1, input.data2) {
        Some(m) => Some(TimestampedEvent { message: m, play_time: (now + input.delta_frames) as u64 }),
        None => None,
    }
}

/// The queue and the note-offs of the block so far, after one more event: a
/// note-off waits for the end of the block; a note-on cancels the pending
/// note-offs of its note and is queued; any other message is queued.
pub open spec fn classify(
    q: Seq<TimestampedEvent>,
    offs: Seq<TimestampedEvent>,
    e: TimestampedEvent,
) -> (Seq<TimestampedEvent>, Seq<TimestampedEvent>) {
    match e.message {
        MidiMessage::NoteOff { .. } => (q, offs.push(e)),
        MidiMessage::NoteOn { channel, pitch, .. } => (
            sorted_insert(q.filter(not_note_off_of((channel, pitch))), e),
            offs,
        ),
        MidiMessage::Other { .. } => (sorted_insert(q, e), offs),
    }
}

/// The queue and the note-offs of a block after all its events, in order.
pub open spec fn classify_all(q: Seq<TimestampedEvent>, inputs: Seq<InputEvent>, now: u64) -> (
    Seq<TimestampedEvent>,
    Seq<TimestampedEvent>,
)
    decreases inputs.len(),
{
    if inputs.len() == 0 {
        (q, Seq::empty())
    } else {
        let (q0, offs) = classify_all(q, inputs.drop_last(), now);
        match timestamped(inputs.last(), now) {
            Some(e) => classify(q0, offs, e),
            None => (q0, offs),
        }
    }
}

/// The sounding notes and the output after the due events, in order: each
/// event is followed by the forced note-off it causes, if any.
pub open spec fn respond(
    s: Seq<TimestampedEvent>,
    due: Seq<TimestampedEvent>,
    max_notes: MaxNotes,
    elig: spec_fn(TimestampedEvent) -> bool,
) -> (Seq<TimestampedEvent>, Seq<TimestampedEvent>)
    decreases due.len(),
{
    if due.len() == 0 {
        (s, Seq::empty())
    } else {
        let (s0, out) = respond(s, due.drop_last(), max_notes, elig);
        let (s1, off) = step(s0, due.last(), max_notes, elig);
        (s1, out.push(due.last()) + option_seq(off))
    }
}

/// A block leaves the sounding notes as the registry's batch update of its
/// due events would, so the ceiling holds across blocks as it does there.
pub proof fn lemma_respond_updates_as_run(
    s: Seq<TimestampedEvent>,
    due: Seq<TimestampedEvent>,
    max_notes: MaxNotes,
    elig: spec_fn(TimestampedEvent) -> bool,
)
    ensures
        respond(s, due, max_notes, elig).0 == run(s, due, max_notes, elig).0,
    decreases due.len(),
{
    if due.len() > 0 {
        lemma_respond_updates_as_run(s, due.drop_last(), max_notes, elig);
    }
}

/// Without a ceiling, a block releases exactly its due events, unchanged and in order.
pub proof fn lemma_infinite_releases_due_only(
    s: Seq<TimestampedEvent>,
    due: Seq<TimestampedEvent>,
    elig: spec_fn(TimestampedEvent) -> bool,
)
    ensures
        respond(s, due, MaxNotes::Infinite, elig).1 == due,
    decreases due.len(),
{
    if due.len() > 0 {
        lemma_infinite_releases_due_only(s, due.drop_last(), elig);
        let (s0, out) = respond(s, due.drop_last(), MaxNotes::Infinite, elig);
        let off = step(s0, due.last(), MaxNotes::Infinite, elig).1;
        assert(off is None);
        assert(out.push(due.last()) + option_seq(off) =~= due);
    }
}

/// The scheduler of one processor instance: its queue of pending events, its
/// sounding notes, and its clock in samples.
pub struct NoteOffScheduler {
    queue: EventQueue,
    notes: CurrentPlayingNotes,
    current_time: u64,
    sample_rate: u32,
}

impl NoteOffScheduler {
    pub closed spec fn pending(&self) -> Seq<TimestampedEvent> {
        self.queue@
    }

    pub closed spec fn sounding(&self) -> Seq<TimestampedEvent> {
        self.notes@
    }

    pub closed spec fn time(&self) -> u64 {
        self.current_time
    }

    pub closed spec fn rate(&self) -> u32 {
        self.sample_rate
    }

    pub open spec fn wf(&self) -> bool {
        sorted(self.pending()) && registry_wf(self.sounding())
    }

    pub fn new(sample_rate: u32) -> (r: NoteOffScheduler)
        ensures
            r.wf(),
            r.pending() == Seq::<TimestampedEvent>::empty(),
            r.sounding() == Seq::<TimestampedEvent>::empty(),
            r.time() == 0,
            r.rate() == sample_rate,
    {
        NoteOffScheduler {
            queue: EventQueue::new(),
            notes: CurrentPlayingNotes::new(),
            current_time: 0,
            sample_rate,
        }
    }

    pub fn set_sample_rate(&mut self, sample_rate: u32)
        ensures
            final(self).rate() == sample_rate,
            final(self).pending() == old(self).pending(),
            final(self).sounding() == old(self).sounding(),
            final(self).time() == old(self).time(),
    {
        self.sample_rate = sample_rate;
    }

    pub fn sample_rate(&self) -> (r: u32)
        ensures
            r == self.rate(),
    {
        self.sample_rate
    }

    pub fn current_time(&self) -> (r: u64)
        ensures
            r == self.time(),
    {
        self.current_time
    }

    pub fn queue(&self) -> (r: &EventQueue)
        ensures
            r@ == self.pending(),
    {
        &self.queue
    }

    pub fn notes(&self) -> (r: &CurrentPlayingNotes)
        ensures
            r@ == self.sounding(),
    {
        &self.notes
    }

    /// Takes in the events of the block that starts now. Note-ons and other
    /// messages are queued at their own time, a note-on first cancelling the
    /// pending note-offs of its note; note-offs are queued last, `delay` later
    /// than their own time.
    pub fn process_events(&mut self, events: &Vec<InputEvent>, delay: Delay)
        requires
            old(self).wf(),
            forall|i: int|
                0 <= i < events@.len() ==> old(self).time() + (#[trigger] events@[i]).delta_frames
                    + delay.samples(old(self).rate()) <= u64::MAX,
        ensures
            final(self).wf(),
            ({
                let (q, offs) = classify_all(old(self).pending(), events@, old(self).time());
                final(self).pending() == merged(q, offs, delay.samples(old(self).rate()))
            }),
            final(self).sounding() == old(self).sounding(),
            final(self).time() == old(self).time(),
            final(self).rate() == old(self).rate(),
    {
        let d = delay.to_samples(self.sample_rate);
        let now = self.current_time;
        let ghost q0 = self.queue@;
        let mut notes_off: Vec<TimestampedEvent> = Vec::new();
        let mut i: usize = 0;
        while i < events.len()
            invariant
                self.queue.wf(),
                self.notes == old(self).notes,
                self.current_time == now,
                self.sample_rate == old(self).sample_rate,
                d == delay.samples(self.sample_rate),
                i <= events@.len(),
                forall|k: int|
                    0 <= k < events@.len() ==> now + (#[trigger] events@[k]).delta_frames + d
                        <= u64::MAX,
                forall|k: int| 0 <= k < notes_off@.len() ==> notes_off@[k].play_time + d <= u64::MAX,
                (self.queue@, notes_off@) == classify_all(q0, events@.take(i as int), now),
            decreases events@.len() - i,
        {
            proof {
                assert(events@.take(i + 1).drop_last() =~= events@.take(i as int));
                assert(events@.take(i + 1).last() == events@[i as int]);
            }
            let input = events[i];
            match MidiMessage::from_raw(input.status, input.data1, input.data2) {
                Some(m) => {
                    let e = TimestampedEvent { message: m, play_time: now + input.delta_frames as u64 };
                    match m {
                        MidiMessage::NoteOff { .. } => {
                            notes_off.push(e);
                        },
                        MidiMessage::NoteOn { channel, pitch, .. } => {
                            self.queue.cancel_note_offs((channel, pitch));
                            self.queue.insert(e);
                        },
                        MidiMessage::Other { .. } => {
                            self.queue.insert(e);
                        },
                    }
                },
                None => {},
            }
            i = i + 1;
        }
        proof {
            assert(events@.take(events@.len() as int) =~= events@);
        }
        self.queue.merge_with_offset(&notes_off, d);
    }

    /// Plays a block of `samples` samples that starts now: releases the
    /// queued events of the block in order, each followed by the forced
    /// note-off that it causes under `max_notes`, drops queued events that
    /// are already late, and moves the clock to the end of the block. With
    /// `delayed_only`, the ceiling only evicts notes whose note-off is still
    /// pending after the block: a held note is never cut.
    pub fn process(&mut self, samples: u64, max_notes: MaxNotes, delayed_only: bool) -> (r: Vec<
        TimestampedEvent,
    >)
        requires
            old(self).wf(),
            old(self).time() + samples <= u64::MAX,
        ensures
            final(self).wf(),
            sorted(r@),
            ({
                let start = old(self).time();
                let end = (start + samples) as u64;
                let due = old(self).pending().filter(in_window(start, end));
                let rest = old(self).pending().filter(not_before(end));
                let elig = eligible(if delayed_only { Some(rest) } else { None });
                &&& final(self).pending() == rest
                &&& (final(self).sounding(), r@) == respond(old(self).sounding(), due, max_notes, elig)
                &&& final(self).time() == end
            }),
            final(self).rate() == old(self).rate(),
    {
        let start = self.current_time;
        let end = start + samples;
        let due = self.queue.extract_due(start, end);
        let ghost s = self.notes@;
        let ghost rest = self.queue@;
        let ghost elig = eligible(if delayed_only { Some(rest) } else { None });
        let mut out: Vec<TimestampedEvent> = Vec::new();
        let mut i: usize = 0;
        while i < due.len()
            invariant
                self.notes.wf(),
                self.queue.wf(),
                self.queue@ == rest,
                elig == eligible(if delayed_only { Some(rest) } else { None }),
                self.current_time == start,
                self.sample_rate == old(self).sample_rate,
                sorted(due@),
                i <= due@.len(),
                (self.notes@, out@) == respond(s, due@.take(i as int), max_notes, elig),
                sorted(out@),
                out@.len() > 0 && i < due@.len() ==> out@.last().play_time <= due@[i as int].play_time,
            decreases due@.len() - i,
        {
            proof {
                assert(due@.take(i + 1).drop_last() =~= due@.take(i as int));
            }
            let e = due[i];
            let ghost before = out@;
            out.push(e);
            let pending = if delayed_only {
                Some(&self.queue)
            } else {
                None
            };
            proof {
                if delayed_only {
                    assert(pending_view(pending) == Some(rest));
                } else {
                    assert(pending_view(pending) == Option::<Seq<TimestampedEvent>>::None);
                }
            }
            let off = self.notes.handle_event(e, max_notes, pending);

            match off {
                Some(x) => {
                    out.push(x);
                },
                None => {},
            }
            proof {
                assert(out@ =~= before.push(e) + option_seq(off));
                if let Some(x) = off {
                    assert(x.play_time == e.play_time);
                }
            }
            i = i + 1;
        }
        proof {
            assert(due@.take(due@.len() as int) =~= due@);
        }
        self.current_time = end;
        out
    }
}

} // verus!
