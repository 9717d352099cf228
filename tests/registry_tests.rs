use note_off_delay::events::{MidiMessage, TimestampedEvent};
use note_off_delay::parameters::MaxNotes;
use note_off_delay::queue::EventQueue;
use note_off_delay::registry::CurrentPlayingNotes;

fn on(channel: u8, pitch: u8, t: u64) -> TimestampedEvent {
    TimestampedEvent::new(MidiMessage::NoteOn { channel, pitch, velocity: 100 }, t)
}

fn off(channel: u8, pitch: u8, t: u64) -> TimestampedEvent {
    TimestampedEvent::new(MidiMessage::NoteOff { channel, pitch, velocity: 0 }, t)
}

#[test]
fn ceiling_evicts_the_oldest_note() {
    let mut notes = CurrentPlayingNotes::new();
    assert_eq!(notes.add_event(on(0, 60, 10), MaxNotes::Limited(2)), None);
    assert_eq!(notes.add_event(on(0, 62, 20), MaxNotes::Limited(2)), None);
    let forced = notes.add_event(on(0, 64, 30), MaxNotes::Limited(2));
    assert_eq!(forced, Some(off(0, 60, 30)));
    assert_eq!(notes.len(), 2);
    assert!(!notes.contains((0, 60)));
    assert!(notes.contains((0, 62)));
    assert!(notes.contains((0, 64)));
}

#[test]
fn ceiling_never_exceeded_over_many_notes() {
    let mut notes = CurrentPlayingNotes::new();
    let mut forced = 0;
    for p in 0..20u8 {
        if notes.add_event(on(0, p, p as u64), MaxNotes::Limited(3)).is_some() {
            forced += 1;
        }
        assert!(notes.len() <= 3);
    }
    assert_eq!(forced, 17);
}

#[test]
fn infinite_policy_never_forces() {
    let mut notes = CurrentPlayingNotes::new();
    let events: Vec<TimestampedEvent> = (0..100u8).map(|p| on(p % 16, p, p as u64)).collect();
    let forced = notes.update(&events, MaxNotes::Infinite);
    assert!(forced.is_empty());
    assert_eq!(notes.len(), 100);
}

#[test]
fn untracked_note_off_is_a_no_op() {
    let mut notes = CurrentPlayingNotes::new();
    notes.add_event(on(0, 60, 0), MaxNotes::Limited(1));
    assert_eq!(notes.handle_event(off(0, 61, 5), MaxNotes::Limited(1), None), None);
    assert_eq!(notes.len(), 1);
    assert!(notes.contains((0, 60)));
    let forced = notes.update(&vec![off(3, 3, 6)], MaxNotes::Limited(1));
    assert!(forced.is_empty());
    assert_eq!(notes.len(), 1);
}

#[test]
fn note_off_forgets_the_note() {
    let mut notes = CurrentPlayingNotes::new();
    notes.update(&vec![on(0, 60, 0), on(0, 61, 1), off(0, 60, 2)], MaxNotes::Infinite);
    assert_eq!(notes.len(), 1);
    assert!(!notes.contains((0, 60)));
}

#[test]
fn retriggered_note_is_counted_once() {
    let mut notes = CurrentPlayingNotes::new();
    let forced = notes.update(&vec![on(0, 60, 0), on(0, 60, 5), on(0, 60, 9)], MaxNotes::Limited(1));
    assert!(forced.is_empty());
    assert_eq!(notes.len(), 1);
    assert_eq!(notes.oldest().map(|e| e.play_time), Some(9));
}

#[test]
fn oldest_breaks_ties_by_start_order() {
    let mut notes = CurrentPlayingNotes::new();
    assert_eq!(notes.oldest(), None);
    notes.add_event(on(0, 70, 4), MaxNotes::Infinite);
    notes.add_event(on(0, 71, 4), MaxNotes::Infinite);
    notes.add_event(on(0, 72, 9), MaxNotes::Infinite);
    assert_eq!(notes.oldest(), Some(on(0, 70, 4)));
}

#[test]
fn update_returns_forced_offs_in_order() {
    let mut notes = CurrentPlayingNotes::new();
    let events = vec![on(0, 1, 0), on(0, 2, 1), on(0, 3, 2), on(0, 4, 3)];
    let forced = notes.update(&events, MaxNotes::Limited(2));
    assert_eq!(forced, vec![off(0, 1, 2), off(0, 2, 3)]);
}

#[test]
fn other_messages_are_ignored_by_the_registry() {
    let mut notes = CurrentPlayingNotes::new();
    let bend = TimestampedEvent::new(MidiMessage::Other { status: 0xE0, data1: 0, data2: 64 }, 0);
    assert_eq!(notes.add_event(bend, MaxNotes::Limited(1)), None);
    assert_eq!(notes.handle_event(bend, MaxNotes::Limited(1), None), None);
    assert_eq!(notes.len(), 0);
}

#[test]
fn eviction_limited_to_notes_with_pending_release() {
    let mut notes = CurrentPlayingNotes::new();
    let mut pending = EventQueue::new();
    notes.add_event(on(0, 60, 0), MaxNotes::Infinite);
    notes.add_event(on(0, 62, 1), MaxNotes::Infinite);
    pending.insert(off(0, 62, 500));
    let forced = notes.handle_event(on(0, 64, 2), MaxNotes::Limited(2), Some(&pending));
    assert_eq!(forced, Some(off(0, 62, 2)));
    assert!(notes.contains((0, 60)));
    let none = notes.handle_event(on(0, 65, 3), MaxNotes::Limited(2), Some(&EventQueue::new()));
    assert_eq!(none, None);
    assert_eq!(notes.len(), 3);
}
