use note_off_delay::events::{MidiMessage, TimestampedEvent};
use note_off_delay::queue::EventQueue;

fn on(channel: u8, pitch: u8, t: u64) -> TimestampedEvent {
    TimestampedEvent::new(MidiMessage::NoteOn { channel, pitch, velocity: 100 }, t)
}

fn off(channel: u8, pitch: u8, t: u64) -> TimestampedEvent {
    TimestampedEvent::new(MidiMessage::NoteOff { channel, pitch, velocity: 0 }, t)
}

fn times(q: &EventQueue) -> Vec<u64> {
    (0..q.len()).map(|i| q.get(i).play_time).collect()
}

#[test]
fn insert_keeps_ascending_order() {
    let mut q = EventQueue::new();
    for t in [50u64, 10, 30, 20, 40, 0] {
        q.insert(on(0, 60, t));
    }
    assert_eq!(times(&q), vec![0, 10, 20, 30, 40, 50]);
}

#[test]
fn insert_is_stable_for_equal_times() {
    let mut q = EventQueue::new();
    q.insert(on(0, 1, 5));
    q.insert(on(0, 2, 5));
    q.insert(on(0, 3, 1));
    q.insert(on(0, 4, 5));
    let pitches: Vec<u8> = (0..q.len())
        .map(|i| match q.get(i).message {
            MidiMessage::NoteOn { pitch, .. } => pitch,
            _ => 0,
        })
        .collect();
    assert_eq!(pitches, vec![3, 1, 2, 4]);
}

#[test]
fn extract_due_takes_half_open_window() {
    let mut q = EventQueue::new();
    for t in [100u64, 200, 299, 300, 301] {
        q.insert(on(0, 60, t));
    }
    let due = q.extract_due(100, 300);
    let due_times: Vec<u64> = due.iter().map(|e| e.play_time).collect();
    assert_eq!(due_times, vec![100, 200, 299]);
    assert_eq!(times(&q), vec![300, 301]);
}

#[test]
fn extract_due_drops_late_events() {
    let mut q = EventQueue::new();
    q.insert(on(0, 60, 5));
    q.insert(on(0, 61, 50));
    q.insert(on(0, 62, 150));
    let due = q.extract_due(40, 100);
    assert_eq!(due.len(), 1);
    assert_eq!(due[0].play_time, 50);
    assert_eq!(times(&q), vec![150]);
    assert!(q.extract_due(0, 100).is_empty());
}

#[test]
fn extract_due_on_empty_queue() {
    let mut q = EventQueue::new();
    assert!(q.extract_due(0, 512).is_empty());
    assert!(q.is_empty());
}

#[test]
fn merge_with_offset_delays_each_event() {
    let mut q = EventQueue::new();
    q.insert(on(0, 60, 0));
    q.insert(on(0, 61, 1000));
    let offs = vec![off(0, 60, 10), off(0, 62, 20)];
    q.merge_with_offset(&offs, 500);
    assert_eq!(times(&q), vec![0, 510, 520, 1000]);
    assert_eq!(q.get(1).message, MidiMessage::NoteOff { channel: 0, pitch: 60, velocity: 0 });
}

#[test]
fn merge_with_zero_offset_passes_through() {
    let mut q = EventQueue::new();
    q.insert(on(0, 60, 7));
    q.merge_with_offset(&vec![off(0, 60, 7)], 0);
    assert_eq!(times(&q), vec![7, 7]);
    assert!(q.get(1).message.is_note_off());
}

#[test]
fn cancel_note_offs_removes_only_that_note() {
    let mut q = EventQueue::new();
    q.insert(off(0, 60, 10));
    q.insert(off(1, 60, 20));
    q.insert(on(0, 60, 30));
    q.insert(off(0, 60, 40));
    q.cancel_note_offs((0, 60));
    assert_eq!(times(&q), vec![20, 30]);
    assert_eq!(q.get(0).message, MidiMessage::NoteOff { channel: 1, pitch: 60, velocity: 0 });
    assert!(q.get(1).message.is_note_on());
}

#[test]
fn remove_at_returns_the_entry() {
    let mut q = EventQueue::new();
    q.insert(on(0, 60, 10));
    q.insert(on(0, 61, 20));
    let e = q.remove_at(0);
    assert_eq!(e.play_time, 10);
    assert_eq!(times(&q), vec![20]);
}

#[test]
fn late_event_behind_the_window_is_never_released() {
    let mut q = EventQueue::new();
    q.insert(on(0, 60, 99));
    q.insert(on(0, 61, 100));
    let due = q.extract_due(100, 200);
    assert_eq!(due.len(), 1);
    assert_eq!(due[0].play_time, 100);
    assert!(q.is_empty());
}
