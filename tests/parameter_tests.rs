use note_off_delay::events::MidiMessage;
use note_off_delay::expressive_note::ExpressiveNote;
use note_off_delay::note_generator;
use note_off_delay::parameters::{Delay, MaxNotes, Parameter};

#[test]
fn max_notes_from_byte() {
    assert_eq!(MaxNotes::from_byte(0), MaxNotes::Infinite);
    assert_eq!(MaxNotes::from_byte(3), MaxNotes::Infinite);
    assert_eq!(MaxNotes::from_byte(4), MaxNotes::Limited(1));
    assert_eq!(MaxNotes::from_byte(9), MaxNotes::Limited(2));
    assert_eq!(MaxNotes::from_byte(127), MaxNotes::Limited(31));
    assert_eq!(MaxNotes::from_byte(255), MaxNotes::Limited(63));
}

#[test]
fn max_notes_is_monotonic_past_zero() {
    let mut last = 0u8;
    for b in 4..=255u8 {
        match MaxNotes::from_byte(b) {
            MaxNotes::Limited(n) => {
                assert!(n >= last);
                last = n;
            }
            MaxNotes::Infinite => panic!("byte {} gave no ceiling", b),
        }
    }
}

#[test]
fn delay_in_samples() {
    assert_eq!(Delay::Off.to_samples(44100), 0);
    assert_eq!(Delay::Duration(1_000_000).to_samples(44100), 44100);
    assert_eq!(Delay::Duration(10_000).to_samples(44100), 441);
    assert_eq!(Delay::Duration(20_000_000).to_samples(48000), 960_000);
    assert_eq!(Delay::Duration(1).to_samples(44100), 0);
    assert_eq!(Delay::Duration(u32::MAX).to_samples(u32::MAX), 18_446_744_065_119);
}

#[test]
fn delay_samples_grow_with_duration() {
    let mut last = 0u64;
    for us in (0..2_000_000u32).step_by(997) {
        let n = Delay::from_micros(us).to_samples(44100);
        assert!(n >= last);
        last = n;
    }
}

#[test]
fn delay_from_micros() {
    assert_eq!(Delay::from_micros(0), Delay::Off);
    assert!(!Delay::from_micros(0).is_active());
    assert_eq!(Delay::from_micros(250), Delay::Duration(250));
    assert!(Delay::from_micros(250).is_active());
}

#[test]
fn parameter_indices() {
    assert_eq!(Parameter::from_index(0), Some(Parameter::Delay));
    assert_eq!(Parameter::from_index(1), Some(Parameter::MaxNotes));
    assert_eq!(Parameter::from_index(2), Some(Parameter::MaxNotesAppliesToDelayedNotesOnly));
    assert_eq!(Parameter::from_index(3), None);
    assert_eq!(Parameter::from_index(-1), None);
    assert_eq!(Parameter::MaxNotesAppliesToDelayedNotesOnly.index(), 2);
}

#[test]
fn note_generator_parameter_indices() {
    for i in 0..8 {
        assert_eq!(note_generator::Parameter::from_index(i).map(|p| p.index()), Some(i));
    }
    assert_eq!(note_generator::Parameter::from_index(5), Some(note_generator::Parameter::Trigger));
    assert_eq!(note_generator::Parameter::from_index(8), None);
}

#[test]
fn decode_raw_bytes() {
    assert_eq!(
        MidiMessage::from_raw(0x93, 60, 100),
        Some(MidiMessage::NoteOn { channel: 3, pitch: 60, velocity: 100 })
    );
    assert_eq!(
        MidiMessage::from_raw(0x93, 60, 0),
        Some(MidiMessage::NoteOff { channel: 3, pitch: 60, velocity: 0 })
    );
    assert_eq!(
        MidiMessage::from_raw(0x8F, 1, 2),
        Some(MidiMessage::NoteOff { channel: 15, pitch: 1, velocity: 2 })
    );
    assert_eq!(
        MidiMessage::from_raw(0xD2, 7, 0),
        Some(MidiMessage::Other { status: 0xD2, data1: 7, data2: 0 })
    );
    assert_eq!(MidiMessage::from_raw(0xF0, 0, 0), None);
    assert_eq!(MidiMessage::from_raw(0x40, 0, 0), None);
}

#[test]
fn encode_raw_bytes() {
    assert_eq!(MidiMessage::NoteOn { channel: 2, pitch: 64, velocity: 1 }.to_raw(), (0x92, 64, 1));
    assert_eq!(MidiMessage::NoteOff { channel: 18, pitch: 64, velocity: 0 }.to_raw(), (0x82, 64, 0));
    assert_eq!(MidiMessage::Other { status: 0xB0, data1: 74, data2: 9 }.to_raw(), (0xB0, 74, 9));
    assert_eq!(MidiMessage::NoteOn { channel: 2, pitch: 64, velocity: 1 }.note_key(), Some((2, 64)));
    assert_eq!(MidiMessage::Other { status: 0xB0, data1: 74, data2: 9 }.note_key(), None);
}

#[test]
fn expressive_note_holds_its_fields() {
    let n = ExpressiveNote { channel: 1, pitch: 60, velocity: 90, pressure: 10, timbre: 64, pitchbend: -500 };
    let m = n;
    assert_eq!(m, n);
    assert_eq!(m.pitchbend, -500);
}
