//! Timestamped channel-voice messages.

use vstd::prelude::*;

verus! {

/// A channel-voice message, decoded from its three raw bytes.
#[derive(Clone, Copy, Debug, PartialEq, Eq, Structural)]
pub enum MidiMessage {
    NoteOn { channel: u8, pitch: u8, velocity: u8 },
    NoteOff { channel: u8, pitch: u8, velocity: u8 },
    /// Any other channel-voice message (pressure, control change, pitch bend...).
    Other { status: u8, data1: u8, data2: u8 },
}

/// The `(channel, pitch)` identity of a note.
pub type NoteKey = (u8, u8);

impl MidiMessage {
    /// Reading of three raw bytes: `None` for bytes that are no channel-voice
    /// message. A note-on with velocity zero is a note-off.
    pub open spec fn decoded(status: u8, data1: u8, data2: u8) -> Option<MidiMessage> {
        let kind = status / 16;
        let channel = (status % 16) as u8;
        if kind == 9 && data2 > 0 {
            Some(MidiMessage::NoteOn { channel, pitch: data1, velocity: data2 })
        } else if kind == 8 || kind == 9 {
            Some(MidiMessage::NoteOff { channel, pitch: data1, velocity: data2 })
        } else if 10 <= kind <= 14 {
            Some(MidiMessage::Other { status, data1, data2 })
        } else {
            None
        }
    }

    /// The raw bytes of the message; the channel is taken modulo 16.
    pub open spec fn raw(self) -> (u8, u8, u8) {
        match self {
            MidiMessage::NoteOn { channel, pitch, velocity } => (
                (144 + channel % 16) as u8,
                pitch,
                velocity,
            ),
            MidiMessage::NoteOff { channel, pitch, velocity } => (
                (128 + channel % 16) as u8,
                pitch,
                velocity,
            ),
            MidiMessage::Other { status, data1, data2 } => (status, data1, data2),
        }
    }

    /// The note identity of a note-on or note-off.
    pub open spec fn key(self) -> Option<NoteKey> {
        match self {
            MidiMessage::NoteOn { channel, pitch, .. } => Some((channel, pitch)),
            MidiMessage::NoteOff { channel, pitch, .. } => Some((channel, pitch)),
            MidiMessage::Other { .. } => None,
        }
    }

    pub fn from_raw(status: u8, data1: u8, data2: u8) -> (r: Option<MidiMessage>)
        ensures
            r == Self::decoded(status, data1, data2),
    {
        let kind: u8 = status / 16;
        let channel: u8 = status % 16;
        if kind == 9 && data2 > 0 {
            Some(MidiMessage::NoteOn { channel, pitch: data1, velocity: data2 })
        } else if kind == 8 || kind == 9 {
            Some(MidiMessage::NoteOff { channel, pitch: data1, velocity: data2 })
        } else if 10 <= kind && kind <= 14 {
            Some(MidiMessage::Other { status, data1, data2 })
        } else {
            None
        }
    }

    pub fn to_raw(&self) -> (r: (u8, u8, u8))
        ensures
            r == self.raw(),
    {
        match *self {
            MidiMessage::NoteOn { channel, pitch, velocity } => (144 + channel % 16, pitch, velocity),
            MidiMessage::NoteOff { channel, pitch, velocity } => (128 + channel % 16, pitch, velocity),
            MidiMessage::Other { status, data1, data2 } => (status, data1, data2),
        }
    }

    pub fn note_key(&self) -> (r: Option<NoteKey>)
        ensures
            r == self.key(),
    {
        match *self {
            MidiMessage::NoteOn { channel, pitch, .. } => Some((channel, pitch)),
            MidiMessage::NoteOff { channel, pitch, .. } => Some((channel, pitch)),
            MidiMessage::Other { .. } => None,
        }
    }

    pub fn is_note_on(&self) -> (r: bool)
        ensures
            r == (self is NoteOn),
    {
        matches!(*self, MidiMessage::NoteOn { .. })
    }

    pub fn is_note_off(&self) -> (r: bool)
        ensures
            r == (self is NoteOff),
    {
        matches!(*self, MidiMessage::NoteOff { .. })
    }
}

/// A message tagged with the absolute sample time at which it is to sound.
#[derive(Clone, Copy, Debug, PartialEq, Eq, Structural)]
pub struct TimestampedEvent {
    pub message: MidiMessage,
    pub play_time: u64,
}

impl TimestampedEvent {
    pub fn new(message: MidiMessage, play_time: u64) -> (r: TimestampedEvent)
        ensures
            r == (TimestampedEvent { message, play_time }),
    {
        TimestampedEvent { message, play_time }
    }

    /// Whether this is a note-off for the note `key`.
    pub open spec fn is_note_off_of(self, key: NoteKey) -> bool {
        self.message is NoteOff && self.message.key() == Some(key)
    }

    /// The same message, moved to another time.
    pub open spec fn at(self, play_time: u64) -> TimestampedEvent {
        TimestampedEvent { message: self.message, play_time }
    }
}

} // verus!
