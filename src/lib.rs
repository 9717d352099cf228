//! Scheduling core of a MIDI note-off delay processor: a time-ordered event
//! queue, a registry of sounding notes with a polyphony ceiling, and the
//! per-block pipeline that ties them together.

pub mod events;
pub mod expressive_note;
pub mod note_generator;
pub mod parameters;
pub mod queue;
pub mod registry;
pub mod scheduler;
