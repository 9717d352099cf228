//! A note with its per-note expression.

use vstd::prelude::*;

verus! {

/// A note with the expression it starts with: pressure, timbre and a pitch
/// bend in thousandths of a semitone.
#[derive(Clone, Copy, Debug, PartialEq, Eq, Structural)]
pub struct ExpressiveNote {
    pub channel: u8,
    pub pitch: u8,
    pub velocity: u8,
    pub pressure: u8,
    pub timbre: u8,
    pub pitchbend: i32,
}

} // verus!
