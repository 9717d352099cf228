//! The host parameters of the note generator.

use vstd::prelude::*;

verus! {

#[derive(Clone, Copy, Debug, PartialEq, Eq, Structural)]
pub enum Parameter {
    Channel,
    Pitch,
    Velocity,
    NoteOffVelocity,
    Pressure,
    Trigger,
    TriggeredPitch,
    TriggeredChannel,
}

pub const PARAMETER_COUNT: usize = 8;

impl Parameter {
    pub open spec fn index_of(self) -> i32 {
        match self {
            Parameter::Channel => 0,
            Parameter::Pitch => 1,
            Parameter::Velocity => 2,
            Parameter::NoteOffVelocity => 3,
            Parameter::Pressure => 4,
            Parameter::Trigger => 5,
            Parameter::TriggeredPitch => 6,
            Parameter::TriggeredChannel => 7,
        }
    }

    /// The parameter at a host index; `None` for an index that names none.
    pub fn from_index(i: i32) -> (r: Option<Parameter>)
        ensures
            r matches Some(p) ==> p.index_of() == i,
            r is None <==> !(0 <= i < PARAMETER_COUNT),
    {
        match i {
            0 => Some(Parameter::Channel),
            1 => Some(Parameter::Pitch),
            2 => Some(Parameter::Velocity),
            3 => Some(Parameter::NoteOffVelocity),
            4 => Some(Parameter::Pressure),
            5 => Some(Parameter::Trigger),
            6 => Some(Parameter::TriggeredPitch),
            7 => Some(Parameter::TriggeredChannel),
            _ => None,
        }
    }

    pub fn index(self) -> (r: i32)
        ensures
            r == self.index_of(),
            0 <= r < PARAMETER_COUNT,
    {
        match self {
            Parameter::Channel => 0,
            Parameter::Pitch => 1,
            Parameter::Velocity => 2,
            Parameter::NoteOffVelocity => 3,
            Parameter::Pressure => 4,
            Parameter::Trigger => 5,
            Parameter::TriggeredPitch => 6,
            Parameter::TriggeredChannel => 7,
        }
    }
}

} // verus!
