//! The note-off delay and polyphony ceiling, and the parameters they are read from.

use vstd::prelude::*;

verus! {

/// The host parameters of the note-off delay.
#[derive(Clone, Copy, Debug, PartialEq, Eq, Structural)]
pub enum Parameter {
    Delay,
    MaxNotes,
    MaxNotesAppliesToDelayedNotesOnly,
}

pub const PARAMETER_COUNT: usize = 3;

impl Parameter {
    pub open spec fn index_of(self) -> i32 {
        match self {
            Parameter::Delay => 0,
            Parameter::MaxNotes => 1,
            Parameter::MaxNotesAppliesToDelayedNotesOnly => 2,
        }
    }

    /// The parameter at a host index; `None` for an index that names none.
    pub fn from_index(i: i32) -> (r: Option<Parameter>)
        ensures
            r matches Some(p) ==> p.index_of() == i,
            r is None <==> !(0 <= i < PARAMETER_COUNT),
    {
        match i {
            0 => Some(Parameter::Delay),
            1 => Some(Parameter::MaxNotes),
            2 => Some(Parameter::MaxNotesAppliesToDelayedNotesOnly),
            _ => None,
        }
    }

    pub fn index(self) -> (r: i32)
        ensures
            r == self.index_of(),
            0 <= r < PARAMETER_COUNT,
    {
        match self {
            Parameter::Delay => 0,
            Parameter::MaxNotes => 1,
            Parameter::MaxNotesAppliesToDelayedNotesOnly => 2,
        }
    }
}

/// How many notes may sound at once.
#[derive(Clone, Copy, Debug, PartialEq, Eq, Structural)]
pub enum MaxNotes {
    Infinite,
    Limited(u8),
}

/// The ceiling read from a parameter byte: a quarter of it, where zero means none.
pub open spec fn max_notes_of_byte(b: u8) -> MaxNotes {
    if b / 4 == 0 {
        MaxNotes::Infinite
    } else {
        MaxNotes::Limited((b / 4) as u8)
    }
}

impl MaxNotes {
    pub fn from_byte(b: u8) -> (r: MaxNotes)
        ensures
            r == max_notes_of_byte(b),
    {
        let quarter: u8 = b / 4;
        if quarter == 0 {
            MaxNotes::Infinite
        } else {
            MaxNotes::Limited(quarter)
        }
    }
}

/// The configured delay of note-offs, a duration in microseconds.
#[derive(Clone, Copy, Debug, PartialEq, Eq, Structural)]
pub enum Delay {
    Off,
    Duration(u32),
}

pub const MICROS_PER_SECOND: u64 = 1_000_000;

/// The number of whole samples in `micros` microseconds at `sample_rate` samples per second.
pub open spec fn samples_of(micros: u32, sample_rate: u32) -> u64 {
    ((micros as int * sample_rate as int) / (MICROS_PER_SECOND as int)) as u64
}

impl Delay {
    /// The delay of a duration: none for zero.
    pub fn from_micros(micros: u32) -> (r: Delay)
        ensures
            micros == 0 ==> r == Delay::Off,
            micros != 0 ==> r == Delay::Duration(micros),
    {
        if micros == 0 {
            Delay::Off
        } else {
            Delay::Duration(micros)
        }
    }

    pub fn is_active(&self) -> (r: bool)
        ensures
            r == (self is Duration),
    {
        match self {
            Delay::Off => false,
            Delay::Duration(_) => true,
        }
    }

    pub open spec fn samples(self, sample_rate: u32) -> u64 {
        match self {
            Delay::Off => 0,
            Delay::Duration(micros) => samples_of(micros, sample_rate),
        }
    }

    /// The delay as a whole number of samples, truncated.
    pub fn to_samples(&self, sample_rate: u32) -> (r: u64)
        ensures
            r == self.samples(sample_rate),
    {
        match *self {
            Delay::Off => 0,
            Delay::Duration(micros) => {
                let m = micros as u64;
                let rate = sample_rate as u64;
                proof {
                    assert(m * rate <= 0xffff_ffff * 0xffff_ffffu64) by (nonlinear_arith)
                        requires
                            m <= 0xffff_ffff,
                            rate <= 0xffff_ffff,
                    ;
                }
                m * rate / MICROS_PER_SECOND
            },
        }
    }
}

/// A longer duration never gives fewer samples of delay.
pub proof fn lemma_delay_monotonic(a: u32, b: u32, sample_rate: u32)
    requires
        a <= b,
    ensures
        samples_of(a, sample_rate) <= samples_of(b, sample_rate),
{
    assert(a as int * sample_rate as int <= b as int * sample_rate as int) by (nonlinear_arith)
        requires
            a <= b,
    ;
    assert(b as int * sample_rate as int <= 0xffff_ffff * 0xffff_ffff) by (nonlinear_arith)
        requires
            b <= 0xffff_ffff,
            sample_rate <= 0xffff_ffff,
    ;
    vstd::arithmetic::div_mod::lemma_div_is_ordered(
        a as int * sample_rate as int,
        b as int * sample_rate as int,
        MICROS_PER_SECOND as int,
    );
}

/// Past the bytes that mean no ceiling, a larger byte never gives a lower ceiling.
pub proof fn lemma_max_notes_monotonic(a: u8, b: u8)
    requires
        4 <= a <= b,
    ensures
        max_notes_of_byte(a) matches MaxNotes::Limited(x) && max_notes_of_byte(b) matches MaxNotes::Limited(y) && x <= y,
{
}

} // verus!
