use vstd::prelude::*;

verus! {

/// Semitone counts of the named intervals.
pub const UNISON: u8 = 0;

pub const MINOR_SECOND: u8 = 1;

pub const MAJOR_SECOND: u8 = 2;

pub const MINOR_THIRD: u8 = 3;

pub const MAJOR_THIRD: u8 = 4;

pub const PERFECT_FOURTH: u8 = 5;

pub const TRITONE: u8 = 6;

pub const PERFECT_FIFTH: u8 = 7;

pub const MINOR_SIXTH: u8 = 8;

pub const MAJOR_SIXTH: u8 = 9;

pub const MINOR_SEVENTH: u8 = 10;

pub const MAJOR_SEVENTH: u8 = 11;

pub const MAJOR_NINTH: u8 = 14;

pub const THIRTEENTH: u8 = 21;

/// A musical interval, counted in semitones.
#[derive(Clone, Copy, Debug, PartialEq, Eq, PartialOrd, Ord, Structural)]
pub struct Interval {
    pub semitones: u8,
}

impl Interval {
    pub fn new(semitones: u8) -> (r: Interval)
        ensures
            r.semitones == semitones,
    {
        Interval { semitones }
    }

    pub fn semitones(self) -> (r: u8)
        ensures
            r == self.semitones,
    {
        self.semitones
    }

    /// Stacks two intervals: the semitone counts add.
    pub fn add(self, rhs: Interval) -> (r: Interval)
        requires
            self.semitones + rhs.semitones <= u8::MAX,
        ensures
            r.semitones == self.semitones + rhs.semitones,
    {
        Interval { semitones: self.semitones + rhs.semitones }
    }
}

impl From<u8> for Interval {
    fn from(semitones: u8) -> (r: Interval) {
        Interval::new(semitones)
    }
}

impl vstd::std_specs::convert::FromSpecImpl<u8> for Interval {
    open spec fn obeys_from_spec() -> bool {
        true
    }

    open spec fn from_spec(semitones: u8) -> Interval {
        Interval { semitones }
    }
}

impl From<Interval> for u8 {
    fn from(interval: Interval) -> (r: u8) {
        interval.semitones()
    }
}

impl vstd::std_specs::convert::FromSpecImpl<Interval> for u8 {
    open spec fn obeys_from_spec() -> bool {
        true
    }

    open spec fn from_spec(interval: Interval) -> u8 {
        interval.semitones
    }
}

} // verus!
