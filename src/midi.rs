use vstd::prelude::*;
use crate::interval::Interval;

verus! {

/// The seven note letters.
#[derive(Clone, Copy, Debug, PartialEq, Eq, Structural)]
pub enum Natural {
    C,
    D,
    E,
    F,
    G,
    A,
    B,
}

impl Natural {
    /// Pitch class of the letter without accidental (C is 0).
    pub open spec fn spec_class(self) -> u8 {
        match self {
            Natural::C => 0,
            Natural::D => 2,
            Natural::E => 4,
            Natural::F => 5,
            Natural::G => 7,
            Natural::A => 9,
            Natural::B => 11,
        }
    }

    /// The letter that a character names, if any.
    pub open spec fn spec_from_char(c: char) -> Option<Natural> {
        if c == 'C' {
            Some(Natural::C)
        } else if c == 'D' {
            Some(Natural::D)
        } else if c == 'E' {
            Some(Natural::E)
        } else if c == 'F' {
            Some(Natural::F)
        } else if c == 'G' {
            Some(Natural::G)
        } else if c == 'A' {
            Some(Natural::A)
        } else if c == 'B' {
            Some(Natural::B)
        } else {
            None
        }
    }

    pub fn class(self) -> (r: u8)
        ensures
            r == self.spec_class(),
    {
        match self {
            Natural::C => 0,
            Natural::D => 2,
            Natural::E => 4,
            Natural::F => 5,
            Natural::G => 7,
            Natural::A => 9,
            Natural::B => 11,
        }
    }

    pub fn from_char(c: char) -> (r: Option<Natural>)
        ensures
            r == Natural::spec_from_char(c),
    {
        match c {
            'C' => Some(Natural::C),
            'D' => Some(Natural::D),
            'E' => Some(Natural::E),
            'F' => Some(Natural::F),
            'G' => Some(Natural::G),
            'A' => Some(Natural::A),
            'B' => Some(Natural::B),
            _ => None,
        }
    }
}

/// The twelve pitch classes, spelled with sharps.
#[derive(Clone, Copy, Debug, PartialEq, Eq, Structural)]
pub enum Pitch {
    C,
    CSharp,
    D,
    DSharp,
    E,
    F,
    FSharp,
    G,
    GSharp,
    A,
    ASharp,
    B,
}

impl Pitch {
    /// Semitones above C, from 0 to 11.
    pub open spec fn spec_class(self) -> u8 {
        match self {
            Pitch::C => 0,
            Pitch::CSharp => 1,
            Pitch::D => 2,
            Pitch::DSharp => 3,
            Pitch::E => 4,
            Pitch::F => 5,
            Pitch::FSharp => 6,
            Pitch::G => 7,
            Pitch::GSharp => 8,
            Pitch::A => 9,
            Pitch::ASharp => 10,
            Pitch::B => 11,
        }
    }

    /// The name written in a chord symbol.
    #[verifier::opaque]
    pub open spec fn spec_name(class: u8) -> Seq<char> {
        if class == 0 {
            seq!['C']
        } else if class == 1 {
            seq!['C', '#']
        } else if class == 2 {
            seq!['D']
        } else if class == 3 {
            seq!['D', '#']
        } else if class == 4 {
            seq!['E']
        } else if class == 5 {
            seq!['F']
        } else if class == 6 {
            seq!['F', '#']
        } else if class == 7 {
            seq!['G']
        } else if class == 8 {
            seq!['G', '#']
        } else if class == 9 {
            seq!['A']
        } else if class == 10 {
            seq!['A', '#']
        } else {
            seq!['B']
        }
    }

    pub fn class(self) -> (r: u8)
        ensures
            r == self.spec_class(),
            r < 12,
    {
        match self {
            Pitch::C => 0,
            Pitch::CSharp => 1,
            Pitch::D => 2,
            Pitch::DSharp => 3,
            Pitch::E => 4,
            Pitch::F => 5,
            Pitch::FSharp => 6,
            Pitch::G => 7,
            Pitch::GSharp => 8,
            Pitch::A => 9,
            Pitch::ASharp => 10,
            Pitch::B => 11,
        }
    }

    pub fn from_class(class: u8) -> (r: Pitch)
        requires
            class < 12,
        ensures
            r.spec_class() == class,
    {
        match class {
            0 => Pitch::C,
            1 => Pitch::CSharp,
            2 => Pitch::D,
            3 => Pitch::DSharp,
            4 => Pitch::E,
            5 => Pitch::F,
            6 => Pitch::FSharp,
            7 => Pitch::G,
            8 => Pitch::GSharp,
            9 => Pitch::A,
            10 => Pitch::ASharp,
            _ => Pitch::B,
        }
    }

    /// The letter moved by `alteration` semitones (-2 for a double flat up to
    /// 2 for a double sharp), wrapping around the octave.
    pub fn altered(natural: Natural, alteration: i8) -> (r: Pitch)
        requires
            -2 <= alteration <= 2,
        ensures
            r.spec_class() == (natural.spec_class() + 12 + alteration) % 12,
    {
        let class = ((natural.class() as i8 + 12 + alteration) % 12) as u8;
        Pitch::from_class(class)
    }

    pub fn name(class: u8) -> (r: &'static str)
        ensures
            r@ == Pitch::spec_name(class),
    {
        reveal(Pitch::spec_name);
        if class == 0 {
            proof { reveal_strlit("C"); }
            "C"
        } else if class == 1 {
            proof { reveal_strlit("C#"); }
            "C#"
        } else if class == 2 {
            proof { reveal_strlit("D"); }
            "D"
        } else if class == 3 {
            proof { reveal_strlit("D#"); }
            "D#"
        } else if class == 4 {
            proof { reveal_strlit("E"); }
            "E"
        } else if class == 5 {
            proof { reveal_strlit("F"); }
            "F"
        } else if class == 6 {
            proof { reveal_strlit("F#"); }
            "F#"
        } else if class == 7 {
            proof { reveal_strlit("G"); }
            "G"
        } else if class == 8 {
            proof { reveal_strlit("G#"); }
            "G#"
        } else if class == 9 {
            proof { reveal_strlit("A"); }
            "A"
        } else if class == 10 {
            proof { reveal_strlit("A#"); }
            "A#"
        } else {
            proof { reveal_strlit("B"); }
            "B"
        }
    }
}

/// Octaves in scientific pitch notation, from -1 to 9.
#[allow(non_camel_case_types)]
#[derive(Clone, Copy, Debug, PartialEq, Eq, Structural)]
pub enum Octave {
    NEGATIVE_ONE,
    ZERO,
    ONE,
    TWO,
    THREE,
    FOUR,
    FIVE,
    SIX,
    SEVEN,
    EIGHT,
    NINE,
}

impl Octave {
    /// Number of whole octaves above octave -1.
    pub open spec fn spec_rank(self) -> u8 {
        match self {
            Octave::NEGATIVE_ONE => 0,
            Octave::ZERO => 1,
            Octave::ONE => 2,
            Octave::TWO => 3,
            Octave::THREE => 4,
            Octave::FOUR => 5,
            Octave::FIVE => 6,
            Octave::SIX => 7,
            Octave::SEVEN => 8,
            Octave::EIGHT => 9,
            Octave::NINE => 10,
        }
    }

    pub fn rank(self) -> (r: u8)
        ensures
            r == self.spec_rank(),
            r <= 10,
    {
        match self {
            Octave::NEGATIVE_ONE => 0,
            Octave::ZERO => 1,
            Octave::ONE => 2,
            Octave::TWO => 3,
            Octave::THREE => 4,
            Octave::FOUR => 5,
            Octave::FIVE => 6,
            Octave::SIX => 7,
            Octave::SEVEN => 8,
            Octave::EIGHT => 9,
            Octave::NINE => 10,
        }
    }
}

/// A MIDI note number; middle C (C4) is 60.
#[derive(Clone, Copy, Debug, PartialEq, Eq, PartialOrd, Ord, Hash, Structural)]
pub struct MidiNote {
    pub byte: u8,
}

impl MidiNote {
    /// The note number of `pitch` in `octave`.
    pub open spec fn spec_new(pitch: Pitch, octave: Octave) -> MidiNote {
        MidiNote { byte: (octave.spec_rank() * 12 + pitch.spec_class()) as u8 }
    }

    /// Pitch class of the note, from 0 to 11.
    pub open spec fn spec_class(self) -> u8 {
        self.byte % 12
    }

    pub fn new(pitch: Pitch, octave: Octave) -> (r: MidiNote)
        ensures
            r == MidiNote::spec_new(pitch, octave),
            r.byte == octave.spec_rank() * 12 + pitch.spec_class(),
    {
        MidiNote { byte: octave.rank() * 12 + pitch.class() }
    }

    pub fn from_byte(byte: u8) -> (r: MidiNote)
        ensures
            r.byte == byte,
    {
        MidiNote { byte }
    }

    pub fn into_byte(self) -> (r: u8)
        ensures
            r == self.byte,
    {
        self.byte
    }

    pub fn pitch(self) -> (r: Pitch)
        ensures
            r.spec_class() == self.spec_class(),
    {
        Pitch::from_class(self.byte % 12)
    }

    /// The note `interval` above this one.
    pub fn transpose(self, interval: Interval) -> (r: MidiNote)
        requires
            self.byte + interval.semitones <= u8::MAX,
        ensures
            r.byte == self.byte + interval.semitones,
    {
        MidiNote { byte: self.byte + interval.semitones }
    }

    /// The interval from `lower` up to this note.
    pub fn interval_from(self, lower: MidiNote) -> (r: Interval)
        requires
            lower.byte <= self.byte,
        ensures
            r.semitones == self.byte - lower.byte,
    {
        Interval::new(self.byte - lower.byte)
    }

    /// The distance between two notes, whichever is higher.
    pub fn abs_diff(self, other: MidiNote) -> (r: Interval)
        ensures
            r.semitones == if self.byte >= other.byte {
                self.byte - other.byte
            } else {
                other.byte - self.byte
            },
    {
        if self.byte >= other.byte {
            Interval::new(self.byte - other.byte)
        } else {
            Interval::new(other.byte - self.byte)
        }
    }

    /// The note's name in a chord symbol: its pitch class, without octave.
    pub fn name(self) -> (r: &'static str)
        ensures
            r@ == Pitch::spec_name(self.spec_class()),
    {
        Pitch::name(self.byte % 12)
    }
}

} // verus!
