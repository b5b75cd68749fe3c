//! Chord symbols and the notes behind them: infer a chord from MIDI notes,
//! write its symbol, read a symbol back into a chord.

pub mod chord;
pub mod interval;
pub mod midi;
pub mod parse;
pub mod set;
pub mod symbol;

pub use chord::{Chord, MidiNotes};
pub use interval::Interval;
pub use midi::{MidiNote, Natural, Octave, Pitch};
pub use set::IntervalSet;
