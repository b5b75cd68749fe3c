use staff::chord::chords;
use staff::interval::{MAJOR_SECOND, MAJOR_SEVENTH, MAJOR_THIRD, PERFECT_FIFTH, PERFECT_FOURTH, TRITONE};
use staff::{Chord, Interval, MidiNote, Octave, Pitch};

fn note(pitch: Pitch, octave: Octave) -> MidiNote {
    MidiNote::new(pitch, octave)
}

#[test]
fn it_parses_d_double_sharp_major() {
    let chord: Chord = "D##".parse().unwrap();
    assert_eq!(chord, Chord::major(MidiNote::new(Pitch::E, Octave::FOUR)));
}

#[test]
fn it_parses_c_minor_seven() {
    let chord: Chord = "Cm7".parse().unwrap();
    assert_eq!(
        chord,
        Chord::minor_seventh(MidiNote::new(Pitch::C, Octave::FOUR))
    );
}

#[test]
fn f() {
    let chord = Chord::from_midi(
        MidiNote::new(Pitch::C, Octave::FOUR),
        &[
            MidiNote::new(Pitch::C, Octave::FOUR),
            MidiNote::new(Pitch::E, Octave::FOUR),
            MidiNote::new(Pitch::G, Octave::FOUR),
            MidiNote::new(Pitch::B, Octave::FOUR),
            MidiNote::new(Pitch::D, Octave::FIVE),
        ],
    )
    .unwrap();

    let _ = chord.to_string();
}

#[test]
fn middle_c_is_sixty() {
    assert_eq!(note(Pitch::C, Octave::FOUR).into_byte(), 60);
    assert_eq!(note(Pitch::E, Octave::THREE).into_byte(), 52);
    assert_eq!(note(Pitch::C, Octave::NEGATIVE_ONE).into_byte(), 0);
}

#[test]
fn major_triad_on_each_natural_is_its_name() {
    let cases = [
        (Pitch::C, "C"),
        (Pitch::D, "D"),
        (Pitch::E, "E"),
        (Pitch::F, "F"),
        (Pitch::G, "G"),
        (Pitch::A, "A"),
        (Pitch::B, "B"),
    ];
    for (pitch, name) in cases {
        assert_eq!(Chord::major(note(pitch, Octave::FOUR)).to_string(), name);
    }
}

#[test]
fn quality_builders_render() {
    let c4 = note(Pitch::C, Octave::FOUR);
    assert_eq!(Chord::minor(note(Pitch::A, Octave::FOUR)).to_string(), "Am");
    assert_eq!(Chord::seventh(c4).to_string(), "C7");
    assert_eq!(Chord::minor_seventh(c4).to_string(), "Cm7");
    assert_eq!(Chord::major(c4).major_seventh().to_string(), "Cmaj7");
    assert_eq!(Chord::half_diminished(c4).to_string(), "Cmb57");
    assert_eq!(
        Chord::new(note(Pitch::FSharp, Octave::FOUR)).to_string(),
        "F#(no root)(no5)"
    );
}

#[test]
fn suspended_chords_render() {
    let d4 = note(Pitch::D, Octave::FOUR);
    let sus2 = Chord::new(d4)
        .root()
        .interval(Interval::new(MAJOR_SECOND))
        .interval(Interval::new(PERFECT_FIFTH));
    assert_eq!(sus2.to_string(), "Dsus2");
    let sus4 = Chord::new(d4)
        .root()
        .interval(Interval::new(PERFECT_FOURTH))
        .interval(Interval::new(PERFECT_FIFTH));
    assert_eq!(sus4.to_string(), "Dsus4");
}

#[test]
fn missing_root_and_fifth_are_marked() {
    let c4 = note(Pitch::C, Octave::FOUR);
    let no_root = Chord::new(c4)
        .interval(Interval::new(MAJOR_THIRD))
        .interval(Interval::new(PERFECT_FIFTH));
    assert_eq!(no_root.to_string(), "C(no root)");
    let no_fifth = Chord::new(c4).root().interval(Interval::new(MAJOR_THIRD));
    assert_eq!(no_fifth.to_string(), "C(no5)");
    let flat_fifth = Chord::new(c4).root().interval(Interval::new(TRITONE));
    assert_eq!(flat_fifth.to_string(), "Cb5");
    let neither = Chord::new(c4).interval(Interval::new(MAJOR_THIRD));
    assert_eq!(neither.to_string(), "C(no root)(no5)");
}

#[test]
fn formatting_twice_gives_the_same_symbol() {
    let chord = Chord::minor_seventh(note(Pitch::G, Octave::THREE));
    assert_eq!(chord.to_string(), chord.to_string());
    let again = Chord::minor_seventh(note(Pitch::G, Octave::THREE));
    assert_eq!(chord.to_string(), again.to_string());
}

#[test]
fn from_midi_in_root_position_has_no_slash() {
    let c4 = note(Pitch::C, Octave::FOUR);
    let notes = [
        c4,
        note(Pitch::E, Octave::FOUR),
        note(Pitch::G, Octave::FOUR),
        note(Pitch::B, Octave::FOUR),
        note(Pitch::D, Octave::FIVE),
    ];
    let chord = Chord::from_midi(c4, &notes).unwrap();
    assert_eq!(chord.bass, None);
    assert!(!chord.is_inversion);
    assert_eq!(chord.to_string(), "Cmaj7");
    assert!(!chord.to_string().contains('/'));
}

#[test]
fn from_midi_with_another_first_note_is_an_inversion() {
    let c4 = note(Pitch::C, Octave::FOUR);
    let e4 = note(Pitch::E, Octave::FOUR);
    let notes = [e4, note(Pitch::G, Octave::FOUR), note(Pitch::C, Octave::FIVE)];
    let chord = Chord::from_midi(c4, &notes).unwrap();
    assert_eq!(chord.bass, Some(e4));
    assert!(chord.is_inversion);
    assert_eq!(chord.to_string(), "C/E(no root)");
}

#[test]
fn from_midi_with_a_low_bass() {
    let notes = [
        note(Pitch::E, Octave::THREE),
        note(Pitch::G, Octave::THREE),
        note(Pitch::C, Octave::FOUR),
    ];
    let chord = Chord::from_midi(note(Pitch::C, Octave::FOUR), &notes).unwrap();
    assert_eq!(chord.to_string(), "Csus4/E(no5)");
    assert_eq!(chord.into_notes(), notes.to_vec());
}

#[test]
fn from_midi_of_no_notes_is_none() {
    assert!(Chord::from_midi(note(Pitch::C, Octave::FOUR), &[]).is_none());
}

#[test]
fn chords_reads_each_note_as_root() {
    let notes = [
        note(Pitch::C, Octave::FOUR),
        note(Pitch::E, Octave::FOUR),
        note(Pitch::G, Octave::FOUR),
    ];
    let names: Vec<String> = chords(&notes).iter().map(|c| c.to_string()).collect();
    assert_eq!(names, vec!["C", "Em/C(no5)", "Gm/C"]);
}

#[test]
fn from_notes_takes_the_first_as_root() {
    let notes = [
        note(Pitch::A, Octave::THREE),
        note(Pitch::C, Octave::FOUR),
        note(Pitch::E, Octave::FOUR),
    ];
    let chord = Chord::from_notes(&notes);
    assert_eq!(chord.root, notes[0]);
    assert_eq!(chord.to_string(), "Am");
    let empty = Chord::from_notes(&[]);
    assert_eq!(empty.root.into_byte(), 0);
    assert_eq!(empty.to_string(), "C(no5)");
}

#[test]
fn major_ninth_chord_into_notes() {
    let chord = Chord::major(note(Pitch::C, Octave::FOUR))
        .major_seventh()
        .major_ninth();
    let expected = vec![
        note(Pitch::C, Octave::FOUR),
        note(Pitch::E, Octave::FOUR),
        note(Pitch::G, Octave::FOUR),
        note(Pitch::B, Octave::FOUR),
        note(Pitch::D, Octave::FIVE),
    ];
    assert_eq!(chord.into_notes(), expected);
}

#[test]
fn midi_notes_hands_out_lowest_first() {
    let c4 = note(Pitch::C, Octave::FOUR);
    let e3 = note(Pitch::E, Octave::THREE);
    let chord = Chord::major(c4).inversion(e3);
    let mut notes = chord.midi_notes();
    assert_eq!(notes.next().map(|n| n.into_byte()), Some(52));
    assert_eq!(notes.next().map(|n| n.into_byte()), Some(56));
    assert_eq!(notes.next().map(|n| n.into_byte()), Some(59));
    assert_eq!(notes.next(), None);
}

#[test]
fn bass_and_inversion_builders() {
    let c4 = note(Pitch::C, Octave::FOUR);
    let g3 = note(Pitch::G, Octave::THREE);
    let slash = Chord::major(c4).bass(g3);
    assert_eq!(slash.bass, Some(g3));
    assert!(slash.is_inversion);
    let on_root = Chord::major(c4).bass(c4);
    assert_eq!(on_root.bass, Some(c4));
    assert!(!on_root.is_inversion);
    assert!(!Chord::major(c4).inversion(c4).is_inversion);
    let inverted = Chord::major(c4).inversion(g3);
    assert!(inverted.is_inversion);
    assert_eq!(inverted.bass, Some(g3));
}

#[test]
fn root_relative_intervals_of_an_inversion() {
    let c4 = note(Pitch::C, Octave::FOUR);
    let notes = [note(Pitch::E, Octave::THREE), note(Pitch::G, Octave::THREE), c4];
    let chord = Chord::from_midi(c4, &notes).unwrap();
    let rel: Vec<u8> = chord.intervals().into_vec().iter().map(|i| i.semitones()).collect();
    assert_eq!(rel, vec![0, 5, 8]);
}

#[test]
fn parses_accidentals() {
    let flat: Chord = "Bb".parse().unwrap();
    assert_eq!(flat, Chord::major(note(Pitch::ASharp, Octave::FOUR)));
    let double_flat: Chord = "Ebb".parse().unwrap();
    assert_eq!(double_flat, Chord::major(note(Pitch::D, Octave::FOUR)));
    let sharp: Chord = "F#m".parse().unwrap();
    assert_eq!(sharp, Chord::minor(note(Pitch::FSharp, Octave::FOUR)));
    let wrapped: Chord = "Cb".parse().unwrap();
    assert_eq!(wrapped, Chord::major(note(Pitch::B, Octave::FOUR)));
}

#[test]
fn parses_flat_five_and_seventh_in_any_order() {
    let c4 = note(Pitch::C, Octave::FOUR);
    let expected = Chord::minor(c4)
        .interval(Interval::new(TRITONE))
        .interval(Interval::new(staff::interval::MINOR_SEVENTH));
    let a: Chord = "Cmb57".parse().unwrap();
    let b: Chord = "Cm7b5".parse().unwrap();
    assert_eq!(a, expected);
    assert_eq!(b, expected);
    let flat_five: Chord = "Cb5".parse().unwrap();
    assert_eq!(flat_five.to_string(), "Cb5");
}

#[test]
fn parsed_symbols_format_back() {
    for symbol in ["C", "Cm", "C7", "Cm7", "Cb5", "Cmb57", "F#m7"] {
        let chord: Chord = symbol.parse().unwrap();
        assert_eq!(chord.to_string(), symbol);
    }
}

#[test]
fn parse_refuses_what_is_outside_the_grammar() {
    for bad in ["", "H", "c", "Cm9", "Cmaj7", "Cmb", "C7x", "C##m#", "Cbbb"] {
        assert!(Chord::parse(bad).is_err(), "{} should be refused", bad);
        assert!(bad.parse::<Chord>().is_err());
    }
}

#[test]
fn unused_interval_constants_keep_their_values() {
    assert_eq!(Interval::new(MAJOR_SEVENTH).semitones(), 11);
    assert_eq!(u8::from(Interval::from(21)), 21);
    assert_eq!(Interval::new(4).add(Interval::new(3)), Interval::new(PERFECT_FIFTH));
}

#[test]
fn symbols_of_natural_roots_parse_back() {
    let naturals = [Pitch::C, Pitch::D, Pitch::E, Pitch::F, Pitch::G, Pitch::A, Pitch::B];
    let builders: [fn(MidiNote) -> Chord; 4] =
        [Chord::major, Chord::minor, Chord::seventh, Chord::minor_seventh];
    for pitch in naturals {
        for build in builders {
            let plain = build(note(pitch, Octave::FOUR));
            let flat_five = build(note(pitch, Octave::FOUR)).interval(Interval::new(TRITONE));
            for chord in [plain, flat_five] {
                assert_eq!(chord.to_string().parse::<Chord>(), Ok(chord.clone()));
            }
        }
    }
}
