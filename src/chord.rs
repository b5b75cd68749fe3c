use vstd::prelude::*;
use crate::interval::{self, Interval};
use crate::midi::{MidiNote, Natural, Octave, Pitch};
use crate::set::{semitones_of, IntervalSet};

verus! {

/// A chord: a root, an optional bass note, and intervals counted up from the
/// lowest note (the bass if there is one, else the root).
#[derive(Clone, Debug, PartialEq, Eq)]
pub struct Chord {
    pub root: MidiNote,
    pub bass: Option<MidiNote>,
    pub is_inversion: bool,
    pub intervals: IntervalSet,
}

/// Distance between two note numbers, whichever is higher.
pub open spec fn distance(a: int, b: int) -> int {
    if a >= b {
        a - b
    } else {
        b - a
    }
}

/// Reads the notes, bass first, once with each of them as the root: the
/// chord at position `k` is the one inferred on root `notes[k]`.
pub fn chords(notes: &[MidiNote]) -> (r: Vec<Chord>)
    requires
        forall|k: int| 0 <= k < notes@.len() ==> notes@[0].byte <= #[trigger] notes@[k].byte,
    ensures
        r@.len() == notes@.len(),
        forall|k: int|
            0 <= k < r@.len() ==> {
                let c = #[trigger] r@[k];
                &&& c.root == notes@[k]
                &&& c.bass == (if notes@[0] != notes@[k] {
                    Some(notes@[0])
                } else {
                    None
                })
                &&& c.is_inversion == (notes@[0] != notes@[k])
                &&& c.wf()
                &&& forall|x: u8| #[trigger]
                    c.intervals.has(x) <==> (x == 0 || above_first(notes@, x))
            },
{
    let mut r: Vec<Chord> = Vec::new();
    let mut i: usize = 0;
    while i < notes.len()
        invariant
            i <= notes@.len(),
            r@.len() == i,
            forall|k: int| 0 <= k < notes@.len() ==> notes@[0].byte <= #[trigger] notes@[k].byte,
            forall|k: int|
                0 <= k < r@.len() ==> {
                    let c = #[trigger] r@[k];
                    &&& c.root == notes@[k]
                    &&& c.bass == (if notes@[0] != notes@[k] {
                        Some(notes@[0])
                    } else {
                        None
                    })
                    &&& c.is_inversion == (notes@[0] != notes@[k])
                    &&& c.wf()
                    &&& forall|x: u8| #[trigger]
                        c.intervals.has(x) <==> (x == 0 || above_first(notes@, x))
                },
        decreases notes@.len() - i,
    {
        let c = Chord::from_midi(notes[i], notes).unwrap();
        r.push(c);
        i = i + 1;
    }
    r
}

/// Some note after the first lies `x` semitones above the first.
pub open spec fn above_first(notes: Seq<MidiNote>, x: u8) -> bool {
    exists|j: int| 1 <= j < notes.len() && #[trigger] notes[j].byte - notes[0].byte == x
}

impl Chord {
    /// The note the stored intervals are counted from.
    pub open spec fn lowest(&self) -> MidiNote {
        match self.bass {
            Some(b) => b,
            None => self.root,
        }
    }

    /// Every chord tone is a valid note number.
    pub open spec fn fits(&self) -> bool {
        forall|k: int|
            0 <= k < self.intervals@.len() ==> self.lowest().byte + #[trigger] self.intervals@[k]
                <= u8::MAX
    }

    /// The interval set is canonical and every chord tone is a valid note.
    pub open spec fn wf(&self) -> bool {
        self.intervals.wf() && self.fits()
    }

    /// Whether some chord tone lies `semitones` semitones from the root.
    #[verifier::opaque]
    pub open spec fn root_has(&self, semitones: u8) -> bool {
        exists|k: int|
            0 <= k < self.intervals@.len() && distance(
                self.lowest().byte + #[trigger] self.intervals@[k],
                self.root.byte as int,
            ) == semitones
    }

    /// The chord holds exactly the intervals that `has` accepts.
    pub open spec fn holds_exactly(&self, has: spec_fn(u8) -> bool) -> bool {
        self.intervals.wf() && forall|x: u8| #[trigger] self.intervals.has(x) <==> has(x)
    }

    /// A chord in root position on `root`, with no bass note.
    pub open spec fn in_root_position(&self, root: MidiNote) -> bool {
        self.root == root && self.bass.is_none() && !self.is_inversion
    }

    /// What `major` builds on `root`.
    pub open spec fn is_major_of(&self, root: MidiNote) -> bool {
        self.in_root_position(root) && self.holds_exactly(|x: u8| x == 0 || x == 4 || x == 7)
    }

    /// What `minor` builds on `root`.
    pub open spec fn is_minor_of(&self, root: MidiNote) -> bool {
        self.in_root_position(root) && self.holds_exactly(|x: u8| x == 0 || x == 3 || x == 7)
    }

    /// What `minor_seventh` builds on `root`.
    pub open spec fn is_minor_seventh_of(&self, root: MidiNote) -> bool {
        self.in_root_position(root) && self.holds_exactly(
            |x: u8| x == 0 || x == 3 || x == 7 || x == 10,
        )
    }

    /// An empty chord on `root`.
    pub fn new(root: MidiNote) -> (r: Chord)
        ensures
            r.in_root_position(root),
            r.wf(),
            r.intervals@.len() == 0,
    {
        Chord { root, bass: None, is_inversion: false, intervals: IntervalSet::new() }
    }

    /// Sets the bass note; the chord is an inversion exactly when that note
    /// differs from the root.
    pub fn bass(self, bass_note: MidiNote) -> (r: Chord)
        ensures
            r.root == self.root,
            r.bass == Some(bass_note),
            r.is_inversion == (bass_note != self.root),
            r.intervals == self.intervals,
    {
        let mut c = self;
        c.bass = Some(bass_note);
        c.is_inversion = bass_note != c.root;
        c
    }

    /// Puts `bass_note` in the bass as an inversion: the flag is set unless
    /// that note is the root itself.
    pub fn inversion(self, bass_note: MidiNote) -> (r: Chord)
        ensures
            r.root == self.root,
            r.bass == Some(bass_note),
            r.is_inversion == (bass_note != self.root),
            r.intervals == self.intervals,
    {
        self.bass(bass_note)
    }

    /// Adds an interval above the lowest note.
    pub fn interval(self, interval: Interval) -> (r: Chord)
        requires
            self.intervals.wf(),
        ensures
            r.root == self.root,
            r.bass == self.bass,
            r.is_inversion == self.is_inversion,
            r.intervals.wf(),
            forall|x: u8| #[trigger] r.intervals.has(x) <==> (self.intervals.has(x) || x
                == interval.semitones),
            self.fits() && self.lowest().byte + interval.semitones <= u8::MAX ==> r.fits(),
    {
        let mut c = self;
        c.intervals.push(interval);
        proof {
            if self.fits() && self.lowest().byte + interval.semitones <= u8::MAX {
                assert forall|k: int| 0 <= k < c.intervals@.len() implies c.lowest().byte
                    + #[trigger] c.intervals@[k] <= u8::MAX by {
                    let x = c.intervals@[k];
                    assert(c.intervals.has(x));
                    if self.intervals.has(x) {
                        let j = choose|j: int|
                            0 <= j < self.intervals@.len() && self.intervals@[j] == x;
                        assert(self.lowest().byte + self.intervals@[j] <= u8::MAX);
                    }
                }
            }
        }
        c
    }

    /// Adds the unison: the lowest note itself sounds.
    pub fn root(self) -> (r: Chord)
        requires
            self.intervals.wf(),
        ensures
            r.root == self.root,
            r.bass == self.bass,
            r.is_inversion == self.is_inversion,
            r.intervals.wf(),
            forall|x: u8| #[trigger] r.intervals.has(x) <==> (self.intervals.has(x) || x == 0),
            self.fits() ==> r.fits(),
    {
        self.interval(Interval::new(interval::UNISON))
    }

    /// Root, major third and perfect fifth.
    pub fn major(root: MidiNote) -> (r: Chord)
        ensures
            r.is_major_of(root),
            root.byte + 7 <= u8::MAX ==> r.wf(),
    {
        Chord::new(root).root().interval(Interval::new(interval::MAJOR_THIRD)).interval(
            Interval::new(interval::PERFECT_FIFTH),
        )
    }

    /// Root, minor third and perfect fifth.
    pub fn minor(root: MidiNote) -> (r: Chord)
        ensures
            r.is_minor_of(root),
            root.byte + 7 <= u8::MAX ==> r.wf(),
    {
        Chord::new(root).root().interval(Interval::new(interval::MINOR_THIRD)).interval(
            Interval::new(interval::PERFECT_FIFTH),
        )
    }

    /// A major triad with a minor seventh.
    pub fn seventh(root: MidiNote) -> (r: Chord)
        ensures
            r.in_root_position(root),
            r.holds_exactly(|x: u8| x == 0 || x == 4 || x == 7 || x == 10),
            root.byte + 10 <= u8::MAX ==> r.wf(),
    {
        Chord::major(root).interval(Interval::new(interval::MINOR_SEVENTH))
    }

    /// Adds a major seventh.
    pub fn major_seventh(self) -> (r: Chord)
        requires
            self.intervals.wf(),
        ensures
            r.root == self.root,
            r.bass == self.bass,
            r.is_inversion == self.is_inversion,
            r.intervals.wf(),
            forall|x: u8| #[trigger] r.intervals.has(x) <==> (self.intervals.has(x) || x == 11),
            self.fits() && self.lowest().byte + 11 <= u8::MAX ==> r.fits(),
    {
        self.interval(Interval::new(interval::MAJOR_SEVENTH))
    }

    /// A minor triad with a minor seventh.
    pub fn minor_seventh(root: MidiNote) -> (r: Chord)
        ensures
            r.is_minor_seventh_of(root),
            root.byte + 10 <= u8::MAX ==> r.wf(),
    {
        Chord::minor(root).interval(Interval::new(interval::MINOR_SEVENTH))
    }

    /// Adds a major ninth.
    pub fn major_ninth(self) -> (r: Chord)
        requires
            self.intervals.wf(),
        ensures
            r.root == self.root,
            r.bass == self.bass,
            r.is_inversion == self.is_inversion,
            r.intervals.wf(),
            forall|x: u8| #[trigger] r.intervals.has(x) <==> (self.intervals.has(x) || x == 14),
            self.fits() && self.lowest().byte + 14 <= u8::MAX ==> r.fits(),
    {
        self.interval(Interval::new(interval::MAJOR_NINTH))
    }

    /// Root, minor third, tritone and minor seventh.
    pub fn half_diminished(root: MidiNote) -> (r: Chord)
        ensures
            r.in_root_position(root),
            r.holds_exactly(|x: u8| x == 0 || x == 3 || x == 6 || x == 10),
            root.byte + 10 <= u8::MAX ==> r.wf(),
    {
        Chord::new(root).root().interval(Interval::new(interval::MINOR_THIRD)).interval(
            Interval::new(interval::TRITONE),
        ).interval(Interval::new(interval::MINOR_SEVENTH))
    }

    /// Infers a chord on `root` from sounding notes given bass first. The
    /// first note is the bass when it differs from the root; every later note
    /// adds its distance above the first. The unison is always counted.
    pub fn from_midi(root: MidiNote, notes: &[MidiNote]) -> (r: Option<Chord>)
        requires
            forall|k: int| 0 <= k < notes@.len() ==> notes@[0].byte <= #[trigger] notes@[k].byte,
        ensures
            r.is_none() <==> notes@.len() == 0,
            r.is_some() ==> {
                let c = r.unwrap();
                &&& c.root == root
                &&& c.bass == (if notes@[0] != root {
                    Some(notes@[0])
                } else {
                    None
                })
                &&& c.is_inversion == (notes@[0] != root)
                &&& c.wf()
                &&& forall|x: u8| #[trigger]
                    c.intervals.has(x) <==> (x == 0 || above_first(notes@, x))
            },
    {
        if notes.len() == 0 {
            return None;
        }
        let bass_note = notes[0];
        let mut intervals = IntervalSet::new();
        intervals.push(Interval::new(interval::UNISON));
        let mut i: usize = 1;
        while i < notes.len()
            invariant
                1 <= i <= notes@.len(),
                bass_note == notes@[0],
                forall|k: int| 0 <= k < notes@.len() ==> notes@[0].byte <= #[trigger] notes@[k].byte,
                intervals.wf(),
                forall|x: u8| #[trigger] intervals.has(x) <==> (x == 0 || exists|j: int|
                    1 <= j < i && #[trigger] notes@[j].byte - notes@[0].byte == x),
            decreases notes@.len() - i,
        {
            let ghost prev = intervals;
            intervals.push(notes[i].interval_from(bass_note));
            assert forall|x: u8| #[trigger] intervals.has(x) <==> (x == 0 || exists|j: int|
                1 <= j < i + 1 && #[trigger] notes@[j].byte - notes@[0].byte == x) by {
                assert(intervals.has(x) <==> (prev.has(x) || x == notes@[i as int].byte
                    - notes@[0].byte));
                if x != 0 && x == notes@[i as int].byte - notes@[0].byte {
                    assert(1 <= i < i + 1);
                }
            }
            i = i + 1;
        }
        let bass = if bass_note != root {
            Some(bass_note)
        } else {
            None
        };
        let c = Chord { root, bass, is_inversion: bass_note != root, intervals };
        assert forall|k: int| 0 <= k < c.intervals@.len() implies c.lowest().byte
            + #[trigger] c.intervals@[k] <= u8::MAX by {
            assert(c.intervals.has(c.intervals@[k]));
        }
        Some(c)
    }

    /// The intervals measured from the root instead of the lowest note: each
    /// chord tone's distance from the root, in a canonical set.
    pub fn root_relative(&self) -> (r: IntervalSet)
        requires
            self.wf(),
        ensures
            r.wf(),
            forall|x: u8| #[trigger] r.has(x) <==> self.root_has(x),
    {
        let lowest = match self.bass {
            Some(b) => b,
            None => self.root,
        };
        let mut r = IntervalSet::new();
        let n = self.intervals.len();
        reveal(Chord::root_has);
        let mut i: usize = 0;
        while i < n
            invariant
                n == self.intervals@.len(),
                i <= n,
                self.wf(),
                lowest == self.lowest(),
                r.wf(),
                forall|x: u8| #[trigger] r.has(x) <==> exists|k: int|
                    0 <= k < i && distance(
                        lowest.byte + #[trigger] self.intervals@[k],
                        self.root.byte as int,
                    ) == x,
            decreases n - i,
        {
            let ghost prev = r;
            let note = lowest.transpose(self.intervals.get(i));
            let d = note.abs_diff(self.root);
            r.push(d);
            assert forall|x: u8| #[trigger] r.has(x) <==> exists|k: int|
                0 <= k < i + 1 && distance(
                    lowest.byte + #[trigger] self.intervals@[k],
                    self.root.byte as int,
                ) == x by {
                assert(r.has(x) <==> (prev.has(x) || x == d.semitones));
                if x == d.semitones {
                    assert(distance(lowest.byte + self.intervals@[i as int], self.root.byte as int)
                        == x);
                }
            }
            i = i + 1;
        }
        r
    }

    /// Consumes the chord and gives its intervals measured from the root.
    pub fn intervals(self) -> (r: IntervalSet)
        requires
            self.wf(),
        ensures
            r.wf(),
            forall|x: u8| #[trigger] r.has(x) <==> self.root_has(x),
    {
        self.root_relative()
    }

    /// The chord's note numbers, lowest first.
    pub open spec fn spec_notes(&self) -> Seq<u8> {
        self.intervals@.map_values(|x: u8| (self.lowest().byte + x) as u8)
    }

    /// Consumes the chord into a lazy sequence of its notes, lowest first.
    pub fn midi_notes(self) -> (r: MidiNotes)
        requires
            self.wf(),
        ensures
            r.wf(),
            r@ == self.spec_notes(),
    {
        let base = match self.bass {
            Some(b) => b,
            None => self.root,
        };
        let r = MidiNotes { base, intervals: self.intervals };
        assert(r@ =~= self.spec_notes());
        r
    }

    /// Consumes the chord into its notes, lowest first.
    pub fn into_notes(self) -> (r: Vec<MidiNote>)
        requires
            self.wf(),
        ensures
            r@.map_values(|m: MidiNote| m.byte) == self.spec_notes(),
    {
        let ghost all = self.spec_notes();
        let mut notes = self.midi_notes();
        let mut r: Vec<MidiNote> = Vec::new();
        while !notes.is_empty()
            invariant
                notes.wf(),
                all == r@.map_values(|m: MidiNote| m.byte) + notes@,
            decreases notes@.len(),
        {
            let next = notes.next();
            let m = next.unwrap();
            r.push(m);
            assert(all =~= r@.map_values(|m: MidiNote| m.byte) + notes@);
        }
        assert(all =~= r@.map_values(|m: MidiNote| m.byte));
        r
    }

    /// Infers a chord from notes given bass first, taking the first note as
    /// the root. With no notes, the chord is a lone unison on note 0.
    pub fn from_notes(notes: &[MidiNote]) -> (r: Chord)
        requires
            forall|k: int| 0 <= k < notes@.len() ==> notes@[0].byte <= #[trigger] notes@[k].byte,
        ensures
            r.wf(),
            r.bass.is_none(),
            !r.is_inversion,
            notes@.len() == 0 ==> r.root.byte == 0 && forall|x: u8| #[trigger]
                r.intervals.has(x) <==> x == 0,
            notes@.len() > 0 ==> r.root == notes@[0] && forall|x: u8| #[trigger]
                r.intervals.has(x) <==> (x == 0 || above_first(notes@, x)),
    {
        if notes.len() == 0 {
            let root = MidiNote::from_byte(0);
            let c = Chord::new(root).root();
            assert forall|k: int| 0 <= k < c.intervals@.len() implies c.lowest().byte
                + #[trigger] c.intervals@[k] <= u8::MAX by {
                assert(c.intervals.has(c.intervals@[k]));
            }
            c
        } else {
            Chord::from_midi(notes[0], notes).unwrap()
        }
    }
}

/// The notes of a chord, handed out one at a time from the lowest.
pub struct MidiNotes {
    base: MidiNote,
    intervals: IntervalSet,
}

impl View for MidiNotes {
    type V = Seq<u8>;

    /// The note numbers still to come.
    closed spec fn view(&self) -> Seq<u8> {
        self.intervals@.map_values(|x: u8| (self.base.byte + x) as u8)
    }
}

impl MidiNotes {
    /// The remaining intervals are canonical and every note is valid.
    pub closed spec fn wf(&self) -> bool {
        &&& self.intervals.wf()
        &&& forall|k: int|
            0 <= k < self.intervals@.len() ==> self.base.byte + #[trigger] self.intervals@[k]
                <= u8::MAX
    }

    pub fn is_empty(&self) -> (r: bool)
        ensures
            r == (self@.len() == 0),
    {
        self.intervals.is_empty()
    }

    /// The next note up, or `None` once all have been handed out.
    pub fn next(&mut self) -> (r: Option<MidiNote>)
        requires
            old(self).wf(),
        ensures
            final(self).wf(),
            old(self)@.len() == 0 ==> r.is_none() && final(self)@ == old(self)@,
            old(self)@.len() > 0 ==> r.is_some() && r.unwrap().byte == old(self)@[0]
                && final(self)@ == old(self)@.drop_first(),
    {
        let ghost before = self.intervals@;
        let next = self.intervals.next();
        proof {
            assert forall|k: int|
                0 <= k < self.intervals@.len() implies self.base.byte
                + #[trigger] self.intervals@[k] <= u8::MAX by {
                assert(self.intervals@[k] == before[k + 1]);
            }
            if before.len() > 0 {
                assert(self@ =~= old(self)@.drop_first());
            }
        }
        match next {
            Some(interval) => Some(self.base.transpose(interval)),
            None => None,
        }
    }
}

} // verus!
