use vstd::prelude::*;
use crate::chord::{distance, Chord};
use crate::interval::{self, Interval};
use crate::midi::{MidiNote, Pitch};

verus! {

/// `m` for a minor third, else `sus2` for a major second, else `sus4` for a
/// perfect fourth, else nothing.
pub open spec fn quality_token(c: Chord) -> Seq<char> {
    quality_of(c.root_has(3), c.root_has(2), c.root_has(5))
}

/// The quality token, given which of minor third, major second and perfect
/// fourth are present.
pub open spec fn quality_of(minor_third: bool, major_second: bool, fourth: bool) -> Seq<char> {
    if minor_third {
        seq!['m']
    } else if major_second {
        seq!['s', 'u', 's', '2']
    } else if fourth {
        seq!['s', 'u', 's', '4']
    } else {
        Seq::empty()
    }
}

/// `b5` for a tritone.
pub open spec fn fifth_token(c: Chord) -> Seq<char> {
    if c.root_has(6) {
        seq!['b', '5']
    } else {
        Seq::empty()
    }
}

/// `7` for a minor seventh, else `maj7` for a major seventh, else nothing.
pub open spec fn seventh_token(c: Chord) -> Seq<char> {
    seventh_of(c.root_has(10), c.root_has(11))
}

/// The seventh token, given which of the two sevenths are present.
pub open spec fn seventh_of(minor_seventh: bool, major_seventh: bool) -> Seq<char> {
    if minor_seventh {
        seq!['7']
    } else if major_seventh {
        seq!['m', 'a', 'j', '7']
    } else {
        Seq::empty()
    }
}

/// `/` and the bass note's name, when there is a bass note.
pub open spec fn bass_token(c: Chord) -> Seq<char> {
    match c.bass {
        Some(b) => seq!['/'] + Pitch::spec_name(b.spec_class()),
        None => Seq::empty(),
    }
}

/// `(no root)` when no chord tone is the root itself.
pub open spec fn no_root_token(c: Chord) -> Seq<char> {
    if !c.root_has(0) {
        seq!['(', 'n', 'o', ' ', 'r', 'o', 'o', 't', ')']
    } else {
        Seq::empty()
    }
}

/// `(no5)` when the chord has neither a tritone nor a perfect fifth.
pub open spec fn no_fifth_token(c: Chord) -> Seq<char> {
    if !c.root_has(6) && !c.root_has(7) {
        seq!['(', 'n', 'o', '5', ')']
    } else {
        Seq::empty()
    }
}

/// The chord symbol: root name, quality, fifth, seventh, slash bass, then
/// the missing-root and missing-fifth marks, all judged on the intervals
/// measured from the root.
pub open spec fn symbol(c: Chord) -> Seq<char> {
    Pitch::spec_name(c.root.spec_class()) + quality_token(c) + fifth_token(c) + seventh_token(c)
        + bass_token(c) + no_root_token(c) + no_fifth_token(c)
}

fn quality_str(minor_third: bool, major_second: bool, fourth: bool) -> (r: &'static str)
    ensures
        r@ == quality_of(minor_third, major_second, fourth),
{
    if minor_third {
        proof { reveal_strlit("m"); }
        "m"
    } else if major_second {
        proof { reveal_strlit("sus2"); }
        "sus2"
    } else if fourth {
        proof { reveal_strlit("sus4"); }
        "sus4"
    } else {
        proof { reveal_strlit(""); }
        ""
    }
}

fn seventh_str(minor_seventh: bool, major_seventh: bool) -> (r: &'static str)
    ensures
        r@ == seventh_of(minor_seventh, major_seventh),
{
    if minor_seventh {
        proof { reveal_strlit("7"); }
        "7"
    } else if major_seventh {
        proof { reveal_strlit("maj7"); }
        "maj7"
    } else {
        proof { reveal_strlit(""); }
        ""
    }
}

impl Chord {
    /// Writes the chord symbol.
    #[verifier::rlimit(60)]
    pub fn to_string(&self) -> (r: String)
        requires
            self.wf(),
        ensures
            r@ == symbol(*self),
    {
        let rel = self.root_relative();
        let unison = rel.contains(Interval::new(interval::UNISON));
        let major_second = rel.contains(Interval::new(interval::MAJOR_SECOND));
        let minor_third = rel.contains(Interval::new(interval::MINOR_THIRD));
        let fourth = rel.contains(Interval::new(interval::PERFECT_FOURTH));
        let tritone = rel.contains(Interval::new(interval::TRITONE));
        let fifth = rel.contains(Interval::new(interval::PERFECT_FIFTH));
        let minor_seventh = rel.contains(Interval::new(interval::MINOR_SEVENTH));
        let major_seventh = rel.contains(Interval::new(interval::MAJOR_SEVENTH));
        let mut out = String::from_str(self.root.name());
        let ghost name = out@;
        out.append(quality_str(minor_third, major_second, fourth));
        if tritone {
            proof { reveal_strlit("b5"); }
            out.append("b5");
        }
        let ghost upto_fifth = out@;
        assert(upto_fifth =~= name + quality_token(*self) + fifth_token(*self));
        out.append(seventh_str(minor_seventh, major_seventh));
        let ghost upto_seventh = out@;
        assert(upto_seventh =~= upto_fifth + seventh_token(*self));
        match self.bass {
            Some(b) => {
                proof { reveal_strlit("/"); }
                out.append("/");
                out.append(b.name());
            },
            None => {},
        }
        let ghost upto_bass = out@;
        assert(upto_bass =~= upto_seventh + bass_token(*self));
        if !unison {
            proof { reveal_strlit("(no root)"); }
            out.append("(no root)");
        }
        let ghost upto_root = out@;
        assert(upto_root =~= upto_bass + no_root_token(*self));
        if !tritone && !fifth {
            proof { reveal_strlit("(no5)"); }
            out.append("(no5)");
        }
        assert(out@ =~= upto_root + no_fifth_token(*self));
        out
    }
}

/// In root position the intervals from the root are the stored ones.
pub proof fn lemma_root_position_distances(c: Chord)
    requires
        c.bass.is_none(),
    ensures
        forall|y: u8| #[trigger] c.root_has(y) <==> c.intervals.has(y),
{
    reveal(Chord::root_has);
    assert forall|y: u8| #[trigger] c.root_has(y) <==> c.intervals.has(y) by {
        if c.intervals.has(y) {
            let k = choose|k: int| 0 <= k < c.intervals@.len() && c.intervals@[k] == y;
            assert(distance(c.lowest().byte + c.intervals@[k], c.root.byte as int) == y);
        }
    }
}

/// A major triad is written as its root's name alone.
pub proof fn major_symbol_is_root_name(c: Chord, root: MidiNote)
    requires
        c.is_major_of(root),
    ensures
        symbol(c) == Pitch::spec_name(root.spec_class()),
{
    lemma_root_position_distances(c);
    assert(c.root_has(0) && c.root_has(7));
    assert(!c.root_has(2) && !c.root_has(3) && !c.root_has(5) && !c.root_has(6));
    assert(!c.root_has(10) && !c.root_has(11));
    assert(symbol(c) =~= Pitch::spec_name(root.spec_class()));
}

/// A chord without the root among its tones ends in `(no root)`, followed by
/// `(no5)` when it also has neither a tritone nor a perfect fifth; one with
/// neither of those always ends in `(no5)`.
pub proof fn missing_root_and_fifth_are_marked(c: Chord)
    ensures
        (!c.root_has(6) && !c.root_has(7)) ==> symbol(c).len() >= 5 && symbol(c).skip(
            symbol(c).len() - 5,
        ) == seq!['(', 'n', 'o', '5', ')'],
        (!c.root_has(0) && (c.root_has(6) || c.root_has(7))) ==> symbol(c).len() >= 9
            && symbol(c).skip(symbol(c).len() - 9) == seq![
            '(',
            'n',
            'o',
            ' ',
            'r',
            'o',
            'o',
            't',
            ')',
        ],
        (!c.root_has(0) && !c.root_has(6) && !c.root_has(7)) ==> symbol(c).len() >= 14
            && symbol(c).skip(symbol(c).len() - 14) == seq![
            '(',
            'n',
            'o',
            ' ',
            'r',
            'o',
            'o',
            't',
            ')',
            '(',
            'n',
            'o',
            '5',
            ')',
        ],
{
    let s = symbol(c);
    let pre = Pitch::spec_name(c.root.spec_class()) + quality_token(c) + fifth_token(c)
        + seventh_token(c) + bass_token(c);
    assert(s == pre + no_root_token(c) + no_fifth_token(c));
    if !c.root_has(6) && !c.root_has(7) {
        assert(s.skip(s.len() - 5) =~= no_fifth_token(c));
    }
    if !c.root_has(0) && (c.root_has(6) || c.root_has(7)) {
        assert(s.skip(s.len() - 9) =~= no_root_token(c));
    }
    if !c.root_has(0) && !c.root_has(6) && !c.root_has(7) {
        assert(s.skip(s.len() - 14) =~= no_root_token(c) + no_fifth_token(c));
    }
}

/// The symbol depends only on the root, the bass and the stored intervals:
/// equal chords are always written the same way.
pub proof fn symbol_is_deterministic(a: Chord, b: Chord)
    requires
        a.root == b.root,
        a.bass == b.bass,
        a.intervals@ == b.intervals@,
    ensures
        symbol(a) == symbol(b),
{
    reveal(Chord::root_has);
    assert forall|y: u8| a.root_has(y) == b.root_has(y) by {}
}

} // verus!
