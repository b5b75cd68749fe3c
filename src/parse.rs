use vstd::prelude::*;
use crate::chord::Chord;
use crate::symbol::{
    bass_token, fifth_token, lemma_root_position_distances, no_fifth_token, no_root_token,
    quality_token, seventh_token, symbol,
};
use crate::interval::{self, Interval};
use crate::midi::{MidiNote, Natural, Octave, Pitch};

verus! {

/// A `b` at position `i` that is a flat sign: one followed by `5` is the
/// flat-five token instead.
pub open spec fn flat_at(s: Seq<char>, i: int) -> bool {
    i < s.len() && s[i] == 'b' && !(i + 1 < s.len() && s[i + 1] == '5')
}

/// A `#` at position `i`.
pub open spec fn sharp_at(s: Seq<char>, i: int) -> bool {
    i < s.len() && s[i] == '#'
}

/// Position just after the letter and its accidental (`b`, `bb`, `#` or `##`).
pub open spec fn accidental_end(s: Seq<char>) -> int {
    if flat_at(s, 1) {
        if flat_at(s, 2) {
            3
        } else {
            2
        }
    } else if sharp_at(s, 1) {
        if sharp_at(s, 2) {
            3
        } else {
            2
        }
    } else {
        1
    }
}

/// Semitones that the accidental moves the letter by.
pub open spec fn alteration(s: Seq<char>) -> int {
    if flat_at(s, 1) {
        if flat_at(s, 2) {
            -2
        } else {
            -1
        }
    } else if sharp_at(s, 1) {
        if sharp_at(s, 2) {
            2
        } else {
            1
        }
    } else {
        0
    }
}

/// An `m` follows the accidental.
pub open spec fn is_minor_symbol(s: Seq<char>) -> bool {
    accidental_end(s) < s.len() && s[accidental_end(s)] == 'm'
}

/// Position where the modifier tokens begin.
pub open spec fn modifiers_start(s: Seq<char>) -> int {
    if is_minor_symbol(s) {
        accidental_end(s) + 1
    } else {
        accidental_end(s)
    }
}

/// The text is a run of the tokens `7` and `b5`, in any order.
pub open spec fn valid_modifiers(t: Seq<char>) -> bool
    decreases t.len(),
{
    if t.len() == 0 {
        true
    } else if t[0] == '7' {
        valid_modifiers(t.skip(1))
    } else if t[0] == 'b' && t.len() >= 2 && t[1] == '5' {
        valid_modifiers(t.skip(2))
    } else {
        false
    }
}

/// The modifier tokens of a symbol.
pub open spec fn modifiers(s: Seq<char>) -> Seq<char> {
    s.skip(modifiers_start(s))
}

/// The symbol follows the grammar: a note letter, an optional accidental,
/// an optional `m`, then `7` and `b5` tokens.
pub open spec fn is_symbol(s: Seq<char>) -> bool {
    &&& s.len() >= 1
    &&& Natural::spec_from_char(s[0]).is_some()
    &&& valid_modifiers(modifiers(s))
}

/// Pitch class of the symbol's root.
pub open spec fn root_class(s: Seq<char>) -> int {
    (Natural::spec_from_char(s[0]).unwrap().spec_class() + 12 + alteration(s)) % 12
}

/// The intervals a parsed symbol holds: root and fifth, the third the
/// quality asks for, a tritone for `b5` and a minor seventh for `7`.
pub open spec fn symbol_has(s: Seq<char>, x: u8) -> bool {
    ||| x == 0
    ||| x == 7
    ||| (x == 3 && is_minor_symbol(s))
    ||| (x == 4 && !is_minor_symbol(s))
    ||| (x == 6 && modifiers(s).contains('b'))
    ||| (x == 10 && modifiers(s).contains('7'))
}

proof fn lemma_push_contains(p: Seq<char>, a: char, c: char)
    ensures
        p.push(a).contains(c) <==> (p.contains(c) || a == c),
{
    if p.contains(c) {
        let k = choose|k: int| 0 <= k < p.len() && p[k] == c;
        assert(p.push(a)[k] == c);
    }
    if a == c {
        assert(p.push(a)[p.len() as int] == c);
    }
    if p.push(a).contains(c) {
        let k = choose|k: int| 0 <= k < p.len() + 1 && p.push(a)[k] == c;
        if k < p.len() {
            assert(p[k] == c);
        }
    }
}

fn is_flat(s: &str, n: usize, i: usize) -> (r: bool)
    requires
        n == s@.len(),
        i <= 2,
    ensures
        r == flat_at(s@, i as int),
{
    i < n && s.get_char(i) == 'b' && !(i + 1 < n && s.get_char(i + 1) == '5')
}

impl Chord {
    /// Reads a chord symbol such as `Cm7`, `D##` or `Cb5`. The root is put in
    /// octave four. A `b` followed by `5` is the flat-five token, never a flat
    /// sign. Anything outside the grammar is refused.
    pub fn parse(s: &str) -> (r: Result<Chord, ()>)
        ensures
            r.is_ok() <==> is_symbol(s@),
            r.is_ok() ==> {
                let c = r.unwrap();
                &&& c.root.byte == Octave::FOUR.spec_rank() * 12 + root_class(s@)
                &&& c.bass.is_none()
                &&& !c.is_inversion
                &&& c.wf()
                &&& forall|x: u8| #[trigger] c.intervals.has(x) <==> symbol_has(s@, x)
            },
    {
        let n = s.unicode_len();
        if n == 0 {
            return Err(());
        }
        let natural = match Natural::from_char(s.get_char(0)) {
            Some(natural) => natural,
            None => return Err(()),
        };
        let mut i: usize = 1;
        let mut alter: i8 = 0;
        if is_flat(s, n, 1) {
            if is_flat(s, n, 2) {
                alter = -2;
                i = 3;
            } else {
                alter = -1;
                i = 2;
            }
        } else if n > 1 && s.get_char(1) == '#' {
            if n > 2 && s.get_char(2) == '#' {
                alter = 2;
                i = 3;
            } else {
                alter = 1;
                i = 2;
            }
        }
        assert(i == accidental_end(s@) && alter == alteration(s@));
        let root = MidiNote::new(Pitch::altered(natural, alter), Octave::FOUR);
        let mut chord = if i < n && s.get_char(i) == 'm' {
            i = i + 1;
            Chord::minor(root)
        } else {
            Chord::major(root)
        };
        let start = i;
        assert(start == modifiers_start(s@));
        assert(s@.subrange(start as int, start as int) =~= Seq::<char>::empty());
        while i < n
            invariant
                n == s@.len(),
                start == modifiers_start(s@),
                start <= i <= n,
                chord.root == root,
                chord.bass.is_none(),
                !chord.is_inversion,
                chord.intervals.wf(),
                valid_modifiers(modifiers(s@)) <==> valid_modifiers(s@.skip(i as int)),
                forall|x: u8| #[trigger] chord.intervals.has(x) <==> {
                    ||| x == 0
                    ||| x == 7
                    ||| (x == 3 && is_minor_symbol(s@))
                    ||| (x == 4 && !is_minor_symbol(s@))
                    ||| (x == 6 && s@.subrange(start as int, i as int).contains('b'))
                    ||| (x == 10 && s@.subrange(start as int, i as int).contains('7'))
                },
            decreases n - i,
        {
            let ghost prev = chord.intervals;
            let ghost t = s@.skip(i as int);
            let ghost seen = s@.subrange(start as int, i as int);
            let ch = s.get_char(i);
            if ch == '7' {
                chord = chord.interval(Interval::new(interval::MINOR_SEVENTH));
                proof {
                    assert(t.skip(1) =~= s@.skip(i + 1));
                    assert(s@.subrange(start as int, i + 1) =~= seen.push('7'));
                    lemma_push_contains(seen, '7', 'b');
                    lemma_push_contains(seen, '7', '7');
                }
                i = i + 1;
            } else if ch == 'b' && i + 1 < n && s.get_char(i + 1) == '5' {
                chord = chord.interval(Interval::new(interval::TRITONE));
                proof {
                    assert(t.skip(2) =~= s@.skip(i + 2));
                    assert(s@.subrange(start as int, i + 2) =~= seen.push('b').push('5'));
                    lemma_push_contains(seen, 'b', 'b');
                    lemma_push_contains(seen, 'b', '7');
                    lemma_push_contains(seen.push('b'), '5', 'b');
                    lemma_push_contains(seen.push('b'), '5', '7');
                }
                i = i + 2;
            } else {
                assert(!valid_modifiers(t));
                return Err(());
            }
        }
        assert(s@.subrange(start as int, n as int) =~= modifiers(s@));
        assert(s@.skip(n as int) =~= Seq::<char>::empty());
        assert forall|k: int| 0 <= k < chord.intervals@.len() implies chord.lowest().byte
            + #[trigger] chord.intervals@[k] <= u8::MAX by {
            assert(chord.intervals.has(chord.intervals@[k]));
        }
        Ok(chord)
    }
}

/// The letter that names a natural.
pub open spec fn letter(n: Natural) -> char {
    match n {
        Natural::C => 'C',
        Natural::D => 'D',
        Natural::E => 'E',
        Natural::F => 'F',
        Natural::G => 'G',
        Natural::A => 'A',
        Natural::B => 'B',
    }
}

/// Writing a chord of the symbol vocabulary and reading the symbol back
/// gives the same chord: for a root-position chord on a natural in octave
/// four made of root, fifth, a minor or major third, and optionally a
/// tritone and a minor seventh, its symbol is accepted by the parser, names
/// the same root, and holds exactly the chord's intervals.
pub proof fn symbol_parses_back(
    c: Chord,
    n: Natural,
    minor: bool,
    flat_five: bool,
    seventh: bool,
)
    requires
        c.bass.is_none(),
        c.root.byte == Octave::FOUR.spec_rank() * 12 + n.spec_class(),
        c.intervals.wf(),
        forall|x: u8| #[trigger]
            c.intervals.has(x) <==> (x == 0 || x == 7 || (x == 3 && minor) || (x == 4 && !minor)
                || (x == 6 && flat_five) || (x == 10 && seventh)),
    ensures
        is_symbol(symbol(c)),
        root_class(symbol(c)) == n.spec_class(),
        forall|x: u8| #[trigger] symbol_has(symbol(c), x) <==> c.intervals.has(x),
{
    lemma_root_position_distances(c);
    reveal(Pitch::spec_name);
    reveal_with_fuel(valid_modifiers, 4);
    assert(c.root.spec_class() == n.spec_class());
    assert(Pitch::spec_name(c.root.spec_class()) =~= seq![letter(n)]);
    assert(c.root_has(0) && c.root_has(7) && !c.root_has(2) && !c.root_has(5));
    assert(!c.root_has(11));
    assert(c.root_has(3) == minor && c.root_has(6) == flat_five && c.root_has(10) == seventh);
    let q = quality_token(c);
    let f = fifth_token(c);
    let sev = seventh_token(c);
    let s = symbol(c);
    assert(bass_token(c) =~= Seq::<char>::empty());
    assert(no_root_token(c) =~= Seq::<char>::empty());
    assert(no_fifth_token(c) =~= Seq::<char>::empty());
    assert(s =~= seq![letter(n)] + q + f + sev);
    assert(Natural::spec_from_char(s[0]) == Some(n));
    assert(!flat_at(s, 1) && !sharp_at(s, 1));
    assert(accidental_end(s) == 1 && alteration(s) == 0);
    assert(is_minor_symbol(s) == minor);
    let m = modifiers(s);
    assert(m =~= f + sev);
    if flat_five {
        assert(m.skip(2) =~= sev);
        assert(m[0] == 'b');
    }
    if seventh {
        if flat_five {
            assert(m[2] == '7');
            assert(sev.skip(1) =~= Seq::<char>::empty());
        } else {
            assert(m[0] == '7');
            assert(m.skip(1) =~= Seq::<char>::empty());
        }
    }
    assert(m.contains('b') == flat_five) by {
        if m.contains('b') {
            let k = choose|k: int| 0 <= k < m.len() && m[k] == 'b';
        }
    }
    assert(m.contains('7') == seventh) by {
        if m.contains('7') {
            let k = choose|k: int| 0 <= k < m.len() && m[k] == '7';
        }
        if seventh && flat_five {
            assert(m[2] == '7');
        }
    }
    assert(valid_modifiers(m));
}

impl core::str::FromStr for Chord {
    type Err = ();

    fn from_str(s: &str) -> Result<Chord, ()> {
        Chord::parse(s)
    }
}

} // verus!
