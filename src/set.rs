use vstd::prelude::*;
use crate::interval::Interval;

verus! {

/// The semitone counts of a sequence of intervals.
pub open spec fn semitones_of(s: Seq<Interval>) -> Seq<u8> {
    s.map_values(|i: Interval| i.semitones)
}

/// True when the values rise strictly from left to right.
pub open spec fn strictly_ascending(s: Seq<u8>) -> bool {
    forall|a: int, b: int| 0 <= a < b < s.len() ==> s[a] < s[b]
}

/// Some result of `f` on the interval `x` lies in `r`.
pub open spec fn image_in<F: Fn(Interval) -> Interval>(f: F, x: u8, r: IntervalSet) -> bool {
    exists|o: Interval| f.ensures((Interval { semitones: x },), o) && r.has(o.semitones)
}

/// `x` is a result of `f` on some interval of `s`.
pub open spec fn image_of<F: Fn(Interval) -> Interval>(f: F, s: Seq<u8>, x: u8) -> bool {
    exists|k: int, o: Interval|
        0 <= k < s.len() && #[trigger] f.ensures((Interval { semitones: s[k] },), o)
            && o.semitones == x
}

/// A set of intervals, kept sorted ascending and free of duplicates.
#[derive(Clone, Debug, PartialEq, Eq)]
pub struct IntervalSet {
    intervals: Vec<Interval>,
}

impl View for IntervalSet {
    type V = Seq<u8>;

    /// The semitone counts in the order the set holds them.
    closed spec fn view(&self) -> Seq<u8> {
        semitones_of(self.intervals@)
    }
}

impl IntervalSet {
    /// The set is canonical: strictly ascending, hence without duplicates.
    pub open spec fn wf(&self) -> bool {
        strictly_ascending(self@)
    }

    /// Whether the set holds an interval of `semitones` semitones.
    pub open spec fn has(&self, semitones: u8) -> bool {
        self@.contains(semitones)
    }

    pub fn new() -> (r: IntervalSet)
        ensures
            r.wf(),
            r@ == Seq::<u8>::empty(),
    {
        let r = IntervalSet { intervals: Vec::new() };
        assert(r@ =~= Seq::<u8>::empty());
        r
    }

    pub fn len(&self) -> (r: usize)
        ensures
            r == self@.len(),
    {
        self.intervals.len()
    }

    pub fn is_empty(&self) -> (r: bool)
        ensures
            r == (self@.len() == 0),
    {
        self.intervals.len() == 0
    }

    /// The interval at position `index`, counting from the smallest.
    pub fn get(&self, index: usize) -> (r: Interval)
        requires
            index < self@.len(),
        ensures
            r.semitones == self@[index as int],
    {
        self.intervals[index]
    }

    /// Inserts `interval`; nothing changes if it is already present.
    pub fn push(&mut self, interval: Interval)
        requires
            old(self).wf(),
        ensures
            final(self).wf(),
            forall|x: u8| #[trigger] final(self).has(x) <==> (old(self).has(x) || x == interval.semitones),
            final(self)@.len() <= old(self)@.len() + 1,
    {
        let x = interval.semitones;
        let n = self.intervals.len();
        let mut i: usize = 0;
        while i < n && self.intervals[i].semitones < x
            invariant
                n == self@.len(),
                i <= n,
                self.wf(),
                forall|k: int| 0 <= k < i ==> self@[k] < x,
            decreases n - i,
        {
            i = i + 1;
        }
        if i < n && self.intervals[i].semitones == x {
            assert(self@[i as int] == x);
            return;
        }
        proof {
            assert(i < n ==> self@[i as int] > x);
        }
        let ghost before = self@;
        self.intervals.insert(i, interval);
        assert(self@ =~= before.insert(i as int, x));
        assert forall|x2: u8| #[trigger] self.has(x2) <==> (before.contains(x2) || x2 == x) by {
            if before.contains(x2) {
                let k = choose|k: int| 0 <= k < before.len() && before[k] == x2;
                if k < i {
                    assert(self@[k] == x2);
                } else {
                    assert(self@[k + 1] == x2);
                }
            }
            if x2 == x {
                assert(self@[i as int] == x);
            }
            if self.has(x2) {
                let k = choose|k: int| 0 <= k < self@.len() && self@[k] == x2;
                if k < i {
                    assert(before[k] == x2);
                } else if k > i {
                    assert(before[k - 1] == x2);
                }
            }
        }
    }

    /// Inserts every interval of `intervals`.
    pub fn extend(&mut self, intervals: &[Interval])
        requires
            old(self).wf(),
        ensures
            final(self).wf(),
            forall|x: u8| #[trigger] final(self).has(x) <==> (old(self).has(x)
                || semitones_of(intervals@).contains(x)),
    {
        let ghost start = *self;
        let mut i: usize = 0;
        while i < intervals.len()
            invariant
                i <= intervals@.len(),
                self.wf(),
                start.wf(),
                forall|x: u8| #[trigger] self.has(x) <==> (start.has(x)
                    || semitones_of(intervals@.take(i as int)).contains(x)),
            decreases intervals@.len() - i,
        {
            let ghost prev = *self;
            self.push(intervals[i]);
            proof {
                let s = intervals@;
                assert(semitones_of(s.take(i + 1)) =~= semitones_of(s.take(i as int)).push(
                    s[i as int].semitones,
                ));
                assert forall|x: u8| #[trigger] self.has(x) <==> (start.has(x)
                    || semitones_of(s.take(i + 1)).contains(x)) by {
                    let p = semitones_of(s.take(i as int));
                    assert(self.has(x) <==> (prev.has(x) || x == s[i as int].semitones));
                    assert(prev.has(x) <==> (start.has(x) || p.contains(x)));
                    if p.contains(x) {
                        let k = choose|k: int| 0 <= k < p.len() && p[k] == x;
                        assert(p.push(s[i as int].semitones)[k] == x);
                    }
                    if p.push(s[i as int].semitones).contains(x) {
                        let k = choose|k: int|
                            0 <= k < p.len() + 1 && p.push(s[i as int].semitones)[k] == x;
                        if k < p.len() {
                            assert(p[k] == x);
                        }
                    }
                    if x == s[i as int].semitones {
                        assert(p.push(s[i as int].semitones)[p.len() as int] == x);
                    }
                }
            }
            i = i + 1;
        }
        assert(intervals@.take(intervals@.len() as int) =~= intervals@);
    }

    /// The canonical set of the given intervals, in whatever order and with
    /// whatever repetitions they come.
    pub fn from_intervals(intervals: &[Interval]) -> (r: IntervalSet)
        ensures
            r.wf(),
            forall|x: u8| #[trigger] r.has(x) <==> semitones_of(intervals@).contains(x),
    {
        let mut r = IntervalSet::new();
        r.extend(intervals);
        r
    }

    /// Whether `interval` is in the set.
    pub fn contains(&self, interval: Interval) -> (r: bool)
        ensures
            r == self.has(interval.semitones),
    {
        let mut i: usize = 0;
        while i < self.intervals.len()
            invariant
                i <= self@.len(),
                forall|k: int| 0 <= k < i ==> self@[k] != interval.semitones,
            decreases self@.len() - i,
        {
            if self.intervals[i].semitones == interval.semitones {
                assert(self@[i as int] == interval.semitones);
                return true;
            }
            i = i + 1;
        }
        false
    }

    /// Applies `f` to every interval and gathers the results into a new
    /// canonical set; results that coincide collapse into one.
    pub fn map<F: Fn(Interval) -> Interval>(&self, f: F) -> (r: IntervalSet)
        requires
            forall|i: Interval| #[trigger] f.requires((i,)),
        ensures
            r.wf(),
            r@.len() <= self@.len(),
            forall|k: int| 0 <= k < self@.len() ==> #[trigger] image_in(f, self@[k], r),
            forall|x: u8| #[trigger] r.has(x) ==> image_of(f, self@, x),
    {
        let mut r = IntervalSet::new();
        let n = self.intervals.len();
        let mut i: usize = 0;
        while i < n
            invariant
                n == self@.len(),
                i <= n,
                r.wf(),
                r@.len() <= i,
                forall|i: Interval| #[trigger] f.requires((i,)),
                forall|k: int| 0 <= k < i ==> #[trigger] image_in(f, self@[k], r),
                forall|x: u8| #[trigger] r.has(x) ==> image_of(f, self@.take(i as int), x),
            decreases n - i,
        {
            let ghost prev = r;
            let item = self.intervals[i];
            assert(item == Interval { semitones: self@[i as int] });
            let o = f(item);
            r.push(o);
            proof {
                assert forall|k: int| 0 <= k < i + 1 implies #[trigger] image_in(f, self@[k], r) by {
                    if k == i {
                        assert(r.has(o.semitones));
                    } else {
                        assert(image_in(f, self@[k], prev));
                        let o2 = choose|o2: Interval|
                            f.ensures((Interval { semitones: self@[k] },), o2) && prev.has(
                                o2.semitones,
                            );
                        assert(r.has(o2.semitones));
                    }
                }
                assert forall|x: u8| #[trigger] r.has(x) implies image_of(
                    f,
                    self@.take(i + 1),
                    x,
                ) by {
                    let t = self@.take(i + 1);
                    if x == o.semitones {
                        assert(t[i as int] == self@[i as int]);
                        assert(f.ensures((Interval { semitones: t[i as int] },), o));
                    } else {
                        assert(prev.has(x));
                        assert(image_of(f, self@.take(i as int), x));
                        let (k, o2) = choose|k: int, o2: Interval|
                            0 <= k < i && f.ensures(
                                (Interval { semitones: self@.take(i as int)[k] },),
                                o2,
                            ) && o2.semitones == x;
                        assert(t[k] == self@.take(i as int)[k]);
                        assert(f.ensures((Interval { semitones: t[k] },), o2));
                    }
                }
            }
            i = i + 1;
        }
        assert(self@.take(n as int) =~= self@);
        r
    }

    /// Removes and returns the smallest interval, if any.
    pub fn next(&mut self) -> (r: Option<Interval>)
        requires
            old(self).wf(),
        ensures
            final(self).wf(),
            old(self)@.len() == 0 ==> r.is_none() && final(self)@ == old(self)@,
            old(self)@.len() > 0 ==> r.is_some() && r.unwrap().semitones == old(self)@[0]
                && final(self)@ == old(self)@.drop_first(),
    {
        if self.intervals.len() == 0 {
            None
        } else {
            let ghost before = self@;
            let first = self.intervals.remove(0);
            assert(self@ =~= before.drop_first());
            Some(first)
        }
    }

    /// Drains the set into a vector, smallest interval first.
    pub fn into_vec(self) -> (r: Vec<Interval>)
        ensures
            semitones_of(r@) == self@,
    {
        self.intervals
    }
}

/// Strictly ascending sequences with the same members are the same sequence.
proof fn lemma_ascending_unique(a: Seq<u8>, b: Seq<u8>)
    requires
        strictly_ascending(a),
        strictly_ascending(b),
        forall|x: u8| a.contains(x) <==> b.contains(x),
    ensures
        a == b,
    decreases a.len() + b.len(),
{
    if a.len() == 0 || b.len() == 0 {
        if a.len() > 0 {
            assert(a.contains(a[0]));
        }
        if b.len() > 0 {
            assert(b.contains(b[0]));
        }
        assert(a =~= b);
    } else {
        assert(a.contains(a[0]));
        assert(b.contains(b[0]));
        let j = choose|j: int| 0 <= j < b.len() && b[j] == a[0];
        let i = choose|i: int| 0 <= i < a.len() && a[i] == b[0];
        if i > 0 {
            assert(a[0] < a[i]);
        }
        if j > 0 {
            assert(b[0] < b[j]);
        }
        assert(a[0] == b[0]);
        let ra = a.drop_first();
        let rb = b.drop_first();
        assert forall|x: u8| ra.contains(x) <==> rb.contains(x) by {
            if ra.contains(x) {
                let k = choose|k: int| 0 <= k < ra.len() && ra[k] == x;
                assert(a[k + 1] == x && a[0] < a[k + 1]);
                assert(a.contains(x));
                let m = choose|m: int| 0 <= m < b.len() && b[m] == x;
                assert(m != 0);
                assert(rb[m - 1] == x);
            }
            if rb.contains(x) {
                let k = choose|k: int| 0 <= k < rb.len() && rb[k] == x;
                assert(b[k + 1] == x && b[0] < b[k + 1]);
                assert(b.contains(x));
                let m = choose|m: int| 0 <= m < a.len() && a[m] == x;
                assert(m != 0);
                assert(ra[m - 1] == x);
            }
        }
        lemma_ascending_unique(ra, rb);
        assert(a =~= seq![a[0]] + ra);
        assert(b =~= seq![b[0]] + rb);
    }
}

/// A canonical set is fixed by its members alone: however and in whatever
/// order two sets were filled, if they hold the same intervals they hold them
/// in the same order.
pub proof fn canonical_form_unique(a: IntervalSet, b: IntervalSet)
    requires
        a.wf(),
        b.wf(),
        forall|x: u8| #[trigger] a.has(x) <==> b.has(x),
    ensures
        a@ == b@,
{
    assert forall|x: u8| a@.contains(x) <==> b@.contains(x) by {
        assert(a.has(x) <==> b.has(x));
    }
    lemma_ascending_unique(a@, b@);
}

} // verus!
