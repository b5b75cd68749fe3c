use staff::{Interval, IntervalSet};

fn semitones(set: IntervalSet) -> Vec<u8> {
    set.into_vec().iter().map(|i| i.semitones()).collect()
}

#[test]
fn pushes_are_sorted_and_deduplicated() {
    let mut set = IntervalSet::new();
    for s in [7u8, 0, 4, 7, 0, 21, 4] {
        set.push(Interval::new(s));
    }
    assert_eq!(set.len(), 4);
    assert_eq!(semitones(set), vec![0, 4, 7, 21]);
}

#[test]
fn insertion_order_does_not_matter() {
    let a = IntervalSet::from_intervals(&[Interval::new(10), Interval::new(3), Interval::new(0)]);
    let b = IntervalSet::from_intervals(&[
        Interval::new(0),
        Interval::new(3),
        Interval::new(3),
        Interval::new(10),
    ]);
    assert_eq!(a, b);
}

#[test]
fn extend_adds_every_interval() {
    let mut set = IntervalSet::from_intervals(&[Interval::new(5)]);
    set.extend(&[Interval::new(2), Interval::new(9), Interval::new(5)]);
    assert!(set.contains(Interval::new(2)));
    assert!(set.contains(Interval::new(9)));
    assert!(!set.contains(Interval::new(3)));
    assert_eq!(semitones(set), vec![2, 5, 9]);
}

#[test]
fn empty_set() {
    let mut set = IntervalSet::new();
    assert!(set.is_empty());
    assert_eq!(set.next(), None);
    assert!(!set.contains(Interval::new(0)));
}

#[test]
fn next_drains_in_ascending_order() {
    let mut set = IntervalSet::from_intervals(&[Interval::new(14), Interval::new(0), Interval::new(4)]);
    assert_eq!(set.get(1), Interval::new(4));
    assert_eq!(set.next(), Some(Interval::new(0)));
    assert_eq!(set.next(), Some(Interval::new(4)));
    assert_eq!(set.next(), Some(Interval::new(14)));
    assert_eq!(set.next(), None);
}

#[test]
fn map_rebuilds_a_canonical_set() {
    let set = IntervalSet::from_intervals(&[Interval::new(14), Interval::new(12), Interval::new(0)]);
    let folded = set.map(|i| Interval::new(i.semitones() % 12));
    assert_eq!(semitones(folded), vec![0, 2]);
    let shifted = set.map(|i| Interval::new(i.semitones() + 1));
    assert_eq!(semitones(shifted), vec![1, 13, 15]);
}
