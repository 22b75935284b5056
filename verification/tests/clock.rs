use zchronod::clock::Clock;

fn sorted(c: &Clock) -> Vec<(u128, u128)> {
    let mut e = c.entries();
    e.sort();
    e
}

#[test]
fn new_clock_is_empty() {
    let c = Clock::new();
    assert!(c.entries().is_empty());
    assert_eq!(c.get_version(7), 0);
}

#[test]
fn from_entries_keeps_largest() {
    let c = Clock::from_entries(&vec![(1, 5), (2, 1), (1, 3)]);
    assert_eq!(sorted(&c), vec![(1, 5), (2, 1)]);
    assert_eq!(c.get_version(1), 5);
    assert_eq!(c.get_version(3), 0);
}

#[test]
fn merge_takes_pointwise_max() {
    let mut a = Clock::from_entries(&vec![(1, 5), (2, 1)]);
    let b = Clock::from_entries(&vec![(2, 4), (3, 2)]);
    let c = Clock::from_entries(&vec![(1, 6)]);
    a.merge(&vec![&b, &c]);
    assert_eq!(sorted(&a), vec![(1, 6), (2, 4), (3, 2)]);
}

#[test]
fn merge_is_commutative_on_example() {
    let a = Clock::from_entries(&vec![(1, 5), (2, 1)]);
    let b = Clock::from_entries(&vec![(2, 4), (3, 2)]);
    let mut ab = a.clone();
    ab.merge(&vec![&b]);
    let mut ba = b.clone();
    ba.merge(&vec![&a]);
    assert_eq!(sorted(&ab), sorted(&ba));
}

#[test]
fn merge_with_itself_changes_nothing() {
    let a = Clock::from_entries(&vec![(9, 1), (2, 8)]);
    let mut aa = a.clone();
    aa.merge(&vec![&a]);
    assert_eq!(sorted(&aa), sorted(&a));
}

#[test]
fn merge_nothing_changes_nothing() {
    let mut a = Clock::from_entries(&vec![(1, 1)]);
    a.merge(&vec![]);
    assert_eq!(sorted(&a), vec![(1, 1)]);
}
