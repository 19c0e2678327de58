use avi_device::clock::VectorClock;
use std::cmp::Ordering;

fn clock(entries: &[(&str, u64)]) -> VectorClock {
    let mut c = VectorClock::new();
    for (a, n) in entries {
        c.set(a, *n);
    }
    c
}

#[test]
fn new_clock_is_empty_and_counts_zero() {
    let c = VectorClock::new();
    assert!(c.entries().is_empty());
    assert_eq!(c.get("anyone"), 0);
}

#[test]
fn increment_counts_up_per_actor() {
    let mut c = VectorClock::new();
    c.increment("a");
    c.increment("a");
    c.increment("b");
    assert_eq!(c.get("a"), 2);
    assert_eq!(c.get("b"), 1);
    assert_eq!(c.get("c"), 0);
}

#[test]
fn increment_advances_past_the_old_clock() {
    let old = clock(&[("a", 3), ("b", 1)]);
    let mut new = old.duplicate();
    new.increment("b");
    assert_eq!(old.partial_cmp(&new), Some(Ordering::Less));
    assert_eq!(new.partial_cmp(&old), Some(Ordering::Greater));
}

#[test]
fn partial_cmp_equal_less_greater_concurrent() {
    let a = clock(&[("x", 1), ("y", 2)]);
    let b = clock(&[("y", 2), ("x", 1)]);
    assert_eq!(a.partial_cmp(&b), Some(Ordering::Equal));

    let c = clock(&[("x", 2), ("y", 2)]);
    assert_eq!(a.partial_cmp(&c), Some(Ordering::Less));
    assert_eq!(c.partial_cmp(&a), Some(Ordering::Greater));

    let d = clock(&[("x", 0), ("y", 3)]);
    let e = clock(&[("x", 1), ("y", 0)]);
    assert_eq!(d.partial_cmp(&e), None);
    assert_eq!(e.partial_cmp(&d), None);
}

#[test]
fn missing_actor_counts_as_zero_in_comparison() {
    let a = clock(&[("x", 0)]);
    let b = VectorClock::new();
    assert_eq!(a.partial_cmp(&b), Some(Ordering::Equal));
    let c = clock(&[("z", 1)]);
    assert_eq!(b.partial_cmp(&c), Some(Ordering::Less));
}

#[test]
fn comparison_is_reflexive() {
    let a = clock(&[("p", 7), ("q", 0), ("r", 12)]);
    assert_eq!(a.partial_cmp(&a), Some(Ordering::Equal));
}

#[test]
fn merge_takes_the_larger_count_of_each_actor() {
    let mut a = clock(&[("x", 3), ("y", 1)]);
    let b = clock(&[("y", 5), ("z", 2)]);
    a.merge(&b);
    assert_eq!(a.get("x"), 3);
    assert_eq!(a.get("y"), 5);
    assert_eq!(a.get("z"), 2);
}

#[test]
fn merge_is_an_upper_bound_commutative_and_idempotent() {
    let a = clock(&[("x", 3), ("y", 1)]);
    let b = clock(&[("y", 5), ("z", 2)]);
    let mut ab = a.duplicate();
    ab.merge(&b);
    let mut ba = b.duplicate();
    ba.merge(&a);
    assert_eq!(ab.partial_cmp(&ba), Some(Ordering::Equal));
    assert!(matches!(a.partial_cmp(&ab), Some(Ordering::Less) | Some(Ordering::Equal)));
    assert!(matches!(b.partial_cmp(&ab), Some(Ordering::Less) | Some(Ordering::Equal)));
    let mut again = ab.duplicate();
    again.merge(&ab);
    assert_eq!(again.partial_cmp(&ab), Some(Ordering::Equal));
}

#[test]
fn merging_an_older_clock_changes_nothing() {
    let newer = clock(&[("x", 4), ("y", 4)]);
    let older = clock(&[("x", 1)]);
    let mut m = newer.duplicate();
    m.merge(&older);
    assert_eq!(m.partial_cmp(&newer), Some(Ordering::Equal));
}
