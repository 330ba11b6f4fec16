use coop_runtime::id::successor;
use coop_runtime::id::AtomicIdGenerator;
use coop_runtime::id::IdGenerator;

#[test]
fn ids_count_up_from_zero() {
    let mut ids = IdGenerator::default();
    let a = ids.next().unwrap();
    let b = ids.next().unwrap();
    assert_eq!(a.index(), 0);
    assert_eq!(b.index(), 1);
    assert_ne!(a, b);
    assert_eq!(ids.count(), 2);
}

#[test]
fn distinct_issues_give_distinct_ids() {
    let mut ids = IdGenerator::default();
    let mut seen: Vec<usize> = Vec::new();
    for _ in 0..500 {
        let id = ids.next().unwrap();
        assert!(!seen.contains(&id.index()));
        seen.push(id.index());
    }
    assert_eq!(seen.len(), 500);
}

#[test]
fn exhausted_generator_issues_nothing() {
    let mut ids = IdGenerator::starting_at(usize::MAX);
    assert!(ids.next().is_none());
    assert!(ids.next().is_none());
    assert_eq!(ids.count(), usize::MAX);
}

#[test]
fn last_id_is_issued_before_exhaustion() {
    let mut ids = IdGenerator::starting_at(usize::MAX - 1);
    let last = ids.next().unwrap();
    assert_eq!(last.index(), usize::MAX - 1);
    assert!(ids.next().is_none());
}

#[test]
fn id_converts_to_its_index() {
    let mut ids = IdGenerator::starting_at(41);
    let id = ids.next().unwrap();
    let index: usize = usize::from(id);
    assert_eq!(index, 41);
}

#[test]
fn equal_ids_are_equal() {
    let a = IdGenerator::starting_at(7).next().unwrap();
    let b = IdGenerator::starting_at(7).next().unwrap();
    let c = IdGenerator::starting_at(8).next().unwrap();
    assert_eq!(a, b);
    assert_ne!(a, c);
}

#[test]
fn atomic_generator_counts_up() {
    let ids = AtomicIdGenerator::default();
    let a = ids.next().unwrap();
    let b = ids.next().unwrap();
    let c = ids.next().unwrap();
    assert_eq!(a.index(), 0);
    assert_eq!(b.index(), 1);
    assert_eq!(c.index(), 2);
}

#[test]
fn atomic_generator_issues_the_position_of_its_counter() {
    assert_eq!(AtomicIdGenerator::issue(0).index(), 0);
    assert_eq!(AtomicIdGenerator::issue(17).index(), 17);
    assert_eq!(AtomicIdGenerator::issue(usize::MAX).index(), usize::MAX);
    assert_eq!(AtomicIdGenerator::issue(3), IdGenerator::starting_at(3).next().unwrap());
}

#[test]
fn successor_stops_at_the_last_position() {
    assert_eq!(successor(0), Some(1));
    assert_eq!(successor(usize::MAX - 1), Some(usize::MAX));
    assert_eq!(successor(usize::MAX), None);
}

#[test]
fn atomic_generator_issues_nothing_once_its_counter_cannot_advance() {
    let ids = AtomicIdGenerator::starting_at(usize::MAX - 2);
    assert_eq!(ids.next().unwrap().index(), usize::MAX - 2);
    assert_eq!(ids.next().unwrap().index(), usize::MAX - 1);
    assert!(ids.next().is_none());
    assert!(ids.next().is_none());
}
