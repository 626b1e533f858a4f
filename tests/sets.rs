use vex_rt::{from_errno, Error, Event, SharedSet, Task};

#[test]
fn shared_set_insert_and_remove() {
    let mut s = SharedSet::new();
    assert!(s.iter().is_empty());
    assert!(s.insert(4));
    assert!(s.insert(9));
    assert!(!s.insert(4));
    assert_eq!(s.iter(), &[4, 9]);
    assert!(s.contains(9));
    assert!(s.remove(4));
    assert!(!s.remove(4));
    assert!(!s.contains(4));
    assert_eq!(s.iter(), &[9]);
}

#[test]
fn shared_set_iterates_in_increasing_order() {
    let mut s = SharedSet::new();
    assert!(s.insert(5));
    assert!(s.insert(3));
    assert!(s.insert(8));
    assert!(s.insert(1));
    assert_eq!(s.iter(), &[1, 3, 5, 8]);
    assert!(s.remove(5));
    assert_eq!(s.iter(), &[1, 3, 8]);
}

#[test]
fn new_event_notifies_nobody() {
    let e = Event::new();
    assert!(e.notify().is_empty());
}

#[test]
fn error_from_errno() {
    match from_errno(12) {
        Error::System(n) => assert_eq!(n, 12),
        Error::Custom(_) => panic!("expected a system error"),
    }
    let _ = Task(3);
}
