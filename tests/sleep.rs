use vex_rt::{GenericSleep, SleepAction, TIMEOUT_MAX};

#[test]
fn timeout_of_each_kind() {
    assert_eq!(GenericSleep::Timestamp(7).timeout(), Some(7));
    assert_eq!(GenericSleep::NotifyTake(Some(9)).timeout(), Some(9));
    assert_eq!(GenericSleep::NotifyTake(None).timeout(), None);
}

#[test]
fn combine_two_timestamps_takes_minimum() {
    let a = GenericSleep::Timestamp(30);
    let b = GenericSleep::Timestamp(12);
    assert_eq!(a.combine(b), GenericSleep::Timestamp(12));
    assert_eq!(b.combine(a), GenericSleep::Timestamp(12));
}

#[test]
fn combine_with_notify_stays_notify() {
    let a = GenericSleep::Timestamp(30);
    let b = GenericSleep::NotifyTake(None);
    assert_eq!(a.combine(b), GenericSleep::NotifyTake(Some(30)));
    assert_eq!(b.combine(a), GenericSleep::NotifyTake(Some(30)));
    assert_eq!(b.combine(b), GenericSleep::NotifyTake(None));
    let c = GenericSleep::NotifyTake(Some(5));
    assert_eq!(a.combine(c), GenericSleep::NotifyTake(Some(5)));
    assert_eq!(c.combine(GenericSleep::NotifyTake(Some(8))), GenericSleep::NotifyTake(Some(5)));
}

#[test]
fn combine_commutes_and_is_earliest() {
    let all = [
        GenericSleep::Timestamp(0),
        GenericSleep::Timestamp(50),
        GenericSleep::NotifyTake(None),
        GenericSleep::NotifyTake(Some(20)),
        GenericSleep::NotifyTake(Some(70)),
    ];
    for a in all.iter() {
        for b in all.iter() {
            let ab = a.combine(*b);
            assert_eq!(ab, b.combine(*a));
            if let (Some(x), Some(w)) = (a.timeout(), ab.timeout()) {
                assert!(w <= x);
            }
            if let (Some(y), Some(w)) = (b.timeout(), ab.timeout()) {
                assert!(w <= y);
            }
            for c in all.iter() {
                assert_eq!(ab.combine(*c), a.combine(b.combine(*c)));
            }
        }
    }
}

#[test]
fn action_for_each_kind() {
    assert_eq!(
        GenericSleep::NotifyTake(None).action(100),
        SleepAction::NotifyTake { timeout: TIMEOUT_MAX }
    );
    assert_eq!(
        GenericSleep::NotifyTake(Some(150)).action(100),
        SleepAction::NotifyTake { timeout: 50 }
    );
    assert_eq!(
        GenericSleep::NotifyTake(Some(90)).action(100),
        SleepAction::NotifyTake { timeout: 0 }
    );
    assert_eq!(
        GenericSleep::NotifyTake(Some(u64::MAX)).action(0),
        SleepAction::NotifyTake { timeout: TIMEOUT_MAX - 1 }
    );
    assert_eq!(GenericSleep::Timestamp(130).action(100), SleepAction::Delay { millis: 30 });
    assert_eq!(GenericSleep::Timestamp(100).action(100), SleepAction::Delay { millis: 0 });
    assert_eq!(GenericSleep::Timestamp(99).action(100), SleepAction::Proceed);
}
