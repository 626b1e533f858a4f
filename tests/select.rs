use vex_rt::{
    select_either, select_map, select_match, select_sleep, Context, GenericSleep, Loop, Runtime,
    Selectable, SleepAction, Task,
};

#[test]
fn select_match_picks_the_only_ready_event() {
    let mut rt = Runtime::new(0);
    let a = Context::new_global(&mut rt);
    let b = Context::new_global(&mut rt);
    let c = Context::new_global(&mut rt);
    b.cancel(&mut rt);
    let events = vec![a.done(&mut rt, Task(1)), b.done(&mut rt, Task(1)), c.done(&mut rt, Task(1))];
    match select_match(events, &mut rt) {
        Ok((k, ())) => assert_eq!(k, 1),
        Err(_) => panic!("one event was ready"),
    }
    a.cancel(&mut rt);
    // the listings of the events not chosen were released
    assert!(rt.take_notifications().is_empty());
}

#[test]
fn select_match_prefers_declared_order() {
    let mut rt = Runtime::new(0);
    let a = Context::new_global(&mut rt);
    let b = Context::new_global(&mut rt);
    a.cancel(&mut rt);
    b.cancel(&mut rt);
    let events = vec![b.done(&mut rt, Task(1)), a.done(&mut rt, Task(1))];
    assert_eq!(select_match(events, &mut rt).ok().map(|(k, _)| k), Some(0));
}

#[test]
fn select_match_with_nothing_ready_gives_events_back() {
    let mut rt = Runtime::new(0);
    let a = Context::new_global(&mut rt);
    let b = a.fork_with_deadline(&mut rt, 40);
    let events = vec![a.done(&mut rt, Task(1)), b.done(&mut rt, Task(2))];
    assert_eq!(select_sleep(&events, &rt), GenericSleep::NotifyTake(Some(40)));
    let events = match select_match(events, &mut rt) {
        Ok(_) => panic!("nothing was ready"),
        Err(rest) => rest,
    };
    assert_eq!(events.len(), 2);
    rt.set_time(40);
    assert_eq!(select_match(events, &mut rt).ok().map(|(k, _)| k), Some(1));
}

#[test]
fn map_and_either() {
    let mut rt = Runtime::new(0);
    let a = Context::new_global(&mut rt);
    let b = Context::new_global(&mut rt);
    let ea = select_map(a.done(&mut rt, Task(1)), |_| 1u32);
    let eb = select_map(b.done(&mut rt, Task(1)), |_| 2u32);
    let both = select_either(ea, eb);
    let both = match both.poll(&mut rt) {
        Ok(_) => panic!("nothing was ready"),
        Err(e) => e,
    };
    b.cancel(&mut rt);
    assert_eq!(both.poll(&mut rt).ok(), Some(2));
}

#[test]
fn either_sleep_combines() {
    let mut rt = Runtime::new(0);
    let mut l = Loop::new(25, 0);
    let a = Context::new_global(&mut rt);
    let e = select_either(l.next(), a.done(&mut rt, Task(1)));
    assert_eq!(e.sleep(&rt), GenericSleep::NotifyTake(Some(25)));
    e.release(&mut rt);
}

#[test]
fn loop_ticks_once_per_period() {
    let mut rt = Runtime::new(0);
    let mut l = Loop::new(10, 0);
    assert_eq!(l.next().sleep(&rt), GenericSleep::Timestamp(10));
    assert!(l.next().poll(&mut rt).is_err());
    rt.set_time(25);
    assert!(l.next().poll(&mut rt).is_ok());
    assert!(l.next().poll(&mut rt).is_ok());
    assert!(l.next().poll(&mut rt).is_err());
    assert_eq!(l.next().sleep(&rt), GenericSleep::Timestamp(30));
    assert_eq!(l.delay(25), SleepAction::Delay { millis: 5 });
    assert_eq!(l.next().sleep(&rt), GenericSleep::Timestamp(40));
}

#[test]
fn loop_tick_moves_by_one_period() {
    let mut l = Loop::new(10, 5);
    assert!(!l.tick(14));
    assert!(l.tick(15));
    assert!(!l.tick(24));
    assert!(l.tick(40));
    assert!(l.tick(40));
    assert!(!l.tick(40));
}

#[test]
fn either_prefers_first_when_both_ready() {
    let mut rt = Runtime::new(0);
    let a = Context::new_global(&mut rt);
    let b = Context::new_global(&mut rt);
    a.cancel(&mut rt);
    b.cancel(&mut rt);
    let ea = select_map(a.done(&mut rt, Task(1)), |_| "first");
    let eb = select_map(b.done(&mut rt, Task(1)), |_| "second");
    assert_eq!(select_either(ea, eb).poll(&mut rt).ok(), Some("first"));
}

#[test]
fn either_chain_runs_only_the_ready_arm() {
    let mut rt = Runtime::new(0);
    let a = Context::new_global(&mut rt);
    let b = Context::new_global(&mut rt);
    let c = Context::new_global(&mut rt);
    b.cancel(&mut rt);
    let mut ran = Vec::new();
    {
        let ea = select_map(a.done(&mut rt, Task(1)), |_| 1u32);
        let eb = select_map(b.done(&mut rt, Task(1)), |_| 2u32);
        let ec = select_map(c.done(&mut rt, Task(1)), |_| 3u32);
        if let Ok(k) = select_either(ea, select_either(eb, ec)).poll(&mut rt) {
            ran.push(k);
        }
    }
    assert_eq!(ran, vec![2]);
    assert!(rt.take_notifications().is_empty());
}

#[test]
fn firing_tick_moves_the_loop_on() {
    let mut rt = Runtime::new(35);
    let mut l = Loop::new(10, 0);
    assert!(l.next().poll(&mut rt).is_ok());
    assert_eq!(l.next().sleep(&rt), GenericSleep::Timestamp(20));
}

#[test]
fn releasing_combined_event_takes_both_listings_off() {
    let mut rt = Runtime::new(0);
    let a = Context::new_global(&mut rt);
    let b = Context::new_global(&mut rt);
    let ea = select_map(a.done(&mut rt, Task(1)), |_| 1u32);
    let eb = select_map(b.done(&mut rt, Task(2)), |_| 2u32);
    select_either(ea, eb).release(&mut rt);
    a.cancel(&mut rt);
    b.cancel(&mut rt);
    assert!(rt.take_notifications().is_empty());
}
