use vex_rt::{handle_event, insert, Context, GenericSleep, Runtime, Selectable, Task};

fn is_done(ctx: &Context, rt: &mut Runtime) -> bool {
    match ctx.done(rt, Task(999)).poll(rt) {
        Ok(()) => true,
        Err(d) => {
            d.release(rt);
            false
        }
    }
}

#[test]
fn new_context_is_live() {
    let mut rt = Runtime::new(0);
    let c = Context::new_global(&mut rt);
    assert_eq!(c.id(), 0);
    assert!(rt.is_live(0));
    assert!(!is_done(&c, &mut rt));
    assert_eq!(rt.deadline(0), None);
}

#[test]
fn cancel_makes_done_ready_for_good() {
    let mut rt = Runtime::new(0);
    let c = Context::new_global(&mut rt);
    c.cancel(&mut rt);
    assert!(is_done(&c, &mut rt));
    assert!(is_done(&c, &mut rt));
    c.cancel(&mut rt);
    assert!(is_done(&c, &mut rt));
}

#[test]
fn cancel_notifies_waiting_tasks() {
    let mut rt = Runtime::new(0);
    let c = Context::new_global(&mut rt);
    let d1 = c.done(&mut rt, Task(1));
    let d2 = c.done(&mut rt, Task(2));
    let d3 = c.done(&mut rt, Task(3));
    assert!(rt.take_notifications().is_empty());
    c.cancel(&mut rt);
    assert_eq!(rt.take_notifications(), vec![Task(1), Task(2), Task(3)]);
    assert!(d1.poll(&mut rt).is_ok());
    assert!(d2.poll(&mut rt).is_ok());
    assert!(d3.poll(&mut rt).is_ok());
    assert!(rt.take_notifications().is_empty());
}

#[test]
fn cancel_reaches_child_even_when_parent_released() {
    let mut rt = Runtime::new(0);
    let p = Context::new_global(&mut rt);
    let c = p.fork(&mut rt);
    let w = c.done(&mut rt, Task(5));
    p.cancel(&mut rt);
    p.release(&mut rt);
    assert_eq!(rt.take_notifications(), vec![Task(5)]);
    assert!(w.poll(&mut rt).is_ok());
    assert!(is_done(&c, &mut rt));
}

#[test]
fn dropping_middle_context_cancels_grandchild_only() {
    let mut rt = Runtime::new(0);
    let a = Context::new_global(&mut rt);
    let b = a.fork(&mut rt);
    let c = b.fork(&mut rt);
    b.release(&mut rt);
    assert!(is_done(&c, &mut rt));
    assert!(!is_done(&a, &mut rt));
    assert!(!rt.is_live(1));
    assert!(!rt.is_live(2));
    assert!(rt.is_live(0));
}

#[test]
fn shared_handle_keeps_context_live() {
    let mut rt = Runtime::new(0);
    let a = Context::new_global(&mut rt);
    let a2 = a.share(&mut rt);
    a.release(&mut rt);
    assert!(!is_done(&a2, &mut rt));
    a2.release(&mut rt);
    assert!(!rt.is_live(0));
}

#[test]
fn deadline_is_checked_when_polled() {
    let mut rt = Runtime::new(100);
    let a = Context::new_global(&mut rt);
    let b = a.fork_with_deadline(&mut rt, 150);
    assert_eq!(rt.deadline(b.id()), Some(150));
    let d = b.done(&mut rt, Task(1));
    assert_eq!(d.sleep(&rt), GenericSleep::NotifyTake(Some(150)));
    let d = match d.poll(&mut rt) {
        Ok(()) => panic!("ready before the deadline"),
        Err(d) => d,
    };
    rt.set_time(149);
    let d = match d.poll(&mut rt) {
        Ok(()) => panic!("ready before the deadline"),
        Err(d) => d,
    };
    assert!(rt.is_live(b.id()));
    rt.set_time(150);
    assert!(d.poll(&mut rt).is_ok());
    assert!(!rt.is_live(b.id()));
    assert!(rt.is_live(a.id()));
}

#[test]
fn fork_deadlines_compose() {
    let mut rt = Runtime::new(10);
    let a = Context::new_global(&mut rt);
    let b = a.fork_with_deadline(&mut rt, 100);
    let c = b.fork_with_deadline(&mut rt, 200);
    let d = b.fork_with_deadline(&mut rt, 50);
    let e = b.fork(&mut rt);
    let f = a.fork_with_timeout(&mut rt, 30);
    assert_eq!(rt.deadline(c.id()), Some(100));
    assert_eq!(rt.deadline(d.id()), Some(50));
    assert_eq!(rt.deadline(e.id()), Some(100));
    assert_eq!(rt.deadline(f.id()), Some(40));
}

#[test]
fn fork_of_cancelled_context_is_live_and_unparented() {
    let mut rt = Runtime::new(0);
    let a = Context::new_global(&mut rt);
    a.cancel(&mut rt);
    let b = a.fork(&mut rt);
    assert!(!is_done(&b, &mut rt));
    a.cancel(&mut rt);
    assert!(!is_done(&b, &mut rt));
    b.cancel(&mut rt);
    assert!(is_done(&b, &mut rt));
}

#[test]
fn released_listing_leaves_waiters_unchanged() {
    let mut rt = Runtime::new(0);
    let a = Context::new_global(&mut rt);
    let keep = a.done(&mut rt, Task(1));
    let h = handle_event(&mut rt, &a, Task(2));
    h.release(&mut rt);
    a.cancel(&mut rt);
    assert_eq!(rt.take_notifications(), vec![Task(1)]);
    keep.release(&mut rt);
}

#[test]
fn insert_only_into_live_context() {
    let mut rt = Runtime::new(0);
    let a = Context::new_global(&mut rt);
    let h = insert(&mut rt, a.id(), 8);
    assert!(h.is_some());
    let h = h.unwrap();
    assert_eq!(h.member(), 8);
    assert_eq!(h.owner_id(), 0);
    h.release(&mut rt);
    a.cancel(&mut rt);
    assert!(rt.take_notifications().is_empty());
    assert!(insert(&mut rt, a.id(), 8).is_none());
}

#[test]
fn notifications_come_in_increasing_task_order() {
    let mut rt = Runtime::new(0);
    let c = Context::new_global(&mut rt);
    let d9 = c.done(&mut rt, Task(9));
    let d2 = c.done(&mut rt, Task(2));
    let d5 = c.done(&mut rt, Task(5));
    c.cancel(&mut rt);
    assert_eq!(rt.take_notifications(), vec![Task(2), Task(5), Task(9)]);
    d9.release(&mut rt);
    d2.release(&mut rt);
    d5.release(&mut rt);
}

#[test]
fn cancelling_cancelled_context_notifies_nobody() {
    let mut rt = Runtime::new(0);
    let c = Context::new_global(&mut rt);
    let d = c.done(&mut rt, Task(1));
    c.cancel(&mut rt);
    assert_eq!(rt.take_notifications(), vec![Task(1)]);
    c.cancel(&mut rt);
    assert!(rt.take_notifications().is_empty());
    d.release(&mut rt);
}
