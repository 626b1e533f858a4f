//! Future events and waiting on several of them at once.
//!
//! A select polls its events in the order given, stops at the first that
//! completes, and otherwise sleeps until the earliest instant at which any of
//! them could complete, then polls again. The sleeping is left to the caller:
//! [`select_sleep`] says until when, [`select_match`] does one round of
//! polling.
use vstd::prelude::*;

use std::marker::PhantomData;

use crate::context::{Runtime, RuntimeView};
use crate::sleep::GenericSleep;

verus! {

/// A future event that can be waited on with a select.
pub trait Selectable<T = ()>: Sized {
    /// Polling now, against the runtime `rt`, completes the event.
    spec fn ready(&self, rt: RuntimeView) -> bool;

    /// Polling now, against the runtime `rt`, may complete the event with
    /// the result `t`.
    spec fn produces(&self, rt: RuntimeView, t: T) -> bool;

    /// The runtime after a poll against `rt` that completes the event.
    spec fn completed(&self, rt: RuntimeView) -> RuntimeView;

    /// The runtime after the event is given up against `rt`.
    spec fn released(&self, rt: RuntimeView) -> RuntimeView;

    /// The earliest instant at which the event could be ready.
    spec fn spec_sleep(&self, rt: RuntimeView) -> GenericSleep;

    /// Processes the event if it is ready, consuming it; otherwise hands the
    /// event back, unchanged, to poll later. Polling an event that is not
    /// ready leaves the runtime as it was.
    fn poll(self, rt: &mut Runtime) -> (r: Result<T, Self>)
        requires
            old(rt).wf(),
        ensures
            final(rt).wf(),
            r is Ok <==> self.ready(old(rt)@),
            r is Ok ==> self.produces(old(rt)@, r->Ok_0),
            r is Ok ==> final(rt)@ == self.completed(old(rt)@),
            r is Err ==> final(rt)@ == old(rt)@ && r->Err_0 == self,
    ;

    /// The earliest instant at which the event could be ready.
    fn sleep(&self, rt: &Runtime) -> (r: GenericSleep)
        ensures
            r == self.spec_sleep(rt@),
    ;

    /// Gives up waiting on the event, releasing whatever registration it
    /// holds.
    fn release(self, rt: &mut Runtime)
        requires
            old(rt).wf(),
        ensures
            final(rt).wf(),
            final(rt)@ == self.released(old(rt)@),
    ;
}

/// An event whose result is mapped through a function.
#[verifier::reject_recursive_types(T)]
#[verifier::reject_recursive_types(U)]
pub struct MapSelect<T, U, E, F: FnOnce(T) -> U> {
    event: E,
    f: F,
    _t: PhantomData<(T, U)>,
}

impl<T, U, E, F: FnOnce(T) -> U> MapSelect<T, U, E, F> {
    /// The function accepts every result of the event.
    #[verifier::type_invariant]
    spec fn inv(&self) -> bool {
        forall|t: T| call_requires(self.f, (t,))
    }

    /// The event being mapped.
    pub closed spec fn inner(&self) -> E {
        self.event
    }
}

impl<T, U, E: Selectable<T>, F: FnOnce(T) -> U> Selectable<U> for MapSelect<T, U, E, F> {
    closed spec fn ready(&self, rt: RuntimeView) -> bool {
        self.event.ready(rt)
    }

    closed spec fn produces(&self, rt: RuntimeView, u: U) -> bool {
        exists|t: T| self.event.produces(rt, t) && call_ensures(self.f, (t,), u)
    }

    closed spec fn completed(&self, rt: RuntimeView) -> RuntimeView {
        self.event.completed(rt)
    }

    closed spec fn released(&self, rt: RuntimeView) -> RuntimeView {
        self.event.released(rt)
    }

    closed spec fn spec_sleep(&self, rt: RuntimeView) -> GenericSleep {
        self.event.spec_sleep(rt)
    }

    fn poll(self, rt: &mut Runtime) -> (r: Result<U, Self>) {
        proof {
            use_type_invariant(&self);
        }
        let MapSelect { event, f, _t } = self;
        let ghost rt0 = rt@;
        match event.poll(rt) {
            Ok(t) => {
                let u = f(t);
                assert(self.event.produces(rt0, t) && call_ensures(self.f, (t,), u));
                Ok(u)
            },
            Err(event) => Err(MapSelect { event, f, _t }),
        }
    }

    fn sleep(&self, rt: &Runtime) -> (r: GenericSleep) {
        self.event.sleep(rt)
    }

    fn release(self, rt: &mut Runtime) {
        self.event.release(rt)
    }
}

/// An event that completes with `f` applied to the result of `event`.
pub fn select_map<T, U, E: Selectable<T>, F: FnOnce(T) -> U>(event: E, f: F) -> (r: MapSelect<
    T,
    U,
    E,
    F,
>)
    requires
        forall|t: T| call_requires(f, (t,)),
    ensures
        r.inner() == event,
        forall|rt: RuntimeView| r.ready(rt) == event.ready(rt),
        forall|rt: RuntimeView, u: U|
            r.produces(rt, u) == exists|t: T| event.produces(rt, t) && call_ensures(f, (t,), u),
        forall|rt: RuntimeView| r.completed(rt) == event.completed(rt),
        forall|rt: RuntimeView| r.released(rt) == event.released(rt),
        forall|rt: RuntimeView| r.spec_sleep(rt) == event.spec_sleep(rt),
{
    MapSelect { event, f, _t: PhantomData }
}

/// An event that completes with whichever of two events completes first; the
/// first one wins a tie, and the second is then not polled.
pub struct EitherSelect<T, E1, E2> {
    fst: E1,
    snd: E2,
    _t: PhantomData<T>,
}

impl<T, E1: Selectable<T>, E2: Selectable<T>> Selectable<T> for EitherSelect<T, E1, E2> {
    closed spec fn ready(&self, rt: RuntimeView) -> bool {
        self.fst.ready(rt) || self.snd.ready(rt)
    }

    closed spec fn produces(&self, rt: RuntimeView, t: T) -> bool {
        if self.fst.ready(rt) {
            self.fst.produces(rt, t)
        } else {
            self.snd.produces(rt, t)
        }
    }

    closed spec fn completed(&self, rt: RuntimeView) -> RuntimeView {
        if self.fst.ready(rt) {
            self.snd.released(self.fst.completed(rt))
        } else {
            self.fst.released(self.snd.completed(rt))
        }
    }

    closed spec fn released(&self, rt: RuntimeView) -> RuntimeView {
        self.snd.released(self.fst.released(rt))
    }

    closed spec fn spec_sleep(&self, rt: RuntimeView) -> GenericSleep {
        self.fst.spec_sleep(rt).spec_combine(self.snd.spec_sleep(rt))
    }

    fn poll(self, rt: &mut Runtime) -> (r: Result<T, Self>) {
        let EitherSelect { fst, snd, _t } = self;
        match fst.poll(rt) {
            Ok(r) => {
                snd.release(rt);
                Ok(r)
            },
            Err(fst) => match snd.poll(rt) {
                Ok(r) => {
                    fst.release(rt);
                    Ok(r)
                },
                Err(snd) => Err(EitherSelect { fst, snd, _t }),
            },
        }
    }

    fn sleep(&self, rt: &Runtime) -> (r: GenericSleep) {
        let a = self.fst.sleep(rt);
        let b = self.snd.sleep(rt);
        a.combine(b)
    }

    fn release(self, rt: &mut Runtime) {
        let EitherSelect { fst, snd, _t } = self;
        fst.release(rt);
        snd.release(rt);
    }
}

/// An event that completes with exactly one of `fst` and `snd`: the first
/// that is ready, `fst` when both are.
pub fn select_either<T, E1: Selectable<T>, E2: Selectable<T>>(fst: E1, snd: E2) -> (r:
    EitherSelect<T, E1, E2>)
    ensures
        forall|rt: RuntimeView| r.ready(rt) == (fst.ready(rt) || snd.ready(rt)),
        forall|rt: RuntimeView, t: T|
            r.produces(rt, t) == if fst.ready(rt) {
                fst.produces(rt, t)
            } else {
                snd.produces(rt, t)
            },
        forall|rt: RuntimeView|
            r.completed(rt) == if fst.ready(rt) {
                snd.released(fst.completed(rt))
            } else {
                fst.released(snd.completed(rt))
            },
        forall|rt: RuntimeView| r.released(rt) == snd.released(fst.released(rt)),
        forall|rt: RuntimeView|
            r.spec_sleep(rt) == fst.spec_sleep(rt).spec_combine(snd.spec_sleep(rt)),
{
    EitherSelect { fst, snd, _t: PhantomData }
}

} // verus!

verus! {

/// The index of the first event at or after `from` that is ready against
/// `rt`, if there is one.
pub open spec fn first_ready<T, E: Selectable<T>>(events: Seq<E>, rt: RuntimeView, from: int) -> Option<
    int,
>
    decreases events.len() - from,
{
    if from < 0 || from >= events.len() {
        None
    } else if events[from].ready(rt) {
        Some(from)
    } else {
        first_ready(events, rt, from + 1)
    }
}

/// The combined sleep of the first `n` events: the earliest instant at which
/// any of them could be ready.
pub open spec fn combined_sleep<T, E: Selectable<T>>(events: Seq<E>, rt: RuntimeView, n: int) -> GenericSleep
    decreases n,
{
    if n <= 1 {
        events[0].spec_sleep(rt)
    } else {
        combined_sleep(events, rt, n - 1).spec_combine(events[n - 1].spec_sleep(rt))
    }
}

/// The instant to sleep until before the next round of polling: the
/// combination of every event's sleep.
pub fn select_sleep<T, E: Selectable<T>>(events: &Vec<E>, rt: &Runtime) -> (r: GenericSleep)
    requires
        events@.len() > 0,
    ensures
        r == combined_sleep(events@, rt@, events@.len() as int),
{
    let mut acc = events[0].sleep(rt);
    let mut i: usize = 1;
    while i < events.len()
        invariant
            1 <= i <= events@.len(),
            acc == combined_sleep(events@, rt@, i as int),
        decreases events@.len() - i,
    {
        let s = events[i].sleep(rt);
        acc = acc.combine(s);
        i = i + 1;
    }
    acc
}

/// The runtime after the events are given up against `rt`, the last one
/// first.
pub open spec fn released_all<T, E: Selectable<T>>(events: Seq<E>, rt: RuntimeView) -> RuntimeView
    decreases events.len(),
{
    if events.len() == 0 {
        rt
    } else {
        released_all(events.drop_last(), events.last().released(rt))
    }
}

/// Gives up every event of `events`, the last one first.
fn release_all<T, E: Selectable<T>>(events: Vec<E>, rt: &mut Runtime)
    requires
        old(rt).wf(),
    ensures
        final(rt).wf(),
        final(rt)@ == released_all(events@, old(rt)@),
{
    let ghost goal = released_all(events@, rt@);
    let mut events = events;
    while events.len() > 0
        invariant
            rt.wf(),
            released_all(events@, rt@) == goal,
        decreases events@.len(),
    {
        let e = events.pop().unwrap();
        e.release(rt);
    }
}

/// One round of polling: polls the events in order and stops at the first
/// that completes, returning its index and result; the events not chosen are
/// released. When none completes, the runtime is left as it was and the
/// events come back, in order, to poll again.
pub fn select_match<T, E: Selectable<T>>(events: Vec<E>, rt: &mut Runtime) -> (r: Result<
    (usize, T),
    Vec<E>,
>)
    requires
        old(rt).wf(),
    ensures
        final(rt).wf(),
        match r {
            Ok((k, t)) => {
                &&& first_ready(events@, old(rt)@, 0) == Some(k as int)
                &&& events@[k as int].produces(old(rt)@, t)
                &&& final(rt)@ == released_all(
                    events@.subrange(k + 1, events@.len() as int),
                    released_all(
                        events@.subrange(0, k as int),
                        events@[k as int].completed(old(rt)@),
                    ),
                )
            },
            Err(rest) => {
                &&& first_ready(events@, old(rt)@, 0) is None
                &&& rest@ == events@
                &&& final(rt)@ == old(rt)@
            },
        },
{
    let ghost v0 = rt@;
    let ghost orig = events@;
    let n = events.len();
    let mut rest = events;
    let mut polled: Vec<E> = Vec::new();
    let mut i: usize = 0;
    while i < n
        invariant
            n == orig.len(),
            0 <= i <= n,
            rest@ == orig.subrange(i as int, n as int),
            polled@ == orig.subrange(0, i as int),
            rt.wf(),
            rt@ == v0,
            v0 == old(rt)@,
            orig == events@,
            first_ready(orig, v0, 0) == first_ready(orig, v0, i as int),
        decreases n - i,
    {
        let e = rest.remove(0);
        assert(e == orig[i as int]);
        assert(rest@ =~= orig.subrange(i + 1, n as int));
        match e.poll(rt) {
            Ok(t) => {
                assert(first_ready(orig, v0, i as int) == Some(i as int));
                let ghost v1 = rt@;
                assert(v1 == orig[i as int].completed(v0));
                release_all(polled, rt);
                let ghost v2 = rt@;
                assert(v2 == released_all(orig.subrange(0, i as int), v1));
                release_all(rest, rt);
                return Ok((i, t));
            },
            Err(e) => {
                polled.push(e);
            },
        }
        i = i + 1;
        assert(rest@ =~= orig.subrange(i as int, n as int));
        assert(polled@ =~= orig.subrange(0, i as int));
    }
    assert(polled@ =~= orig);
    Err(polled)
}

} // verus!

verus! {

/// When exactly one event is ready, a round of polling chooses that one.
pub proof fn lemma_single_ready<T, E: Selectable<T>>(events: Seq<E>, rt: RuntimeView, k: int)
    requires
        0 <= k < events.len(),
        events[k].ready(rt),
        forall|j: int| 0 <= j < events.len() && j != k ==> !#[trigger] events[j].ready(rt),
    ensures
        first_ready(events, rt, 0) == Some(k),
{
    lemma_first_ready_from(events, rt, k, 0);
}

proof fn lemma_first_ready_from<T, E: Selectable<T>>(
    events: Seq<E>,
    rt: RuntimeView,
    k: int,
    from: int,
)
    requires
        0 <= from <= k < events.len(),
        events[k].ready(rt),
        forall|j: int| 0 <= j < events.len() && j != k ==> !#[trigger] events[j].ready(rt),
    ensures
        first_ready(events, rt, from) == Some(k),
    decreases k - from,
{
    if from < k {
        lemma_first_ready_from(events, rt, k, from + 1);
    }
}

} // verus!
