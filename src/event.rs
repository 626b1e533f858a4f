//! Broadcast wakeups: the set of tasks waiting for something to happen.
use vstd::prelude::*;

use crate::context::{Context, Runtime, RuntimeView};
use crate::shared_set::{insert, insert_sorted, SharedSet, SharedSetHandle};
use crate::task::Task;

verus! {

/// The tasks that `handles` stand for, in the same order.
pub open spec fn tasks_of(handles: Seq<u64>) -> Seq<Task> {
    handles.map_values(|h: u64| Task(h))
}

/// A self-maintaining set of tasks to notify when an event occurs.
pub struct Event {
    pub(crate) waiters: SharedSet,
}

impl View for Event {
    /// The handles of the waiting tasks, in increasing order.
    type V = Seq<u64>;

    closed spec fn view(&self) -> Seq<u64> {
        self.waiters.order()
    }
}

impl Event {
    /// The waiting set holds no task twice.
    pub closed spec fn wf(&self) -> bool {
        self.waiters.wf()
    }

    /// Lists task `t` as waiting, in its place in the order.
    pub(crate) fn join(&mut self, t: u64)
        requires
            old(self).wf(),
        ensures
            final(self).wf(),
            final(self)@ == insert_sorted(old(self)@, t),
    {
        proof {
            self.waiters.lemma_order();
        }
        self.waiters.insert(t);
    }

    /// Takes task `t` off the waiting tasks.
    pub(crate) fn leave(&mut self, t: u64)
        requires
            old(self).wf(),
        ensures
            final(self).wf(),
            final(self)@ == if old(self)@.contains(t) {
                old(self)@.remove(old(self)@.index_of(t))
            } else {
                old(self)@
            },
    {
        proof {
            self.waiters.lemma_order();
        }
        self.waiters.remove(t);
    }

    /// An event with no waiting task.
    pub fn new() -> (r: Event)
        ensures
            r.wf(),
            r@ == Seq::<u64>::empty(),
    {
        Event { waiters: SharedSet::new() }
    }

    /// The tasks to notify now that the event has occurred: every waiting
    /// task, once each, in increasing order of handle. The set itself is left as it is; entries leave it
    /// only through their handles.
    pub fn notify(&self) -> (r: Vec<Task>)
        requires
            self.wf(),
        ensures
            r@ == tasks_of(self@),
            forall|i: int, j: int| 0 <= i < j < r@.len() ==> r@[i].0 < r@[j].0,
            r@.no_duplicates(),
    {
        proof {
            self.waiters.lemma_order();
        }
        let members = self.waiters.iter();
        let mut r: Vec<Task> = Vec::new();
        let mut i: usize = 0;
        while i < members.len()
            invariant
                members@ == self@,
                0 <= i <= members@.len(),
                r@ == tasks_of(members@.subrange(0, i as int)),
            decreases members@.len() - i,
        {
            r.push(Task(members[i]));
            i = i + 1;
            assert(tasks_of(members@.subrange(0, i as int)) =~= tasks_of(
                members@.subrange(0, i - 1),
            ).push(Task(members@[i - 1])));
        }
        assert(members@.subrange(0, i as int) =~= members@);
        assert(forall|a: int| 0 <= a < r@.len() ==> r@[a].0 == members@[a]);
        r
    }
}

/// The listing of one task in the event of a context. Releasing it takes the
/// task out of the event's set; if the context has been cancelled meanwhile,
/// there is nothing left to take it out of, and releasing does nothing.
pub struct EventHandle {
    entry: Option<SharedSetHandle>,
}

impl EventHandle {
    /// The listing, if any, is among the waiting tasks of a context.
    #[verifier::type_invariant]
    spec fn inv(&self) -> bool {
        self.entry is Some ==> self.entry->0.owner() is Waiters
    }

    /// The context and task the handle lists, if the listing was made.
    pub closed spec fn entry(&self) -> Option<(int, u64)> {
        match self.entry {
            Some(h) => Some((h.owner().node(), h.value())),
            None => None,
        }
    }

    /// Takes the task out of the event's set, if the context is still live.
    pub fn release(self, rt: &mut Runtime)
        requires
            old(rt).wf(),
        ensures
            final(rt).wf(),
            final(rt)@ == match self.entry() {
                Some((i, t)) => old(rt)@.without_waiter(i, t),
                None => old(rt)@,
            },
    {
        proof {
            use_type_invariant(&self);
        }
        match self.entry {
            Some(h) => h.release(rt),
            None => {},
        }
    }
}

/// Lists `task` among the tasks waiting for `ctx` to be cancelled. The listing
/// is made only while the context is live; either way the handle can be
/// released later.
pub fn handle_event(rt: &mut Runtime, ctx: &Context, task: Task) -> (r: EventHandle)
    requires
        old(rt).wf(),
    ensures
        final(rt).wf(),
        final(rt)@ == old(rt)@.with_waiter(ctx@ as int, task.0),
        r.entry() == if old(rt)@.live(ctx@ as int) {
            Some((ctx@ as int, task.0))
        } else {
            None
        },
{
    EventHandle { entry: insert(rt, ctx.id(), task.0) }
}

} // verus!
