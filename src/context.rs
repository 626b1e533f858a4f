//! The cancellable operation tree.
//!
//! A [`Runtime`] holds every context ever created, indexed by id. A context is
//! live until it is cancelled: explicitly, when its last handle is released,
//! when its deadline is observed to have passed, or when its parent is
//! cancelled. A live context holds the tasks waiting for its cancellation and
//! its live children; cancelling it queues a notification for each waiting
//! task and cancels its children in turn.
use vstd::prelude::*;

use crate::event::{handle_event, tasks_of, Event, EventHandle};
use crate::select::Selectable;
use crate::sleep::GenericSleep;
use crate::shared_set::{
    increasing, insert_sorted, lemma_insert_sorted, slot_of, lemma_remove_sorted, Owner, SharedSet,
    SharedSetHandle,
};
use crate::sleep::earliest;
use crate::task::Task;

verus! {

/// What one context is, mathematically.
pub struct ContextView {
    /// Not yet cancelled.
    pub live: bool,
    /// The instant at which the context counts as cancelled, if any.
    pub deadline: Option<u64>,
    /// How many [`Context`] handles refer to it.
    pub refs: nat,
    /// The parent in whose children the context is listed (live contexts
    /// only).
    pub parent: Option<int>,
    /// The handles of the tasks waiting for its cancellation, in increasing
    /// order (live contexts only).
    pub waiters: Seq<u64>,
    /// The ids of its live children (live contexts only).
    pub children: Set<u64>,
}

impl ContextView {
    /// A new live context with one handle.
    pub open spec fn fresh(deadline: Option<u64>, parent: Option<int>) -> ContextView {
        ContextView {
            live: true,
            deadline,
            refs: 1,
            parent,
            waiters: Seq::empty(),
            children: Set::empty(),
        }
    }

    /// The context once cancelled: its interior state is gone.
    pub open spec fn dropped(self) -> ContextView {
        ContextView {
            live: false,
            deadline: self.deadline,
            refs: self.refs,
            parent: None,
            waiters: Seq::empty(),
            children: Set::empty(),
        }
    }

    /// The context with `c` no longer among its children.
    pub open spec fn without_child(self, c: u64) -> ContextView {
        ContextView { children: self.children.remove(c), ..self }
    }
}

/// What the whole runtime is, mathematically.
pub struct RuntimeView {
    /// The clock, in milliseconds since system start.
    pub now: u64,
    /// Every context ever created, by id.
    pub contexts: Seq<ContextView>,
    /// Notifications to deliver, in order.
    pub outbox: Seq<Task>,
}

impl RuntimeView {
    /// Context `i` exists and is live.
    pub open spec fn live(self, i: int) -> bool {
        0 <= i < self.contexts.len() && self.contexts[i].live
    }

    /// The links between contexts agree: a live context's parent is live, has
    /// a smaller id and lists it as a child; a listed child is live and names
    /// its parent; a cancelled context holds nothing.
    pub open spec fn tree_wf(self) -> bool {
        &&& self.contexts.len() <= usize::MAX
        &&& forall|i: int|
            #![trigger self.contexts[i]]
            self.live(i) ==> self.contexts[i].refs > 0 && increasing(self.contexts[i].waiters)
        &&& forall|i: int|
            #![trigger self.contexts[i]]
            self.live(i) && self.contexts[i].parent is Some ==> {
                let p = self.contexts[i].parent->0;
                &&& 0 <= p < i
                &&& self.live(p)
                &&& self.contexts[p].children.contains(i as u64)
            }
        &&& forall|p: int, c: u64|
            #![trigger self.contexts[p].children.contains(c)]
            self.live(p) && self.contexts[p].children.contains(c) ==> {
                &&& p < c < self.contexts.len()
                &&& self.live(c as int)
                &&& self.contexts[c as int].parent == Some(p)
            }
        &&& forall|i: int|
            #![trigger self.contexts[i]]
            0 <= i < self.contexts.len() && !self.contexts[i].live ==> self.contexts[i]
                == self.contexts[i].dropped()
    }

    /// Context `i` is `root` or a live descendant of it.
    pub open spec fn in_subtree(self, root: int, i: int) -> bool
        decreases i,
    {
        if i == root {
            true
        } else if 0 <= i < self.contexts.len() && self.contexts[i].live
            && self.contexts[i].parent is Some {
            let p = self.contexts[i].parent->0;
            if 0 <= p < i {
                self.in_subtree(root, p)
            } else {
                false
            }
        } else {
            false
        }
    }

    /// The notifications that cancelling `root` queues from the contexts with
    /// ids below `hi`: each cancelled context's waiting tasks, by id.
    pub open spec fn notices(self, root: int, hi: int) -> Seq<Task>
        decreases hi,
    {
        if hi <= 0 {
            Seq::empty()
        } else {
            self.notices(root, hi - 1) + if self.live(hi - 1) && self.in_subtree(root, hi - 1) {
                tasks_of(self.contexts[hi - 1].waiters)
            } else {
                Seq::empty()
            }
        }
    }

    /// The runtime after cancelling `root`: it and its live descendants are
    /// dropped, its parent no longer lists it, and their waiting tasks are
    /// queued for notification.
    pub open spec fn after_cancel(self, root: int) -> RuntimeView {
        RuntimeView {
            now: self.now,
            contexts: Seq::new(
                self.contexts.len(),
                |i: int|
                    if self.in_subtree(root, i) {
                        self.contexts[i].dropped()
                    } else {
                        self.contexts[i].without_child(root as u64)
                    },
            ),
            outbox: self.outbox + self.notices(root, self.contexts.len() as int),
        }
    }

    /// The runtime after forking a new context from `p` with `deadline`: the
    /// new context takes the next id, and is listed as a child of `p` if `p`
    /// is live.
    pub open spec fn after_fork(self, p: int, deadline: Option<u64>) -> RuntimeView {
        let id = self.contexts.len();
        if self.live(p) {
            RuntimeView {
                contexts: self.contexts.update(
                    p,
                    ContextView {
                        children: self.contexts[p].children.insert(id as u64),
                        ..self.contexts[p]
                    },
                ).push(ContextView::fresh(deadline, Some(p))),
                ..self
            }
        } else {
            RuntimeView { contexts: self.contexts.push(ContextView::fresh(deadline, None)), ..self }
        }
    }

    /// The runtime with context `i` referred to by `n` handles.
    pub open spec fn set_refs(self, i: int, n: nat) -> RuntimeView {
        RuntimeView {
            contexts: self.contexts.update(i, ContextView { refs: n, ..self.contexts[i] }),
            ..self
        }
    }

    /// The runtime after one handle of context `i` is released: with the last
    /// handle gone, the context is cancelled.
    pub open spec fn after_release(self, i: int) -> RuntimeView {
        let r = self.contexts[i].refs;
        let n: nat = if r > 0 {
            (r - 1) as nat
        } else {
            0
        };
        if n == 0 {
            self.after_cancel(i).set_refs(i, n)
        } else {
            self.set_refs(i, n)
        }
    }

    /// Waiting for the cancellation of context `i` is over: it is cancelled
    /// (or there is no such context), or its deadline has come.
    pub open spec fn done_ready(self, i: int) -> bool {
        !self.live(i) || (self.contexts[i].deadline is Some && self.contexts[i].deadline->0
            <= self.now)
    }

    /// The runtime with task `t` listed as waiting on context `i`, in its
    /// place in the order, if `i` is live.
    pub open spec fn with_waiter(self, i: int, t: u64) -> RuntimeView {
        if self.live(i) && !self.contexts[i].waiters.contains(t) {
            RuntimeView {
                contexts: self.contexts.update(
                    i,
                    ContextView {
                        waiters: insert_sorted(self.contexts[i].waiters, t),
                        ..self.contexts[i]
                    },
                ),
                ..self
            }
        } else {
            self
        }
    }

    /// The runtime with task `t` no longer waiting on context `i`.
    pub open spec fn without_waiter(self, i: int, t: u64) -> RuntimeView {
        if self.live(i) && self.contexts[i].waiters.contains(t) {
            let w = self.contexts[i].waiters;
            RuntimeView {
                contexts: self.contexts.update(
                    i,
                    ContextView { waiters: w.remove(w.index_of(t)), ..self.contexts[i] },
                ),
                ..self
            }
        } else {
            self
        }
    }
}

impl RuntimeView {
    /// The runtime after dropping the interior state of context `j` alone:
    /// its waiting tasks are queued and its parent stops listing it.
    spec fn killed(self, j: int) -> RuntimeView {
        let c1 = self.contexts.update(j, self.contexts[j].dropped());
        let contexts = match self.contexts[j].parent {
            Some(p) => if self.live(p) && p != j {
                c1.update(p, c1[p].without_child(j as u64))
            } else {
                c1
            },
            None => c1,
        };
        RuntimeView {
            now: self.now,
            contexts,
            outbox: self.outbox + tasks_of(self.contexts[j].waiters),
        }
    }
}

/// A member of the subtree of `root` has an id no smaller than `root`.
proof fn lemma_subtree_above(v: RuntimeView, root: int, i: int)
    requires
        v.in_subtree(root, i),
    ensures
        root <= i,
    decreases i,
{
    if i != root {
        let p = v.contexts[i].parent->0;
        lemma_subtree_above(v, root, p);
    }
}

/// Cancelling keeps the tree consistent.
pub proof fn lemma_after_cancel_wf(v: RuntimeView, root: int)
    requires
        v.tree_wf(),
        0 <= root < v.contexts.len(),
    ensures
        v.after_cancel(root).tree_wf(),
{
    let w = v.after_cancel(root);
    assert forall|i: int| #![trigger w.contexts[i]] w.live(i) implies !v.in_subtree(root, i)
        && w.contexts[i] == v.contexts[i].without_child(root as u64) && v.live(i) by {}
    assert forall|i: int|
        #![trigger w.contexts[i]]
        w.live(i) && w.contexts[i].parent is Some implies {
        let p = w.contexts[i].parent->0;
        &&& 0 <= p < i
        &&& w.live(p)
        &&& w.contexts[p].children.contains(i as u64)
    } by {
        let p = v.contexts[i].parent->0;
        assert(v.contexts[i] == v.contexts[i]);
        assert(!v.in_subtree(root, p));
        assert(w.contexts[p] == v.contexts[p].without_child(root as u64));
    }
    assert forall|p: int, c: u64|
        #![trigger w.contexts[p].children.contains(c)]
        w.live(p) && w.contexts[p].children.contains(c) implies {
        &&& p < c < w.contexts.len()
        &&& w.live(c as int)
        &&& w.contexts[c as int].parent == Some(p)
    } by {
        assert(w.contexts[p] == v.contexts[p].without_child(root as u64));
        assert(v.contexts[p].children.contains(c));
        assert(v.contexts[c as int] == v.contexts[c as int]);
        assert(!v.in_subtree(root, c as int));
    }
    assert forall|i: int|
        #![trigger w.contexts[i]]
        0 <= i < w.contexts.len() && !w.contexts[i].live implies w.contexts[i]
        == w.contexts[i].dropped() by {
        if !v.in_subtree(root, i) {
            assert(v.contexts[i] == v.contexts[i].dropped());
            assert(v.contexts[i].children.remove(root as u64) =~= Set::<u64>::empty());
        }
    }
}

/// The interior state of a live context.
struct ContextData {
    /// The listing of this context among its parent's children.
    parent: Option<SharedSetHandle>,
    /// The tasks waiting for the cancellation.
    event: Event,
    /// The live children.
    children: SharedSet,
}

/// One context: its deadline, its handle count, and its interior state while
/// it is live.
struct Node {
    deadline: Option<u64>,
    refs: u64,
    data: Option<ContextData>,
}

impl Node {
    spec fn view(&self) -> ContextView {
        match self.data {
            Some(d) => ContextView {
                live: true,
                deadline: self.deadline,
                refs: self.refs as nat,
                parent: match d.parent {
                    Some(h) => Some(h.owner().node()),
                    None => None,
                },
                waiters: d.event@,
                children: d.children@,
            },
            None => ContextView {
                live: false,
                deadline: self.deadline,
                refs: self.refs as nat,
                parent: None,
                waiters: Seq::empty(),
                children: Set::empty(),
            },
        }
    }

    /// The node stored at index `i`: its sets are well formed and its parent
    /// listing names it under the parent's children.
    spec fn wf(&self, i: int) -> bool {
        match self.data {
            Some(d) => {
                &&& d.event.wf()
                &&& d.children.wf()
                &&& match d.parent {
                    Some(h) => h.owner() is Children && h.value() == i as u64,
                    None => true,
                }
            },
            None => true,
        }
    }
}

/// The state shared by all tasks: the clock, every context, and the
/// notifications waiting to be delivered.
pub struct Runtime {
    now: u64,
    nodes: Vec<Node>,
    outbox: Vec<Task>,
}

impl View for Runtime {
    type V = RuntimeView;

    closed spec fn view(&self) -> RuntimeView {
        RuntimeView {
            now: self.now,
            contexts: self.nodes@.map_values(|n: Node| n.view()),
            outbox: self.outbox@,
        }
    }
}

impl Runtime {
    /// The nodes are well formed and the context tree is consistent.
    pub closed spec fn wf(&self) -> bool {
        &&& forall|i: int| 0 <= i < self.nodes@.len() ==> #[trigger] self.nodes@[i].wf(i)
        &&& self@.tree_wf()
    }

    /// A well-formed runtime's contexts form a consistent tree.
    pub proof fn lemma_wf_tree(&self)
        requires
            self.wf(),
        ensures
            self@.tree_wf(),
    {
    }

    /// A runtime with no context, its clock reading `now`.
    pub fn new(now: u64) -> (r: Runtime)
        ensures
            r.wf(),
            r@ == (RuntimeView { now, contexts: Seq::empty(), outbox: Seq::empty() }),
    {
        let r = Runtime { now, nodes: Vec::new(), outbox: Vec::new() };
        assert(r@.contexts =~= Seq::<ContextView>::empty());
        r
    }

    /// The clock.
    pub fn now(&self) -> (r: u64)
        ensures
            r == self@.now,
    {
        self.now
    }

    /// Sets the clock.
    pub fn set_time(&mut self, now: u64)
        requires
            old(self).wf(),
        ensures
            final(self).wf(),
            final(self)@ == (RuntimeView { now, ..old(self)@ }),
    {
        self.now = now;
    }

    /// Hands out the queued notifications, in order, and empties the queue.
    pub fn take_notifications(&mut self) -> (r: Vec<Task>)
        requires
            old(self).wf(),
        ensures
            final(self).wf(),
            r@ == old(self)@.outbox,
            final(self)@ == (RuntimeView { outbox: Seq::empty(), ..old(self)@ }),
    {
        let mut r: Vec<Task> = Vec::new();
        std::mem::swap(&mut r, &mut self.outbox);
        r
    }

    /// Whether context `i` exists and is live.
    pub fn is_live(&self, i: usize) -> (r: bool)
        ensures
            r == self@.live(i as int),
    {
        i < self.nodes.len() && self.nodes[i].data.is_some()
    }

    /// How many contexts have been created.
    pub fn context_count(&self) -> (r: usize)
        ensures
            r == self@.contexts.len(),
    {
        self.nodes.len()
    }

    /// How many handles refer to context `i`.
    pub fn refs(&self, i: usize) -> (r: u64)
        requires
            i < self@.contexts.len(),
        ensures
            r == self@.contexts[i as int].refs,
    {
        self.nodes[i].refs
    }

    /// The deadline of context `i`.
    pub fn deadline(&self, i: usize) -> (r: Option<u64>)
        requires
            i < self@.contexts.len(),
        ensures
            r == self@.contexts[i as int].deadline,
    {
        self.nodes[i].deadline
    }

    /// Lists task `t` as waiting on context `i`, if it is live; returns
    /// whether it is.
    pub(crate) fn add_waiter(&mut self, i: usize, t: u64) -> (r: bool)
        requires
            old(self).wf(),
        ensures
            final(self).wf(),
            final(self)@ == old(self)@.with_waiter(i as int, t),
            r == old(self)@.live(i as int),
    {
        if !self.is_live(i) {
            return false;
        }
        let ghost v0 = self@;
        proof {
            assert(self.nodes@[i as int].wf(i as int));
        }
        match &mut self.nodes[i].data {
            Some(d) => {
                d.event.join(t);
            },
            None => {},
        }
        proof {
            assert(self@.contexts =~= v0.with_waiter(i as int, t).contexts);
            assert(self.nodes@[i as int].wf(i as int));
            assert forall|k: int| 0 <= k < self.nodes@.len() implies #[trigger] self.nodes@[k].wf(
                k,
            ) by {
                assert(k != i ==> self.nodes@[k] == old(self).nodes@[k]);
            }
            lemma_with_waiter_wf(v0, i as int, t);
        }
        true
    }

    /// Takes task `t` off the tasks waiting on context `i`, if it is live.
    pub(crate) fn remove_waiter(&mut self, i: usize, t: u64)
        requires
            old(self).wf(),
        ensures
            final(self).wf(),
            final(self)@ == old(self)@.without_waiter(i as int, t),
    {
        if !self.is_live(i) {
            return;
        }
        let ghost v0 = self@;
        proof {
            assert(self.nodes@[i as int].wf(i as int));
        }
        match &mut self.nodes[i].data {
            Some(d) => {
                d.event.leave(t);
            },
            None => {},
        }
        proof {
            assert(self@.contexts =~= v0.without_waiter(i as int, t).contexts);
            assert(self.nodes@[i as int].wf(i as int));
            assert forall|k: int| 0 <= k < self.nodes@.len() implies #[trigger] self.nodes@[k].wf(
                k,
            ) by {
                assert(k != i ==> self.nodes@[k] == old(self).nodes@[k]);
            }
            lemma_without_waiter_wf(v0, i as int, t);
        }
    }
}

impl Runtime {
    /// Every node is well formed where it stands.
    spec fn nodes_wf(&self) -> bool {
        forall|i: int| 0 <= i < self.nodes@.len() ==> #[trigger] self.nodes@[i].wf(i)
    }

    /// Drops the interior state of the live context `j`: queues a
    /// notification for each of its waiting tasks and takes it off its
    /// parent's children.
    fn kill(&mut self, j: usize)
        requires
            old(self).nodes_wf(),
            old(self)@.live(j as int),
        ensures
            final(self).nodes_wf(),
            final(self).nodes@.len() == old(self).nodes@.len(),
            final(self)@ == old(self)@.killed(j as int),
    {
        let ghost v0 = self@;
        proof {
            assert(self.nodes@[j as int].wf(j as int));
        }
        let data = self.nodes[j].data.take();
        let ghost v1 = self@;
        proof {
            assert(v1.contexts =~= v0.contexts.update(j as int, v0.contexts[j as int].dropped()));
            assert forall|k: int| 0 <= k < self.nodes@.len() implies #[trigger] self.nodes@[k].wf(
                k,
            ) by {
                assert(k != j ==> self.nodes@[k] == old(self).nodes@[k]);
            }
        }
        match data {
            Some(d) => {
                let mut notes = d.event.notify();
                self.outbox.append(&mut notes);
                match d.parent {
                    Some(h) => {
                        let p = h.owner_id();
                        if p != j && self.is_live(p) {
                            let ghost v2 = self@;
                            let ghost n2 = self.nodes@;
                            proof {
                                assert(self.nodes@[p as int].wf(p as int));
                            }
                            match &mut self.nodes[p].data {
                                Some(pd) => {
                                    pd.children.remove(h.member());
                                },
                                None => {},
                            }
                            proof {
                                assert(self@.contexts =~= v2.contexts.update(
                                    p as int,
                                    v2.contexts[p as int].without_child(j as u64),
                                ));
                                assert forall|k: int| 0 <= k < self.nodes@.len() implies #[trigger] self.nodes@[k].wf(k) by {
                                    assert(k != p ==> self.nodes@[k] == n2[k]);
                                }
                            }
                        }
                    },
                    None => {},
                }
            },
            None => {},
        }
        proof {
            assert(self@.contexts =~= v0.killed(j as int).contexts);
        }
    }
}

impl Runtime {
    /// Cancels context `root` and its live descendants. Children have larger
    /// ids than their parents, so one pass upwards from `root` meets each
    /// descendant after its parent has been cancelled.
    fn cancel_subtree(&mut self, root: usize)
        requires
            old(self).wf(),
            root < old(self)@.contexts.len(),
        ensures
            final(self).wf(),
            final(self)@ == old(self)@.after_cancel(root as int),
    {
        let ghost v0 = self@;
        let ghost r = root as int;
        let n = self.nodes.len();
        let mut j: usize = 0;
        while j < n
            invariant
                n == self.nodes@.len() == v0.contexts.len(),
                root < n,
                r == root as int,
                v0.tree_wf(),
                self.nodes_wf(),
                0 <= j <= n,
                self@.now == v0.now,
                self@.contexts.len() == n,
                self@.outbox == v0.outbox + v0.notices(r, j as int),
                forall|i: int|
                    #![trigger self@.contexts[i]]
                    0 <= i < n ==> {
                        &&& self@.contexts[i].live == (v0.contexts[i].live && !(i < j
                            && v0.in_subtree(r, i)))
                        &&& self@.contexts[i].deadline == v0.contexts[i].deadline
                        &&& self@.contexts[i].refs == v0.contexts[i].refs
                        &&& self@.contexts[i].live ==> {
                            &&& self@.contexts[i].parent == v0.contexts[i].parent
                            &&& self@.contexts[i].waiters == v0.contexts[i].waiters
                            &&& (j > root ==> !self@.contexts[i].children.contains(root as u64))
                        }
                        &&& !self@.contexts[i].live ==> self@.contexts[i]
                            == self@.contexts[i].dropped()
                    },
                forall|i: int, c: u64|
                    0 <= i < n && self@.contexts[i].live && (c != root as u64 || j <= root) ==> (
                    #[trigger] self@.contexts[i].children.contains(c)
                        == v0.contexts[i].children.contains(c)),
            decreases n - j,
        {
            let ghost vj = self@;
            let kill = if j == root {
                self.is_live(j)
            } else {
                match &self.nodes[j].data {
                    Some(d) => match &d.parent {
                        Some(h) => !self.is_live(h.owner_id()),
                        None => false,
                    },
                    None => false,
                }
            };
            proof {
                assert(vj.contexts[j as int] == vj.contexts[j as int]);
                assert(v0.contexts[j as int] == v0.contexts[j as int]);
                if j != root && v0.live(j as int) && v0.contexts[j as int].parent is Some {
                    let p = v0.contexts[j as int].parent->0;
                    assert(self.nodes@[j as int].wf(j as int));
                    assert(vj.contexts[p] == vj.contexts[p]);
                }
                assert(kill == (v0.live(j as int) && v0.in_subtree(r, j as int)));
                if v0.in_subtree(r, j as int) {
                    lemma_subtree_above(v0, r, j as int);
                }
            }
            if kill {
                proof {
                    if j == root && v0.contexts[r].parent is Some {
                        let p = v0.contexts[r].parent->0;
                        if v0.in_subtree(r, p) {
                            lemma_subtree_above(v0, r, p);
                        }
                        assert(vj.contexts[p] == vj.contexts[p]);
                    }
                }
                self.kill(j);
                proof {
                    let vk = self@;
                    assert forall|i: int| 0 <= i < n && i != j implies vk.contexts[i] == (if vj.contexts[j as int].parent == Some(i) && vj.live(i) {
                        vj.contexts[i].without_child(j as u64)
                    } else {
                        vj.contexts[i]
                    }) by {}
                }
            }
            proof {
                let vk = self@;
                assert(v0.notices(r, j + 1) == v0.notices(r, j as int) + if v0.live(j as int)
                    && v0.in_subtree(r, j as int) {
                    tasks_of(v0.contexts[j as int].waiters)
                } else {
                    Seq::empty()
                });
                if !kill {
                    assert(vk.outbox =~= v0.outbox + v0.notices(r, j + 1));
                } else {
                    assert(vk.outbox =~= v0.outbox + v0.notices(r, j + 1));
                }
                assert forall|i: int, c: u64|
                    0 <= i < n && vk.contexts[i].live && (c != root as u64 || j + 1 <= root) implies (
                    #[trigger] vk.contexts[i].children.contains(c)
                        == v0.contexts[i].children.contains(c)) by {
                    assert(vj.contexts[i] == vj.contexts[i]);
                    assert(vk.contexts[i] == vk.contexts[i]);
                }
                assert forall|i: int| #![trigger vk.contexts[i]] 0 <= i < n implies {
                    &&& vk.contexts[i].live == (v0.contexts[i].live && !(i < j + 1
                        && v0.in_subtree(r, i)))
                    &&& vk.contexts[i].deadline == v0.contexts[i].deadline
                    &&& vk.contexts[i].refs == v0.contexts[i].refs
                    &&& vk.contexts[i].live ==> {
                        &&& vk.contexts[i].parent == v0.contexts[i].parent
                        &&& vk.contexts[i].waiters == v0.contexts[i].waiters
                        &&& (j + 1 > root ==> !vk.contexts[i].children.contains(root as u64))
                    }
                    &&& !vk.contexts[i].live ==> vk.contexts[i] == vk.contexts[i].dropped()
                } by {
                    assert(vj.contexts[i] == vj.contexts[i]);
                    assert(v0.contexts[i] == v0.contexts[i]);
                    if vk.contexts[i].live && j == root && vk.contexts[i].children.contains(
                        root as u64,
                    ) {
                        assert(v0.contexts[i].children.contains(root as u64));
                        assert(v0.contexts[r].parent == Some(i));
                    }
                    if !vk.contexts[i].live && i != j {
                        assert(vk.contexts[i].children =~= Set::<u64>::empty());
                    }
                }
            }
            j = j + 1;
        }
        proof {
            let w = v0.after_cancel(r);
            let vf = self@;
            assert forall|i: int| 0 <= i < n implies #[trigger] vf.contexts[i] == w.contexts[i] by {
                assert(vf.contexts[i] == vf.contexts[i]);
                assert(v0.contexts[i] == v0.contexts[i]);
                if !v0.in_subtree(r, i) {
                    if vf.contexts[i].live {
                        assert(vf.contexts[i].children =~= v0.contexts[i].children.remove(
                            root as u64,
                        ));
                    } else {
                        assert(v0.contexts[i].children.remove(root as u64) =~= Set::<u64>::empty());
                    }
                }
            }
            assert(vf.contexts =~= w.contexts);
            assert(vf.outbox =~= w.outbox);
            lemma_after_cancel_wf(v0, r);
        }
    }
}

/// Listing a waiting task keeps the tree consistent.
proof fn lemma_with_waiter_wf(v: RuntimeView, i: int, t: u64)
    requires
        v.tree_wf(),
    ensures
        v.with_waiter(i, t).tree_wf(),
{
    let w = v.with_waiter(i, t);
    if v.live(i) && !v.contexts[i].waiters.contains(t) {
        lemma_insert_sorted(v.contexts[i].waiters, t);
        assert forall|p: int, c: u64|
            w.live(p) && #[trigger] w.contexts[p].children.contains(c) implies {
            &&& p < c < w.contexts.len()
            &&& w.live(c as int)
            &&& w.contexts[c as int].parent == Some(p)
        } by {
            assert(v.contexts[p].children.contains(c));
        }
    }
}

/// Taking a waiting task off keeps the tree consistent.
proof fn lemma_without_waiter_wf(v: RuntimeView, i: int, t: u64)
    requires
        v.tree_wf(),
    ensures
        v.without_waiter(i, t).tree_wf(),
{
    let w = v.without_waiter(i, t);
    if v.live(i) && v.contexts[i].waiters.contains(t) {
        let s = v.contexts[i].waiters;
        let k = s.index_of(t);
        assert(0 <= k < s.len() && s[k] == t);
        lemma_remove_sorted(s, k);
        assert forall|p: int, c: u64|
            w.live(p) && #[trigger] w.contexts[p].children.contains(c) implies {
            &&& p < c < w.contexts.len()
            &&& w.live(c as int)
            &&& w.contexts[c as int].parent == Some(p)
        } by {
            assert(v.contexts[p].children.contains(c));
        }
    }
}

/// A handle to a context: an ongoing operation that may be cancelled. Each
/// handle counts as one reference; when the last one is released the context
/// is cancelled.
pub struct Context {
    id: usize,
}

impl View for Context {
    /// The id of the context in its runtime.
    type V = nat;

    closed spec fn view(&self) -> nat {
        self.id as nat
    }
}

/// Forking keeps the tree consistent.
proof fn lemma_after_fork_wf(v: RuntimeView, p: int, deadline: Option<u64>)
    requires
        v.tree_wf(),
        v.contexts.len() < usize::MAX,
    ensures
        v.after_fork(p, deadline).tree_wf(),
{
    let w = v.after_fork(p, deadline);
    let id = v.contexts.len() as int;
    assert forall|i: int| 0 <= i < id implies #[trigger] w.contexts[i].live == v.contexts[i].live
        && w.contexts[i].parent == v.contexts[i].parent by {}
    assert forall|i: int|
        #![trigger w.contexts[i]]
        w.live(i) && w.contexts[i].parent is Some implies {
        let q = w.contexts[i].parent->0;
        &&& 0 <= q < i
        &&& w.live(q)
        &&& w.contexts[q].children.contains(i as u64)
    } by {
        if i < id {
            assert(v.contexts[i] == v.contexts[i]);
        }
    }
    assert forall|q: int, c: u64|
        #![trigger w.contexts[q].children.contains(c)]
        w.live(q) && w.contexts[q].children.contains(c) implies {
        &&& q < c < w.contexts.len()
        &&& w.live(c as int)
        &&& w.contexts[c as int].parent == Some(q)
    } by {
        if q == p && c == id as u64 {
        } else {
            assert(v.contexts[q].children.contains(c));
            assert(v.contexts[c as int] == v.contexts[c as int]);
        }
    }
    assert forall|i: int|
        #![trigger w.contexts[i]]
        0 <= i < w.contexts.len() && !w.contexts[i].live implies w.contexts[i]
        == w.contexts[i].dropped() by {
        assert(v.contexts[i] == v.contexts[i]);
    }
}

/// Deadline of a fork: the earlier of the parent's and the one asked for.
pub open spec fn fork_deadline(parent: Option<u64>, asked: u64) -> Option<u64> {
    earliest(parent, Some(asked))
}

impl Context {
    /// The id of the context in its runtime.
    pub fn id(&self) -> (r: usize)
        ensures
            r == self@,
    {
        self.id
    }

    /// Creates a new global context: one with no parent and no deadline.
    pub fn new_global(rt: &mut Runtime) -> (r: Context)
        requires
            old(rt).wf(),
            old(rt)@.contexts.len() < usize::MAX,
        ensures
            final(rt).wf(),
            r@ == old(rt)@.contexts.len(),
            final(rt)@ == (RuntimeView {
                contexts: old(rt)@.contexts.push(ContextView::fresh(None, None)),
                ..old(rt)@
            }),
    {
        let id = rt.nodes.len();
        let ghost v0 = rt@;
        rt.nodes.push(
            Node {
                deadline: None,
                refs: 1,
                data: Some(
                    ContextData { parent: None, event: Event::new(), children: SharedSet::new() },
                ),
            },
        );
        proof {
            assert(rt@.contexts =~= v0.contexts.push(ContextView::fresh(None, None)));
            assert forall|k: int| 0 <= k < rt.nodes@.len() implies #[trigger] rt.nodes@[k].wf(k) by {
                assert(k < id ==> rt.nodes@[k] == old(rt).nodes@[k]);
            }
            let w = rt@;
            assert(w == v0.after_fork(-1, None));
            lemma_after_fork_wf(v0, -1, None);
        }
        Context { id }
    }

    /// Forks a child with the given deadline. If this context is live, the
    /// child is listed among its children; otherwise the child starts live and
    /// unparented.
    fn fork_internal(&self, rt: &mut Runtime, deadline: Option<u64>) -> (r: Context)
        requires
            old(rt).wf(),
            self@ < old(rt)@.contexts.len(),
            old(rt)@.contexts.len() < usize::MAX,
        ensures
            final(rt).wf(),
            r@ == old(rt)@.contexts.len(),
            final(rt)@ == old(rt)@.after_fork(self@ as int, deadline),
    {
        let ghost v0 = rt@;
        let id = rt.nodes.len();
        let p = self.id;
        let parent = if rt.is_live(p) {
            let ghost n1 = rt.nodes@;
            proof {
                assert(rt.nodes@[p as int].wf(p as int));
            }
            match &mut rt.nodes[p].data {
                Some(pd) => {
                    pd.children.insert(id as u64);
                },
                None => {},
            }
            proof {
                assert forall|k: int| 0 <= k < rt.nodes@.len() implies #[trigger] rt.nodes@[k].wf(
                    k,
                ) by {
                    assert(k != p ==> rt.nodes@[k] == n1[k]);
                }
            }
            Some(SharedSetHandle::from_parts(Owner::Children(p), id as u64))
        } else {
            None
        };
        let ghost n2 = rt.nodes@;
        rt.nodes.push(
            Node {
                deadline,
                refs: 1,
                data: Some(ContextData { parent, event: Event::new(), children: SharedSet::new() }),
            },
        );
        proof {
            assert forall|k: int| 0 <= k < rt.nodes@.len() implies #[trigger] rt.nodes@[k].wf(k) by {
                assert(k < id ==> rt.nodes@[k] == n2[k]);
            }
            assert(rt@.contexts =~= v0.after_fork(p as int, deadline).contexts);
            lemma_after_fork_wf(v0, p as int, deadline);
        }
        Context { id }
    }

    /// Forks a child that inherits this context's deadline.
    pub fn fork(&self, rt: &mut Runtime) -> (r: Context)
        requires
            old(rt).wf(),
            self@ < old(rt)@.contexts.len(),
            old(rt)@.contexts.len() < usize::MAX,
        ensures
            final(rt).wf(),
            r@ == old(rt)@.contexts.len(),
            final(rt)@ == old(rt)@.after_fork(self@ as int, old(rt)@.contexts[self@ as int].deadline),
    {
        let d = rt.deadline(self.id);
        self.fork_internal(rt, d)
    }

    /// Forks a child whose deadline is the earlier of this context's and
    /// `deadline`.
    pub fn fork_with_deadline(&self, rt: &mut Runtime, deadline: u64) -> (r: Context)
        requires
            old(rt).wf(),
            self@ < old(rt)@.contexts.len(),
            old(rt)@.contexts.len() < usize::MAX,
        ensures
            final(rt).wf(),
            r@ == old(rt)@.contexts.len(),
            final(rt)@ == old(rt)@.after_fork(
                self@ as int,
                fork_deadline(old(rt)@.contexts[self@ as int].deadline, deadline),
            ),
    {
        let d = match rt.deadline(self.id) {
            Some(p) => Some(if p <= deadline { p } else { deadline }),
            None => Some(deadline),
        };
        self.fork_internal(rt, d)
    }

    /// Forks a child whose deadline is `timeout` milliseconds from now, or
    /// this context's deadline if that is earlier.
    pub fn fork_with_timeout(&self, rt: &mut Runtime, timeout: u64) -> (r: Context)
        requires
            old(rt).wf(),
            self@ < old(rt)@.contexts.len(),
            old(rt)@.contexts.len() < usize::MAX,
            old(rt)@.now + timeout <= u64::MAX,
        ensures
            final(rt).wf(),
            r@ == old(rt)@.contexts.len(),
            final(rt)@ == old(rt)@.after_fork(
                self@ as int,
                fork_deadline(
                    old(rt)@.contexts[self@ as int].deadline,
                    (old(rt)@.now + timeout) as u64,
                ),
            ),
    {
        let now = rt.now();
        self.fork_with_deadline(rt, now + timeout)
    }

    /// Cancels the context and, through it, its live descendants. Cancelling
    /// a cancelled context does nothing.
    pub fn cancel(&self, rt: &mut Runtime)
        requires
            old(rt).wf(),
            self@ < old(rt)@.contexts.len(),
        ensures
            final(rt).wf(),
            final(rt)@ == old(rt)@.after_cancel(self@ as int),
            !old(rt)@.live(self@ as int) ==> final(rt)@ == old(rt)@,
    {
        proof {
            if !rt@.live(self@ as int) {
                lemma_cancel_cancelled(rt@, self@ as int);
            }
        }
        rt.cancel_subtree(self.id);
    }

    /// Another handle to the same context.
    pub fn share(&self, rt: &mut Runtime) -> (r: Context)
        requires
            old(rt).wf(),
            self@ < old(rt)@.contexts.len(),
            old(rt)@.contexts[self@ as int].refs < u64::MAX,
        ensures
            final(rt).wf(),
            r@ == self@,
            final(rt)@ == old(rt)@.set_refs(
                self@ as int,
                old(rt)@.contexts[self@ as int].refs + 1,
            ),
    {
        let ghost v0 = rt@;
        let i = self.id;
        rt.nodes[i].refs = rt.nodes[i].refs + 1;
        proof {
            assert(rt@.contexts =~= v0.set_refs(i as int, v0.contexts[i as int].refs + 1).contexts);
            assert forall|k: int| 0 <= k < rt.nodes@.len() implies #[trigger] rt.nodes@[k].wf(k) by {
                assert(k != i ==> rt.nodes@[k] == old(rt).nodes@[k]);
                assert(old(rt).nodes@[k].wf(k));
            }
            let w = rt@;
            assert forall|q: int, c: u64|
                #![trigger w.contexts[q].children.contains(c)]
                w.live(q) && w.contexts[q].children.contains(c) implies {
                &&& q < c < w.contexts.len()
                &&& w.live(c as int)
                &&& w.contexts[c as int].parent == Some(q)
            } by {
                assert(v0.contexts[q].children.contains(c));
            }
        }
        Context { id: i }
    }

    /// The event that occurs when this context is cancelled, for the task
    /// `task` to wait on. The task is listed among the context's waiting
    /// tasks, so that the cancellation notifies it.
    pub fn done(&self, rt: &mut Runtime, task: Task) -> (r: Done)
        requires
            old(rt).wf(),
        ensures
            final(rt).wf(),
            final(rt)@ == old(rt)@.with_waiter(self@ as int, task.0),
            r.context() == self@,
            r.registration() == if old(rt)@.live(self@ as int) {
                Some((self@ as int, task.0))
            } else {
                None
            },
    {
        let handle = handle_event(rt, self, task);
        Done { ctx: self.id, handle }
    }

    /// Gives up this handle. Releasing the last handle cancels the context.
    pub fn release(self, rt: &mut Runtime)
        requires
            old(rt).wf(),
            self@ < old(rt)@.contexts.len(),
        ensures
            final(rt).wf(),
            final(rt)@ == old(rt)@.after_release(self@ as int),
    {
        let ghost v0 = rt@;
        let i = self.id;
        let refs = rt.nodes[i].refs;
        let n: u64 = if refs > 0 {
            refs - 1
        } else {
            0
        };
        if n == 0 {
            rt.cancel_subtree(i);
        }
        let ghost v1 = rt@;
        let ghost n1 = rt.nodes@;
        rt.nodes[i].refs = n;
        proof {
            assert(rt@.contexts =~= v1.set_refs(i as int, n as nat).contexts);
            assert forall|k: int| 0 <= k < rt.nodes@.len() implies #[trigger] rt.nodes@[k].wf(k) by {
                assert(k != i ==> rt.nodes@[k] == n1[k]);
                assert(n1[k].wf(k));
            }
            let w = rt@;
            assert(v1.contexts[i as int] == v1.contexts[i as int]);
            assert forall|q: int, c: u64|
                #![trigger w.contexts[q].children.contains(c)]
                w.live(q) && w.contexts[q].children.contains(c) implies {
                &&& q < c < w.contexts.len()
                &&& w.live(c as int)
                &&& w.contexts[c as int].parent == Some(q)
            } by {
                assert(v1.contexts[q].children.contains(c));
            }
        }
    }
}

} // verus!

verus! {

/// The event that occurs when a context is cancelled, explicitly, through an
/// ancestor, by its last handle going away, or by its deadline passing. The
/// deadline is checked when the event is polled.
pub struct Done {
    ctx: usize,
    handle: EventHandle,
}

impl Done {
    /// The registration is for the same context.
    #[verifier::type_invariant]
    spec fn inv(&self) -> bool {
        match self.handle.entry() {
            Some((c, _)) => c == self.ctx as int,
            None => true,
        }
    }

    /// The id of the context whose cancellation is awaited.
    pub closed spec fn context(&self) -> int {
        self.ctx as int
    }

    /// The context and task listed for notification, if the listing was made.
    pub closed spec fn registration(&self) -> Option<(int, u64)> {
        self.handle.entry()
    }
}

impl Selectable<()> for Done {
    open spec fn ready(&self, rt: RuntimeView) -> bool {
        rt.done_ready(self.context())
    }

    open spec fn produces(&self, rt: RuntimeView, t: ()) -> bool {
        true
    }

    /// A live context is cancelled; the listing then has nothing left to
    /// leave.
    open spec fn completed(&self, rt: RuntimeView) -> RuntimeView {
        if rt.live(self.context()) {
            rt.after_cancel(self.context())
        } else {
            rt
        }
    }

    /// The task is taken off the context's waiting tasks.
    open spec fn released(&self, rt: RuntimeView) -> RuntimeView {
        match self.registration() {
            Some((i, t)) => rt.without_waiter(i, t),
            None => rt,
        }
    }

    open spec fn spec_sleep(&self, rt: RuntimeView) -> GenericSleep {
        GenericSleep::NotifyTake(
            if 0 <= self.context() < rt.contexts.len() {
                rt.contexts[self.context()].deadline
            } else {
                None
            },
        )
    }

    /// Ready once the context is cancelled; a live context whose deadline has
    /// come is cancelled here.
    fn poll(self, rt: &mut Runtime) -> (r: Result<(), Self>) {
        proof {
            use_type_invariant(&self);
        }
        let i = self.ctx;
        if !rt.is_live(i) {
            self.handle.release(rt);
            return Ok(());
        }
        let expired = match rt.deadline(i) {
            Some(d) => d <= rt.now(),
            None => false,
        };
        if expired {
            rt.cancel_subtree(i);
            self.handle.release(rt);
            Ok(())
        } else {
            Err(self)
        }
    }

    fn sleep(&self, rt: &Runtime) -> (r: GenericSleep) {
        if self.ctx < rt.nodes.len() {
            GenericSleep::NotifyTake(rt.deadline(self.ctx))
        } else {
            GenericSleep::NotifyTake(None)
        }
    }

    /// Takes the task off the context's waiting tasks.
    fn release(self, rt: &mut Runtime) {
        self.handle.release(rt);
    }
}

} // verus!

verus! {

/// In a consistent tree, nothing but a cancelled context itself lies in its
/// subtree: its children have been cancelled with it.
proof fn lemma_dead_subtree(v: RuntimeView, root: int, i: int)
    requires
        v.tree_wf(),
        !v.live(root),
        v.in_subtree(root, i),
    ensures
        i == root,
    decreases i,
{
    if i != root {
        let p = v.contexts[i].parent->0;
        assert(v.contexts[i] == v.contexts[i]);
        lemma_dead_subtree(v, root, p);
    }
}

/// Cancelling queues nothing from contexts outside the subtree's live part.
proof fn lemma_notices_empty(v: RuntimeView, root: int, hi: int)
    requires
        v.tree_wf(),
        !v.live(root),
    ensures
        v.notices(root, hi) == Seq::<Task>::empty(),
    decreases hi,
{
    if hi > 0 {
        lemma_notices_empty(v, root, hi - 1);
        if v.in_subtree(root, hi - 1) {
            lemma_dead_subtree(v, root, hi - 1);
        }
        assert(v.notices(root, hi) =~= Seq::<Task>::empty());
    }
}

/// Cancelling a context that is already cancelled changes nothing.
pub proof fn lemma_cancel_cancelled(v: RuntimeView, root: int)
    requires
        v.tree_wf(),
        0 <= root < v.contexts.len(),
        !v.live(root),
    ensures
        v.after_cancel(root) == v,
{
    let w = v.after_cancel(root);
    assert forall|i: int| 0 <= i < v.contexts.len() implies #[trigger] w.contexts[i] == v.contexts[
        i
    ] by {
        assert(v.contexts[i] == v.contexts[i]);
        if v.in_subtree(root, i) {
            lemma_dead_subtree(v, root, i);
        } else {
            if v.contexts[i].children.contains(root as u64) {
                assert(v.live(i) ==> v.live(root));
            }
            assert(v.contexts[i].children.remove(root as u64) =~= v.contexts[i].children);
        }
    }
    assert(w.contexts =~= v.contexts);
    lemma_notices_empty(v, root, v.contexts.len() as int);
    assert(w.outbox =~= v.outbox);
}

/// After `c` is cancelled, waiting for its cancellation is over at once, and
/// it stays over: cancelling it again, or releasing one of its handles,
/// leaves it cancelled.
pub proof fn lemma_cancelled_stays_done(v: RuntimeView, c: int)
    requires
        v.tree_wf(),
        0 <= c < v.contexts.len(),
    ensures
        v.after_cancel(c).done_ready(c),
        !v.after_cancel(c).live(c),
        v.after_cancel(c).after_cancel(c) == v.after_cancel(c),
        v.after_cancel(c).after_release(c).done_ready(c),
{
    let w = v.after_cancel(c);
    lemma_after_cancel_wf(v, c);
    assert(!w.live(c));
    lemma_cancel_cancelled(w, c);
    let r = w.contexts[c].refs;
    let n: nat = if r > 0 {
        (r - 1) as nat
    } else {
        0
    };
    assert(w.after_release(c).contexts[c].live == w.contexts[c].live);
}

/// Cancelling a context cancels each child forked from it while it was live,
/// and the child stays cancelled when the parent's handle is released right
/// after.
pub proof fn lemma_cancel_reaches_child(v: RuntimeView, p: int, c: int)
    requires
        v.tree_wf(),
        0 <= p < v.contexts.len(),
        v.live(c),
        v.contexts[c].parent == Some(p),
    ensures
        v.after_cancel(p).done_ready(c),
        !v.after_cancel(p).live(c),
        !v.after_cancel(p).after_release(p).live(c),
{
    assert(v.contexts[c] == v.contexts[c]);
    assert(v.in_subtree(p, p));
    assert(v.in_subtree(p, c));
    let w = v.after_cancel(p);
    lemma_after_cancel_wf(v, p);
    assert(v.in_subtree(p, p));
    assert(!w.live(p));
    lemma_cancel_cancelled(w, p);
}

/// A fork of a live context is listed as its child, so cancelling the parent
/// cancels the fork.
pub proof fn lemma_fork_then_cancel(v: RuntimeView, p: int, deadline: Option<u64>)
    requires
        v.tree_wf(),
        v.contexts.len() < usize::MAX,
        v.live(p),
    ensures
        !v.after_fork(p, deadline).after_cancel(p).live(v.contexts.len() as int),
        v.after_fork(p, deadline).after_cancel(p).done_ready(v.contexts.len() as int),
{
    let f = v.after_fork(p, deadline);
    lemma_after_fork_wf(v, p, deadline);
    lemma_cancel_reaches_child(f, p, v.contexts.len() as int);
}

/// For a live context with deadline `d`, waiting for its cancellation is over
/// exactly when the clock has reached `d`: never before.
pub proof fn lemma_deadline_ready(v: RuntimeView, i: int, d: u64)
    requires
        v.live(i),
        v.contexts[i].deadline == Some(d),
    ensures
        v.done_ready(i) <==> d <= v.now,
{
}

/// Listing a task on a context and releasing the listing before anything
/// fires leaves the waiting tasks exactly as they were, if the task was not
/// listed already.
pub proof fn lemma_listing_released(v: RuntimeView, i: int, t: u64)
    requires
        v.tree_wf(),
        0 <= i < v.contexts.len(),
        !v.contexts[i].waiters.contains(t),
    ensures
        v.with_waiter(i, t).without_waiter(i, t) == v,
{
    let w = v.with_waiter(i, t);
    if v.live(i) {
        let s = v.contexts[i].waiters;
        assert(v.contexts[i] == v.contexts[i]);
        lemma_insert_sorted(s, t);
        let k0 = slot_of(s, t);
        let s2 = s.insert(k0, t);
        assert(s2[k0] == t);
        let k = s2.index_of(t);
        assert(0 <= k < s2.len() && s2[k] == t);
        assert(k == k0) by {
            if k < k0 {
                assert(s2[k] < s2[k0]);
            } else if k > k0 {
                assert(s2[k0] < s2[k]);
            }
        }
        assert(s2.remove(k) =~= s);
        assert(w.without_waiter(i, t).contexts =~= v.contexts);
    }
}

/// Every notification queued for a context of the subtree below `hi`.
proof fn lemma_notices_contain(v: RuntimeView, root: int, i: int, hi: int, t: u64)
    requires
        0 <= i < hi,
        v.live(i),
        v.in_subtree(root, i),
        v.contexts[i].waiters.contains(t),
    ensures
        v.notices(root, hi).contains(Task(t)),
    decreases hi,
{
    let k = choose|k: int| 0 <= k < v.contexts[i].waiters.len() && v.contexts[i].waiters[k] == t;
    if i == hi - 1 {
        let tail = tasks_of(v.contexts[i].waiters);
        let all = v.notices(root, hi);
        assert(all == v.notices(root, hi - 1) + tail);
        assert(all[v.notices(root, hi - 1).len() + k] == Task(t));
    } else {
        lemma_notices_contain(v, root, i, hi - 1, t);
        let prev = v.notices(root, hi - 1);
        let j = choose|j: int| 0 <= j < prev.len() && prev[j] == Task(t);
        assert(v.notices(root, hi)[j] == Task(t));
    }
}

/// Cancelling a context queues a notification for every task waiting on it
/// or on any of its live descendants, so each of them wakes.
pub proof fn lemma_cancel_notifies_waiters(v: RuntimeView, root: int, i: int, t: u64)
    requires
        0 <= root < v.contexts.len(),
        v.live(i),
        v.in_subtree(root, i),
        v.contexts[i].waiters.contains(t),
    ensures
        v.after_cancel(root).outbox.contains(Task(t)),
{
    lemma_notices_contain(v, root, i, v.contexts.len() as int, t);
    let n = v.notices(root, v.contexts.len() as int);
    let j = choose|j: int| 0 <= j < n.len() && n[j] == Task(t);
    assert(v.after_cancel(root).outbox[v.outbox.len() + j] == Task(t));
}

/// Releasing the last handle of a context cancels it and, through it, its
/// live descendants, while its parent stays live.
pub proof fn lemma_release_last_handle(v: RuntimeView, a: int, b: int, c: int)
    requires
        v.tree_wf(),
        v.live(a),
        v.live(b),
        v.contexts[b].parent == Some(a),
        v.contexts[b].refs == 1,
        v.live(c),
        v.contexts[c].parent == Some(b),
    ensures
        !v.after_release(b).live(b),
        !v.after_release(b).live(c),
        v.after_release(b).done_ready(c),
        v.after_release(b).live(a),
{
    assert(v.contexts[b] == v.contexts[b]);
    assert(v.contexts[c] == v.contexts[c]);
    assert(v.in_subtree(b, b));
    assert(v.in_subtree(b, c));
    if v.in_subtree(b, a) {
        lemma_subtree_above(v, b, a);
    }
}

} // verus!

verus! {

/// The runtime after the tasks `ts` register, one after another, on context
/// `i`.
pub open spec fn with_waiters(v: RuntimeView, i: int, ts: Seq<u64>) -> RuntimeView
    decreases ts.len(),
{
    if ts.len() == 0 {
        v
    } else {
        with_waiters(v, i, ts.drop_last()).with_waiter(i, ts.last())
    }
}

/// Registering tasks keeps the tree consistent and context `i` live, and
/// lists every one of them.
proof fn lemma_with_waiters(v: RuntimeView, i: int, ts: Seq<u64>)
    requires
        v.tree_wf(),
        v.live(i),
    ensures
        with_waiters(v, i, ts).tree_wf(),
        with_waiters(v, i, ts).live(i),
        with_waiters(v, i, ts).contexts.len() == v.contexts.len(),
        forall|k: int|
            0 <= k < ts.len() ==> #[trigger] with_waiters(v, i, ts).contexts[i].waiters.contains(
                ts[k],
            ),
    decreases ts.len(),
{
    if ts.len() > 0 {
        let p = ts.drop_last();
        lemma_with_waiters(v, i, p);
        let w = with_waiters(v, i, p);
        lemma_with_waiter_wf(w, i, ts.last());
        lemma_insert_sorted(w.contexts[i].waiters, ts.last());
        let s = w.contexts[i].waiters;
        let s2 = insert_sorted(s, ts.last());
        assert forall|k: int| 0 <= k < ts.len() implies #[trigger] s2.contains(ts[k]) by {
            if k < p.len() {
                assert(p[k] == ts[k]);
                assert(s.to_set().contains(ts[k]));
                assert(s2.to_set().contains(ts[k]));
            } else {
                assert(s2.to_set().contains(ts.last()));
            }
        }
    }
}

/// When tasks register one after another on the same live context, a single
/// cancellation of it queues a notification for every one of them.
pub proof fn lemma_cancel_notifies_all(v: RuntimeView, i: int, ts: Seq<u64>)
    requires
        v.tree_wf(),
        v.live(i),
    ensures
        forall|k: int|
            0 <= k < ts.len() ==> #[trigger] with_waiters(v, i, ts).after_cancel(i).outbox.contains(
                Task(ts[k]),
            ),
{
    lemma_with_waiters(v, i, ts);
    let w = with_waiters(v, i, ts);
    assert forall|k: int| 0 <= k < ts.len() implies #[trigger] w.after_cancel(i).outbox.contains(
        Task(ts[k]),
    ) by {
        assert(w.contexts[i].waiters.contains(ts[k]));
        assert(w.in_subtree(i, i));
        lemma_cancel_notifies_waiters(w, i, i, ts[k]);
    }
}

} // verus!
