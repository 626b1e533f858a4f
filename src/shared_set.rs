//! A set of identities whose entries are removed through the handle that
//! added them.
use vstd::prelude::*;

use crate::context::Runtime;

verus! {

/// The sequence is strictly increasing.
pub open spec fn increasing(s: Seq<u64>) -> bool {
    forall|i: int, j: int| 0 <= i < j < s.len() ==> s[i] < s[j]
}

/// `k` is a place for `v` in `s`: after the smaller members and before the
/// larger ones.
pub open spec fn is_slot(s: Seq<u64>, v: u64, k: int) -> bool {
    &&& 0 <= k <= s.len()
    &&& forall|i: int| 0 <= i < k ==> s[i] < v
    &&& forall|i: int| k <= i < s.len() ==> s[i] > v
}

/// Where `v` goes in `s` to keep it increasing.
pub open spec fn slot_of(s: Seq<u64>, v: u64) -> int {
    choose|k: int| is_slot(s, v, k)
}

/// The increasing sequence `s` with `v` added in its place, if it is not
/// there yet.
pub open spec fn insert_sorted(s: Seq<u64>, v: u64) -> Seq<u64> {
    if s.contains(v) {
        s
    } else {
        s.insert(slot_of(s, v), v)
    }
}

/// A value not in an increasing sequence has a place in it.
proof fn lemma_slot_exists(s: Seq<u64>, v: u64, k: int)
    requires
        increasing(s),
        !s.contains(v),
        0 <= k <= s.len(),
        forall|i: int| 0 <= i < k ==> s[i] < v,
    ensures
        exists|k2: int| is_slot(s, v, k2),
    decreases s.len() - k,
{
    if k < s.len() && s[k] < v {
        lemma_slot_exists(s, v, k + 1);
    } else {
        assert forall|i: int| k <= i < s.len() implies s[i] > v by {
            assert(s[k] != v);
            if i > k {
                assert(s[k] < s[i]);
            }
        }
        assert(is_slot(s, v, k));
    }
}

/// Adding in place keeps a sequence increasing, and adds exactly `v`.
pub proof fn lemma_insert_sorted(s: Seq<u64>, v: u64)
    requires
        increasing(s),
    ensures
        increasing(insert_sorted(s, v)),
        insert_sorted(s, v).to_set() == s.to_set().insert(v),
        !s.contains(v) ==> insert_sorted(s, v).len() == s.len() + 1,
        !s.contains(v) ==> 0 <= slot_of(s, v) <= s.len(),
{
    if !s.contains(v) {
        lemma_slot_exists(s, v, 0);
        let k2 = slot_of(s, v);
        assert(0 <= k2 <= s.len());
        let t = s.insert(k2, v);
        assert forall|i: int, j: int| 0 <= i < j < t.len() implies t[i] < t[j] by {
            if j < k2 {
            } else if j == k2 {
            } else if i < k2 {
                assert(t[j] == s[j - 1]);
            } else if i == k2 {
                assert(t[j] == s[j - 1]);
            } else {
                assert(t[i] == s[i - 1] && t[j] == s[j - 1]);
            }
        }
        assert(t.to_set() =~= s.to_set().insert(v)) by {
            assert forall|x: u64| t.contains(x) <==> s.contains(x) || x == v by {
                if t.contains(x) {
                    let j = choose|j: int| 0 <= j < t.len() && t[j] == x;
                    if j < k2 {
                        assert(s[j] == x);
                    } else if j > k2 {
                        assert(s[j - 1] == x);
                    }
                }
                if s.contains(x) {
                    let j = choose|j: int| 0 <= j < s.len() && s[j] == x;
                    if j < k2 {
                        assert(t[j] == x);
                    } else {
                        assert(t[j + 1] == x);
                    }
                }
                if x == v {
                    assert(t[k2] == x);
                }
            }
        }
    } else {
        assert(s.to_set().insert(v) =~= s.to_set());
    }
}

/// Removing a member keeps a sequence increasing.
pub proof fn lemma_remove_sorted(s: Seq<u64>, k: int)
    requires
        increasing(s),
        0 <= k < s.len(),
    ensures
        increasing(s.remove(k)),
{
    let t = s.remove(k);
    assert forall|a: int, b: int| 0 <= a < b < t.len() implies t[a] < t[b] by {
        let a2 = if a < k { a } else { a + 1 };
        let b2 = if b < k { b } else { b + 1 };
        assert(t[a] == s[a2] && t[b] == s[b2]);
    }
}

/// A set of identities (task handles, context ids), kept in increasing
/// order.
pub struct SharedSet {
    members: Vec<u64>,
}

impl View for SharedSet {
    type V = Set<u64>;

    closed spec fn view(&self) -> Set<u64> {
        self.members@.to_set()
    }
}

impl SharedSet {
    /// The members, in increasing order.
    pub closed spec fn order(&self) -> Seq<u64> {
        self.members@
    }

    /// The members are kept in increasing order.
    pub closed spec fn wf(&self) -> bool {
        increasing(self.members@)
    }

    /// The order lists each member exactly once, smallest first.
    pub proof fn lemma_order(&self)
        requires
            self.wf(),
        ensures
            self.order().to_set() == self@,
            increasing(self.order()),
            self.order().no_duplicates(),
    {
    }

    /// An empty set.
    pub fn new() -> (r: Self)
        ensures
            r.wf(),
            r@ == Set::<u64>::empty(),
            r.order() == Seq::<u64>::empty(),
    {
        let r = SharedSet { members: Vec::new() };
        assert(r@ =~= Set::<u64>::empty());
        r
    }

    /// The members, each once, in increasing order.
    pub fn iter(&self) -> (r: &[u64])
        requires
            self.wf(),
        ensures
            r@ == self.order(),
            r@.to_set() == self@,
            increasing(r@),
    {
        self.members.as_slice()
    }

    /// Whether `v` is a member.
    pub fn contains(&self, v: u64) -> (r: bool)
        ensures
            r == self@.contains(v),
    {
        let mut i: usize = 0;
        while i < self.members.len()
            invariant
                0 <= i <= self.members@.len(),
                forall|j: int| 0 <= j < i ==> self.members@[j] != v,
            decreases self.members@.len() - i,
        {
            if self.members[i] == v {
                return true;
            }
            i = i + 1;
        }
        false
    }

    /// Adds `v` in its place; returns whether it was new.
    pub fn insert(&mut self, v: u64) -> (r: bool)
        requires
            old(self).wf(),
        ensures
            final(self).wf(),
            final(self)@ == old(self)@.insert(v),
            r == !old(self)@.contains(v),
            final(self).order() == insert_sorted(old(self).order(), v),
    {
        let ghost s = self.members@;
        let mut i: usize = 0;
        while i < self.members.len() && self.members[i] < v
            invariant
                self.members@ == s,
                0 <= i <= s.len(),
                forall|j: int| 0 <= j < i ==> s[j] < v,
            decreases s.len() - i,
        {
            i = i + 1;
        }
        proof {
            lemma_insert_sorted(s, v);
        }
        if i < self.members.len() && self.members[i] == v {
            assert(s.contains(v)) by {
                assert(s[i as int] == v);
            }
            return false;
        }
        assert forall|j: int| i <= j < s.len() implies s[j] > v by {
            assert(s[i as int] != v);
            if j > i {
                assert(s[i as int] < s[j]);
            }
        }
        assert(!s.contains(v)) by {
            if s.contains(v) {
                let j = choose|j: int| 0 <= j < s.len() && s[j] == v;
                assert(j >= i);
            }
        }
        let ghost k2 = slot_of(s, v);
        assert(is_slot(s, v, i as int));
        assert(k2 == i) by {
            assert(0 <= k2 <= s.len());
            if k2 < i {
                assert(s[k2] < v);
            } else if k2 > i {
                assert(s[i as int] < v);
            }
        }
        self.members.insert(i, v);
        true
    }

    /// Removes `v`; returns whether it was a member. The others keep their
    /// order.
    pub fn remove(&mut self, v: u64) -> (r: bool)
        requires
            old(self).wf(),
        ensures
            final(self).wf(),
            final(self)@ == old(self)@.remove(v),
            r == old(self)@.contains(v),
            final(self).order() == if r {
                old(self).order().remove(old(self).order().index_of(v))
            } else {
                old(self).order()
            },
    {
        let ghost s = self.members@;
        let mut i: usize = 0;
        while i < self.members.len()
            invariant
                self.members@ == s,
                old(self).members@ == s,
                increasing(s),
                0 <= i <= s.len(),
                forall|j: int| 0 <= j < i ==> s[j] != v,
            decreases s.len() - i,
        {
            if self.members[i] == v {
                self.members.remove(i);
                let ghost t = self.members@;
                proof {
                    lemma_remove_sorted(s, i as int);
                }
                assert(t.to_set() =~= s.to_set().remove(v)) by {
                    assert forall|x: u64| t.contains(x) <==> (s.contains(x) && x != v) by {
                        if t.contains(x) {
                            let j = choose|j: int| 0 <= j < t.len() && t[j] == x;
                            let j2 = if j < i { j } else { j + 1 };
                            assert(s[j2] == x);
                            assert(j2 != i);
                        }
                        if s.contains(x) && x != v {
                            let j = choose|j: int| 0 <= j < s.len() && s[j] == x;
                            assert(j != i);
                            let j2 = if j < i { j } else { j - 1 };
                            assert(t[j2] == x);
                        }
                    }
                }
                assert(s.to_set().contains(v)) by {
                    assert(s[i as int] == v);
                }
                assert(s.index_of(v) == i) by {
                    assert(s[i as int] == v);
                    let k = s.index_of(v);
                    assert(0 <= k < s.len() && s[k] == v);
                }
                return true;
            }
            i = i + 1;
        }
        assert(!s.contains(v));
        assert(s.to_set().remove(v) =~= s.to_set());
        false
    }
}

} // verus!

verus! {

/// Where a membership set lives: the waiting tasks or the children of the
/// context with this id. The set may no longer exist, once the context has
/// been cancelled.
#[derive(Clone, Copy, Debug, PartialEq, Eq, Structural)]
pub enum Owner {
    /// The tasks waiting for the context's cancellation.
    Waiters(usize),
    /// The live children of the context.
    Children(usize),
}

impl Owner {
    /// The id of the context that holds the set.
    pub open spec fn node(self) -> int {
        match self {
            Owner::Waiters(i) => i as int,
            Owner::Children(i) => i as int,
        }
    }

    /// The id of the context that holds the set.
    pub fn id(self) -> (r: usize)
        ensures
            r == self.node(),
    {
        match self {
            Owner::Waiters(i) => i,
            Owner::Children(i) => i,
        }
    }
}

/// A membership in a set reached through an [`Owner`]; releasing it removes
/// the member again.
pub struct SharedSetHandle {
    owner: Owner,
    value: u64,
}

impl SharedSetHandle {
    /// Where the member was added.
    pub closed spec fn owner(&self) -> Owner {
        self.owner
    }

    /// The member.
    pub closed spec fn value(&self) -> u64 {
        self.value
    }

    /// A handle for the member `value` of the set at `owner`.
    pub(crate) fn from_parts(owner: Owner, value: u64) -> (r: Self)
        ensures
            r.owner() == owner,
            r.value() == value,
    {
        SharedSetHandle { owner, value }
    }

    /// The member.
    pub fn member(&self) -> (r: u64)
        ensures
            r == self.value(),
    {
        self.value
    }

    /// The id of the context that holds the set.
    pub fn owner_id(&self) -> (r: usize)
        ensures
            r == self.owner().node(),
    {
        self.owner.id()
    }

    /// Removes the member from the set of waiting tasks, if the set still
    /// exists.
    pub fn release(self, rt: &mut Runtime)
        requires
            old(rt).wf(),
            self.owner() is Waiters,
        ensures
            final(rt).wf(),
            final(rt)@ == old(rt)@.without_waiter(self.owner().node(), self.value()),
    {
        rt.remove_waiter(self.owner.id(), self.value);
    }
}

/// Adds `value` to the set of tasks waiting on context `ctx`, if that context
/// is still live, and returns the handle that removes it again. Children are
/// added to a context only by forking it.
pub fn insert(rt: &mut Runtime, ctx: usize, value: u64) -> (r: Option<SharedSetHandle>)
    requires
        old(rt).wf(),
    ensures
        final(rt).wf(),
        final(rt)@ == old(rt)@.with_waiter(ctx as int, value),
        r is Some <==> old(rt)@.live(ctx as int),
        r is Some ==> r->0.owner() == Owner::Waiters(ctx) && r->0.value() == value,
{
    if rt.add_waiter(ctx, value) {
        Some(SharedSetHandle { owner: Owner::Waiters(ctx), value })
    } else {
        None
    }
}

} // verus!
