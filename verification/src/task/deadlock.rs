//! The wait-for graph of a process, and what makes it a deadlock.

use crate::sync::mutex::MutexState;
use crate::sync::semaphore::SemaphoreState;
use vstd::prelude::*;

verus! {

/// Which threads wait for, and which hold, each resource of a process. A thread waits for the
/// resource of smallest index that it is queued at.
#[verifier::ext_equal]
pub struct WaitGraph {
    /// The threads queued at each resource.
    pub waiters: Seq<Set<usize>>,
    /// The threads holding each resource.
    pub holders: Seq<Set<usize>>,
}

impl WaitGraph {
    /// Every resource has a set of waiters, which is finite, and a set of holders.
    pub open spec fn wf(self) -> bool {
        &&& self.waiters.len() == self.holders.len()
        &&& forall|id: int| 0 <= id < self.waiters.len() ==> (#[trigger] self.waiters[id]).finite()
    }

    /// `tid` is queued at resource `id`.
    pub open spec fn waits_at(self, tid: usize, id: int) -> bool {
        0 <= id < self.waiters.len() && self.waiters[id].contains(tid)
    }

    /// `id` is the resource that `tid` waits for.
    pub open spec fn waits_first_at(self, tid: usize, id: int) -> bool {
        self.waits_at(tid, id) && forall|j: int| 0 <= j < id ==> !self.waits_at(tid, j)
    }

    /// `tid` is not queued anywhere.
    pub open spec fn runs(self, tid: usize) -> bool {
        forall|id: int| !self.waits_at(tid, id)
    }

    /// No thread is queued at two resources.
    pub open spec fn waits_once(self) -> bool {
        forall|tid: usize, i: int, j: int|
            self.waits_at(tid, i) && self.waits_at(tid, j) ==> i == j
    }

    /// `a` waits for a resource that `b` holds.
    pub open spec fn waits_for(self, a: usize, b: usize) -> bool {
        exists|id: int| #[trigger] self.waits_first_at(a, id) && self.holders[id].contains(b)
    }

    /// Each thread of the chain waits for the next one.
    pub open spec fn is_chain(self, chain: Seq<usize>) -> bool {
        &&& chain.len() > 0
        &&& forall|i: int|
            0 <= i < chain.len() - 1 ==> self.waits_for(#[trigger] chain[i], chain[i + 1])
    }

    /// A chain of waiting threads leads from `a` to `b`; the chain may be `a` alone.
    pub open spec fn reaches(self, a: usize, b: usize) -> bool {
        exists|chain: Seq<usize>|
            #[trigger] self.is_chain(chain) && chain.first() == a && chain.last() == b
    }

    /// Some thread waits at a resource that is held by a thread from which a chain leads back.
    pub open spec fn has_cycle(self) -> bool {
        exists|id: int, w: usize, h: usize|
            #[trigger] self.waits_at(w, id) && #[trigger] self.holders[id].contains(h)
                && self.reaches(h, w)
    }

    /// Resource `id` is held by a thread from which a chain leads to `tid`.
    pub open spec fn closes_cycle(self, tid: usize, id: int) -> bool {
        0 <= id < self.holders.len() && exists|h: usize| #[trigger]
            self.holders[id].contains(h) && self.reaches(h, tid)
    }

    /// Resource `id` is held, and by members of `d` only.
    pub open spec fn held_within(self, id: int, d: Set<usize>) -> bool {
        &&& exists|h: usize| self.holders[id].contains(h)
        &&& forall|h: usize| self.holders[id].contains(h) ==> d.contains(h)
    }

    /// `tid` waits at a resource that only members of `d` can give back.
    pub open spec fn blocked_within(self, tid: usize, d: Set<usize>) -> bool {
        exists|id: int| #[trigger] self.waits_at(tid, id) && self.held_within(id, d)
    }

    /// Each member of `d` waits for what only members of `d` can give back. A mutex can be given
    /// back by its owner, a semaphore by any thread that holds a unit.
    pub open spec fn stuck(self, d: Set<usize>) -> bool {
        forall|t: usize| #[trigger] d.contains(t) ==> self.blocked_within(t, d)
    }

    /// `tid` belongs to a group of threads none of which can ever go on.
    pub open spec fn in_deadlock(self, tid: usize) -> bool {
        exists|d: Set<usize>| #[trigger] self.stuck(d) && d.contains(tid)
    }

    /// There are threads none of which can ever go on.
    pub open spec fn deadlocked(self) -> bool {
        exists|d: Set<usize>| #[trigger] self.stuck(d) && !d.is_empty()
    }

    /// If `tid` waited at resource `id`, it could never go on, and would be one of those that it
    /// waits for.
    pub open spec fn would_deadlock(self, tid: usize, id: int) -> bool {
        &&& self.closes_cycle(tid, id)
        &&& self.add_waiter(tid, id).in_deadlock(tid)
    }

    /// The resources of two graphs in one, those of `self` first.
    pub open spec fn joined(self, other: WaitGraph) -> WaitGraph {
        WaitGraph {
            waiters: self.waiters + other.waiters,
            holders: self.holders + other.holders,
        }
    }

    /// The set holds every thread that one of its members waits for.
    pub open spec fn closed_set(self, s: Set<usize>) -> bool {
        forall|x: usize, y: usize|
            s.contains(x) && #[trigger] self.waits_for(x, y) ==> s.contains(y)
    }

    /// The threads that a chain from `a` leads to.
    pub open spec fn reachable(self, a: usize) -> Set<usize> {
        Set::new(|x: usize| self.reaches(a, x))
    }

    /// The threads queued at one of the first `n` resources.
    pub open spec fn queued(self, n: int) -> Set<usize>
        decreases n,
    {
        if n <= 0 {
            Set::empty()
        } else {
            self.queued(n - 1).union(self.waiters[n - 1])
        }
    }

    /// All queued threads.
    pub open spec fn all_queued(self) -> Set<usize> {
        self.queued(self.waiters.len() as int)
    }
}

/// The threads that own a mutex: one or none.
pub open spec fn owners(state: MutexState) -> Set<usize> {
    match state.owner {
        Some(owner) => set![owner],
        None => Set::empty(),
    }
}

/// The threads that hold a unit of a semaphore.
pub open spec fn unit_holders(state: SemaphoreState) -> Set<usize> {
    Set::new(|tid: usize| crate::sync::semaphore::units_of(state.holders, tid) > 0)
}

impl WaitGraph {
    /// The graph of the mutexes of a process.
    pub open spec fn of_mutexes(states: Seq<Option<MutexState>>) -> WaitGraph {
        WaitGraph {
            waiters: states.map_values(
                |slot: Option<MutexState>|
                    match slot {
                        Some(state) => state.waiters.to_set(),
                        None => Set::empty(),
                    },
            ),
            holders: states.map_values(
                |slot: Option<MutexState>|
                    match slot {
                        Some(state) => owners(state),
                        None => Set::empty(),
                    },
            ),
        }
    }

    /// The graph of the semaphores of a process.
    pub open spec fn of_semaphores(states: Seq<Option<SemaphoreState>>) -> WaitGraph {
        WaitGraph {
            waiters: states.map_values(
                |slot: Option<SemaphoreState>|
                    match slot {
                        Some(state) => state.waiters.to_set(),
                        None => Set::empty(),
                    },
            ),
            holders: states.map_values(
                |slot: Option<SemaphoreState>|
                    match slot {
                        Some(state) => unit_holders(state),
                        None => Set::empty(),
                    },
            ),
        }
    }
}

/// The graph of mutexes has finite queues.
pub proof fn lemma_of_mutexes_wf(states: Seq<Option<MutexState>>)
    ensures
        WaitGraph::of_mutexes(states).wf(),
{
    let g = WaitGraph::of_mutexes(states);
    assert forall|id: int| 0 <= id < g.waiters.len() implies (#[trigger] g.waiters[id]).finite() by {
        match states[id] {
            Some(state) => {
                vstd::seq_lib::seq_to_set_is_finite(state.waiters);
            },
            None => {},
        }
    }
}

/// The graph of semaphores has finite queues.
pub proof fn lemma_of_semaphores_wf(states: Seq<Option<SemaphoreState>>)
    ensures
        WaitGraph::of_semaphores(states).wf(),
{
    let g = WaitGraph::of_semaphores(states);
    assert forall|id: int| 0 <= id < g.waiters.len() implies (#[trigger] g.waiters[id]).finite() by {
        match states[id] {
            Some(state) => {
                vstd::seq_lib::seq_to_set_is_finite(state.waiters);
            },
            None => {},
        }
    }
}

/// Finitely many threads are queued, and they are those that wait at some resource.
pub proof fn lemma_queued(g: WaitGraph, n: int)
    requires
        g.wf(),
        0 <= n <= g.waiters.len(),
    ensures
        g.queued(n).finite(),
        forall|t: usize, id: int| 0 <= id < n && g.waits_at(t, id) ==> g.queued(n).contains(t),
    decreases n,
{
    if n > 0 {
        lemma_queued(g, n - 1);
        assert(g.waiters[n - 1].finite());
    }
}

/// Every thread reaches itself.
pub proof fn lemma_reaches_self(g: WaitGraph, a: usize)
    ensures
        g.reaches(a, a),
{
    let chain = seq![a];
    assert(g.is_chain(chain) && chain.first() == a && chain.last() == a);
}

/// A chain can be made longer at its end.
pub proof fn lemma_reaches_step(g: WaitGraph, a: usize, b: usize, c: usize)
    requires
        g.reaches(a, b),
        g.waits_for(b, c),
    ensures
        g.reaches(a, c),
{
    let chain = choose|chain: Seq<usize>|
        #[trigger] g.is_chain(chain) && chain.first() == a && chain.last() == b;
    let longer = chain.push(c);
    assert forall|i: int| 0 <= i < longer.len() - 1 implies g.waits_for(
        #[trigger] longer[i],
        longer[i + 1],
    ) by {
        if i < chain.len() - 1 {
            assert(g.waits_for(chain[i], chain[i + 1]));
        }
    }
    assert(g.is_chain(longer) && longer.first() == a && longer.last() == c);
}

/// No chain leads out of a closed set.
pub proof fn lemma_closed_set(g: WaitGraph, s: Set<usize>, a: usize, b: usize)
    requires
        g.closed_set(s),
        s.contains(a),
        g.reaches(a, b),
    ensures
        s.contains(b),
{
    let chain = choose|chain: Seq<usize>|
        #[trigger] g.is_chain(chain) && chain.first() == a && chain.last() == b;
    lemma_chain_stays(g, s, chain, chain.len() - 1);
}

/// Each thread of a chain that starts in a closed set lies in it.
proof fn lemma_chain_stays(g: WaitGraph, s: Set<usize>, chain: Seq<usize>, i: int)
    requires
        g.closed_set(s),
        g.is_chain(chain),
        s.contains(chain[0]),
        0 <= i < chain.len(),
    ensures
        s.contains(chain[i]),
    decreases i,
{
    if i > 0 {
        lemma_chain_stays(g, s, chain, i - 1);
        assert(g.waits_for(chain[i - 1], chain[i - 1 + 1]));
    }
}

/// What a thread reaches is closed.
pub proof fn lemma_reachable_closed(g: WaitGraph, a: usize)
    ensures
        g.closed_set(g.reachable(a)),
        g.reachable(a).contains(a),
{
    lemma_reaches_self(g, a);
    assert forall|x: usize, y: usize|
        g.reachable(a).contains(x) && #[trigger] g.waits_for(x, y) implies g.reachable(
        a,
    ).contains(y) by {
        lemma_reaches_step(g, a, x, y);
    }
}

/// Reaching is transitive.
pub proof fn lemma_reaches_trans(g: WaitGraph, a: usize, b: usize, c: usize)
    requires
        g.reaches(a, b),
        g.reaches(b, c),
    ensures
        g.reaches(a, c),
{
    lemma_reachable_closed(g, a);
    lemma_closed_set(g, g.reachable(a), b, c);
}

/// A thread that is not queued waits for nobody.
pub proof fn lemma_runs_waits_for_none(g: WaitGraph, tid: usize)
    requires
        g.runs(tid),
    ensures
        forall|y: usize| !g.waits_for(tid, y),
{
    assert forall|y: usize| !g.waits_for(tid, y) by {
        if g.waits_for(tid, y) {
            let id = choose|id: int|
                #[trigger] g.waits_first_at(tid, id) && g.holders[id].contains(y);
            assert(g.waits_at(tid, id));
        }
    }
}

/// A queued thread waits for the holders of the resource it is queued at first.
pub proof fn lemma_waits_for_holders(g: WaitGraph, tid: usize, id: int)
    requires
        g.waits_first_at(tid, id),
    ensures
        forall|y: usize| g.waits_for(tid, y) <==> g.holders[id].contains(y),
{
    assert forall|y: usize| g.waits_for(tid, y) implies g.holders[id].contains(y) by {
        let k = choose|k: int| #[trigger] g.waits_first_at(tid, k) && g.holders[k].contains(y);
        assert(g.waits_at(tid, k) && g.waits_at(tid, id));
    }
}

impl WaitGraph {
    /// The graph once `tid` has joined the queue of resource `id`.
    pub open spec fn add_waiter(self, tid: usize, id: int) -> WaitGraph {
        WaitGraph { waiters: self.waiters.update(id, self.waiters[id].insert(tid)), ..self }
    }

    /// The graph with other waiters and holders at resource `id`.
    pub open spec fn with_resource(
        self,
        id: int,
        waiters: Set<usize>,
        holders: Set<usize>,
    ) -> WaitGraph {
        WaitGraph {
            waiters: self.waiters.update(id, waiters),
            holders: self.holders.update(id, holders),
        }
    }
}

/// Graphs with the same edges have the same chains.
proof fn lemma_same_edges_reach(g: WaitGraph, h: WaitGraph, a: usize, b: usize)
    requires
        forall|x: usize, y: usize| g.waits_for(x, y) ==> h.waits_for(x, y),
        g.reaches(a, b),
    ensures
        h.reaches(a, b),
{
    let chain = choose|chain: Seq<usize>|
        #[trigger] g.is_chain(chain) && chain.first() == a && chain.last() == b;
    assert forall|i: int| 0 <= i < chain.len() - 1 implies h.waits_for(
        #[trigger] chain[i],
        chain[i + 1],
    ) by {
        assert(g.waits_for(chain[i], chain[i + 1]));
    }
    assert(h.is_chain(chain));
}

/// A thread that a group keeps from going on is kept so by a larger group.
pub proof fn lemma_blocked_within_more(g: WaitGraph, tid: usize, d: Set<usize>, e: Set<usize>)
    requires
        d.subset_of(e),
        g.blocked_within(tid, d),
    ensures
        g.blocked_within(tid, e),
{
    let id = choose|id: int| #[trigger] g.waits_at(tid, id) && g.held_within(id, d);
    assert(g.waits_at(tid, id) && g.held_within(id, e));
}

/// A set that is not empty has a member.
proof fn lemma_member(d: Set<usize>) -> (t: usize)
    requires
        !d.is_empty(),
    ensures
        d.contains(t),
{
    if forall|x: usize| !d.contains(x) {
        assert(d =~= Set::<usize>::empty());
    }
    choose|x: usize| d.contains(x)
}

/// There is a deadlock exactly when some thread is in one.
pub proof fn lemma_deadlocked_thread(g: WaitGraph)
    ensures
        g.deadlocked() <==> exists|t: usize| g.in_deadlock(t),
{
    if g.deadlocked() {
        let d = choose|d: Set<usize>| #[trigger] g.stuck(d) && !d.is_empty();
        let t = lemma_member(d);
        assert(g.in_deadlock(t));
    }
    if exists|t: usize| g.in_deadlock(t) {
        let t = choose|t: usize| g.in_deadlock(t);
        let d = choose|d: Set<usize>| #[trigger] g.stuck(d) && d.contains(t);
        assert(g.stuck(d) && !d.is_empty());
    }
}

/// A running thread that joins the queue of a resource completes a deadlock exactly when
/// [`WaitGraph::would_deadlock`] says so beforehand.
pub proof fn law_waiting_deadlocks_iff_predicted(g: WaitGraph, tid: usize, id: int)
    requires
        g.wf(),
        g.waits_once(),
        g.runs(tid),
        0 <= id < g.waiters.len(),
        !g.deadlocked(),
    ensures
        g.add_waiter(tid, id).deadlocked() <==> g.would_deadlock(tid, id),
        g.add_waiter(tid, id).waits_once(),
        g.add_waiter(tid, id).wf(),
{
    let h = g.add_waiter(tid, id);
    assert forall|k: int| 0 <= k < h.waiters.len() implies (#[trigger] h.waiters[k]).finite() by {
        assert(g.waiters[k].finite());
    }
    assert forall|x: usize, k: int|
        h.waits_at(x, k) <==> g.waits_at(x, k) || x == tid && k == id by {}
    assert forall|t: usize, i: int, j: int| h.waits_at(t, i) && h.waits_at(t, j) implies i
        == j by {
        if t == tid {
            assert(!g.waits_at(t, i) && !g.waits_at(t, j));
        } else {
            assert(g.waits_at(t, i) && g.waits_at(t, j));
        }
    }
    lemma_deadlocked_thread(h);
    if h.deadlocked() && !g.would_deadlock(tid, id) {
        let d = choose|d: Set<usize>| #[trigger] h.stuck(d) && !d.is_empty();
        // the members of `d` that a chain from a holder leads to
        let e = Set::new(
            |x: usize|
                d.contains(x) && exists|n: usize| #[trigger]
                    g.holders[id].contains(n) && g.reaches(n, x),
        );
        if d.contains(tid) {
            assert(h.in_deadlock(tid));
            assert(!g.closes_cycle(tid, id));
            assert(h.blocked_within(tid, d));
            let k = choose|k: int| #[trigger] h.waits_at(tid, k) && h.held_within(k, d);
            assert(!g.waits_at(tid, k));
            assert(k == id);
            let n = choose|n: usize| h.holders[id].contains(n);
            lemma_reaches_self(g, n);
            assert(g.holders[id].contains(n) && g.reaches(n, n));
            assert(e.contains(n));
            assert forall|t: usize| #[trigger] e.contains(t) implies g.blocked_within(t, e) by {
                let n = choose|n: usize| #[trigger]
                    g.holders[id].contains(n) && g.reaches(n, t);
                assert(t != tid);
                assert(h.blocked_within(t, d));
                let k = choose|k: int| #[trigger] h.waits_at(t, k) && h.held_within(k, d);
                assert(g.waits_at(t, k));
                assert(g.waits_first_at(t, k));
                assert forall|y: usize| g.holders[k].contains(y) implies e.contains(y) by {
                    assert(h.holders[k].contains(y));
                    assert(g.waits_for(t, y));
                    lemma_reaches_step(g, n, t, y);
                }
                assert(g.held_within(k, e));
            }
            assert(g.stuck(e) && !e.is_empty());
        } else {
            assert forall|t: usize| #[trigger] d.contains(t) implies g.blocked_within(t, d) by {
                assert(h.blocked_within(t, d));
                let k = choose|k: int| #[trigger] h.waits_at(t, k) && h.held_within(k, d);
                assert(g.waits_at(t, k) && g.held_within(k, d));
            }
            assert(g.stuck(d));
        }
    }
}

/// A resource that nobody waits for can change hands without a deadlock appearing.
pub proof fn law_uncontended_change_is_safe(g: WaitGraph, id: int, holders: Set<usize>)
    requires
        g.wf(),
        0 <= id < g.waiters.len(),
        g.waiters[id] == Set::<usize>::empty(),
    ensures
        g.with_resource(id, Set::empty(), holders).deadlocked() <==> g.deadlocked(),
        g.with_resource(id, Set::empty(), holders).waits_once() <==> g.waits_once(),
        g.with_resource(id, Set::empty(), holders).wf(),
{
    let h = g.with_resource(id, Set::empty(), holders);
    assert(h.waiters =~= g.waiters);
    assert forall|x: usize, k: int| h.waits_at(x, k) <==> g.waits_at(x, k) by {}
    if g.deadlocked() {
        let d = choose|d: Set<usize>| #[trigger] g.stuck(d) && !d.is_empty();
        assert forall|t: usize| #[trigger] d.contains(t) implies h.blocked_within(t, d) by {
            assert(g.blocked_within(t, d));
            let k = choose|k: int| #[trigger] g.waits_at(t, k) && g.held_within(k, d);
            assert(h.waits_at(t, k) && k != id);
            assert(h.holders[k] == g.holders[k]);
            assert(h.held_within(k, d));
        }
        assert(h.stuck(d));
    }
    if h.deadlocked() {
        let d = choose|d: Set<usize>| #[trigger] h.stuck(d) && !d.is_empty();
        assert forall|t: usize| #[trigger] d.contains(t) implies g.blocked_within(t, d) by {
            assert(h.blocked_within(t, d));
            let k = choose|k: int| #[trigger] h.waits_at(t, k) && h.held_within(k, d);
            assert(g.waits_at(t, k) && k != id);
            assert(h.holders[k] == g.holders[k]);
            assert(g.held_within(k, d));
        }
        assert(g.stuck(d));
    }
}

/// Handing a resource to one of its waiters never makes a deadlock.
pub proof fn law_handing_over_is_safe(g: WaitGraph, id: int, next: usize, holders: Set<usize>)
    requires
        g.wf(),
        g.waits_once(),
        g.waits_at(next, id),
        holders.contains(next),
        !g.deadlocked(),
    ensures
        !g.with_resource(id, g.waiters[id].remove(next), holders).deadlocked(),
        g.with_resource(id, g.waiters[id].remove(next), holders).waits_once(),
        g.with_resource(id, g.waiters[id].remove(next), holders).wf(),
        g.with_resource(id, g.waiters[id].remove(next), holders).runs(next),
{
    let h = g.with_resource(id, g.waiters[id].remove(next), holders);
    assert forall|k: int| 0 <= k < h.waiters.len() implies (#[trigger] h.waiters[k]).finite() by {
        assert(g.waiters[k].finite());
    }
    assert forall|x: usize, k: int|
        h.waits_at(x, k) <==> g.waits_at(x, k) && !(x == next && k == id) by {}
    assert forall|k: int| !h.waits_at(next, k) by {
        if h.waits_at(next, k) {
            assert(g.waits_at(next, k));
        }
    }
    if h.deadlocked() {
        let d = choose|d: Set<usize>| #[trigger] h.stuck(d) && !d.is_empty();
        assert(!d.contains(next)) by {
            if d.contains(next) {
                assert(h.blocked_within(next, d));
            }
        }
        assert forall|t: usize| #[trigger] d.contains(t) implies g.blocked_within(t, d) by {
            assert(h.blocked_within(t, d));
            let k = choose|k: int| #[trigger] h.waits_at(t, k) && h.held_within(k, d);
            assert(g.waits_at(t, k));
            assert(k != id) by {
                if k == id {
                    assert(h.holders[k].contains(next));
                }
            }
            assert(h.holders[k] == g.holders[k]);
            assert(g.held_within(k, d));
        }
        assert(g.stuck(d));
    }
}

/// A chain of threads each of which waits for a resource that has one holder, the next thread,
/// keeps all of them from going on once the last one waits for the first.
pub proof fn lemma_single_holders_cycle(g: WaitGraph, tid: usize, id: int)
    requires
        0 <= id < g.waiters.len(),
        g.waiters.len() == g.holders.len(),
        g.closes_cycle(tid, id),
        forall|k: int, a: usize, b: usize|
            0 <= k < g.holders.len() && #[trigger] g.holders[k].contains(a)
                && #[trigger] g.holders[k].contains(b) && (k == id || exists|t: usize|
                g.waits_at(t, k)) ==> a == b,
    ensures
        g.add_waiter(tid, id).in_deadlock(tid),
{
    let h = g.add_waiter(tid, id);
    let n = choose|n: usize| #[trigger] g.holders[id].contains(n) && g.reaches(n, tid);
    let chain = choose|chain: Seq<usize>|
        #[trigger] g.is_chain(chain) && chain.first() == n && chain.last() == tid;
    let d = chain.to_set();
    assert(chain.contains(chain[0]) && chain.contains(chain[chain.len() - 1]));
    assert forall|t: usize| #[trigger] d.contains(t) implies h.blocked_within(t, d) by {
        if t == tid {
            assert(h.waits_at(t, id));
            assert(h.holders[id].contains(n));
            assert forall|y: usize| h.holders[id].contains(y) implies d.contains(y) by {
                assert(g.holders[id].contains(y) && g.holders[id].contains(n));
            }
            assert(h.held_within(id, d));
        } else {
            assert(chain.contains(t));
            let i = choose|i: int| 0 <= i < chain.len() && chain[i] == t;
            assert(i < chain.len() - 1);
            assert(g.waits_for(chain[i], chain[i + 1]));
            let next = chain[i + 1];
            let k = choose|k: int| #[trigger] g.waits_first_at(t, k) && g.holders[k].contains(next);
            assert(g.waits_at(t, k));
            assert(h.waits_at(t, k));
            assert(chain.contains(next));
            assert(h.holders[k].contains(next));
            assert forall|y: usize| h.holders[k].contains(y) implies d.contains(y) by {
                assert(g.holders[k].contains(y) && g.holders[k].contains(next));
            }
            assert(h.held_within(k, d));
        }
    }
    assert(h.stuck(d) && d.contains(tid));
}

/// Following the waits of a stuck group leads into a cycle.
proof fn lemma_stuck_cycle(g: WaitGraph, d: Set<usize>, t: usize)
    requires
        g.wf(),
        g.waits_once(),
        g.stuck(d),
        d.finite(),
        d.contains(t),
    ensures
        g.has_cycle(),
    decreases g.reachable(t).len(),
{
    assert(g.closed_set(d)) by {
        assert forall|x: usize, y: usize|
            d.contains(x) && #[trigger] g.waits_for(x, y) implies d.contains(y) by {
            assert(g.blocked_within(x, d));
            let k = choose|k: int| #[trigger] g.waits_at(x, k) && g.held_within(k, d);
            let j = choose|j: int| #[trigger] g.waits_first_at(x, j) && g.holders[j].contains(y);
            assert(g.waits_at(x, j));
        }
    }
    assert(g.blocked_within(t, d));
    let id = choose|id: int| #[trigger] g.waits_at(t, id) && g.held_within(id, d);
    let h = choose|h: usize| g.holders[id].contains(h);
    assert(g.waits_first_at(t, id));
    assert(g.waits_for(t, h));
    if !g.reaches(h, t) {
        let from_t = g.reachable(t);
        let from_h = g.reachable(h);
        assert forall|x: usize| from_t.contains(x) implies d.contains(x) by {
            lemma_closed_set(g, d, t, x);
        }
        vstd::set_lib::lemma_set_subset_finite(d, from_t);
        lemma_reaches_self(g, t);
        lemma_reaches_step(g, t, t, h);
        assert forall|x: usize| from_h.contains(x) implies from_t.remove(t).contains(x) by {
            lemma_reaches_trans(g, t, h, x);
        }
        vstd::set_lib::lemma_len_subset(from_h, from_t.remove(t));
        lemma_stuck_cycle(g, d, h);
    }
}

/// Where no thread waits at two resources, every deadlock holds a cycle: a thread that waits for
/// another from which a chain leads back.
pub proof fn law_deadlock_has_a_cycle(g: WaitGraph)
    requires
        g.wf(),
        g.waits_once(),
        g.deadlocked(),
    ensures
        g.has_cycle(),
        exists|a: usize, b: usize| g.waits_for(a, b) && g.reaches(b, a),
{
    let d = choose|d: Set<usize>| #[trigger] g.stuck(d) && !d.is_empty();
    let t = lemma_member(d);
    lemma_queued(g, g.waiters.len() as int);
    assert forall|x: usize| d.contains(x) implies g.all_queued().contains(x) by {
        assert(g.blocked_within(x, d));
        let k = choose|k: int| #[trigger] g.waits_at(x, k) && g.held_within(k, d);
        assert(g.waits_at(x, k));
    }
    vstd::set_lib::lemma_set_subset_finite(g.all_queued(), d);
    lemma_stuck_cycle(g, d, t);
    let (id, w, h) = choose|id: int, w: usize, h: usize|
        #[trigger] g.waits_at(w, id) && #[trigger] g.holders[id].contains(h) && g.reaches(h, w);
    assert(g.waits_first_at(w, id));
    assert(g.waits_for(w, h) && g.reaches(h, w));
}

/// Among mutexes alone, where no thread waits at two of them, the deadlocks are the cycles.
pub proof fn law_mutex_deadlocks_are_cycles(states: Seq<Option<MutexState>>)
    requires
        WaitGraph::of_mutexes(states).waits_once(),
    ensures
        WaitGraph::of_mutexes(states).deadlocked() <==> WaitGraph::of_mutexes(states).has_cycle(),
{
    let g = WaitGraph::of_mutexes(states);
    lemma_of_mutexes_wf(states);
    if g.deadlocked() {
        law_deadlock_has_a_cycle(g);
    }
    if g.has_cycle() {
        let (id, w, h) = choose|id: int, w: usize, h: usize|
            #[trigger] g.waits_at(w, id) && #[trigger] g.holders[id].contains(h) && g.reaches(
                h,
                w,
            );
        assert(g.closes_cycle(w, id));
        lemma_single_holders_cycle(g, w, id);
        assert(g.waiters[id].insert(w) =~= g.waiters[id]);
        assert(g.waiters.update(id, g.waiters[id].insert(w)) =~= g.waiters);
        assert(g.add_waiter(w, id) == g);
        lemma_deadlocked_thread(g);
    }
}

/// Where nobody waits for a semaphore, a request for a mutex is predicted to deadlock exactly when
/// its owner waits, through a chain of mutexes, for the thread that asks.
pub proof fn law_mutex_prediction_without_semaphores(
    mutexes: Seq<Option<MutexState>>,
    semaphores: Seq<Option<SemaphoreState>>,
    tid: usize,
    id: int,
)
    requires
        0 <= id < mutexes.len(),
        forall|t: usize| WaitGraph::of_semaphores(semaphores).runs(t),
    ensures
        WaitGraph::of_mutexes(mutexes).joined(WaitGraph::of_semaphores(semaphores)).would_deadlock(
            tid,
            id,
        ) <==> WaitGraph::of_mutexes(mutexes).closes_cycle(tid, id),
{
    let m = WaitGraph::of_mutexes(mutexes);
    let s = WaitGraph::of_semaphores(semaphores);
    let g = m.joined(s);
    let count = m.waiters.len() as int;
    assert forall|x: usize, k: int| g.waits_at(x, k) <==> m.waits_at(x, k) by {
        if g.waits_at(x, k) && k >= count {
            assert(s.waits_at(x, k - count));
            assert(s.runs(x));
        }
    }
    assert forall|x: usize, k: int| g.waits_first_at(x, k) <==> m.waits_first_at(x, k) by {}
    assert forall|x: usize, y: usize| g.waits_for(x, y) <==> m.waits_for(x, y) by {
        if g.waits_for(x, y) {
            let k = choose|k: int| #[trigger] g.waits_first_at(x, k) && g.holders[k].contains(y);
            assert(m.waits_first_at(x, k));
            assert(m.waits_at(x, k));
            assert(m.holders[k] == g.holders[k]);
        }
        if m.waits_for(x, y) {
            let k = choose|k: int| #[trigger] m.waits_first_at(x, k) && m.holders[k].contains(y);
            assert(g.waits_first_at(x, k));
            assert(m.waits_at(x, k));
            assert(m.holders[k] == g.holders[k]);
        }
    }
    assert forall|x: usize, y: usize| g.reaches(x, y) <==> m.reaches(x, y) by {
        if g.reaches(x, y) {
            lemma_same_edges_reach(g, m, x, y);
        }
        if m.reaches(x, y) {
            lemma_same_edges_reach(m, g, x, y);
        }
    }
    assert(m.holders[id] == g.holders[id]);
    if g.closes_cycle(tid, id) {
        assert forall|k: int, a: usize, b: usize|
            0 <= k < g.holders.len() && #[trigger] g.holders[k].contains(a)
                && #[trigger] g.holders[k].contains(b) && (k == id || exists|t: usize|
                g.waits_at(t, k)) implies a == b by {
            if k != id {
                let t = choose|t: usize| g.waits_at(t, k);
                assert(m.waits_at(t, k));
            }
            assert(m.holders[k] == g.holders[k]);
        }
        lemma_single_holders_cycle(g, tid, id);
    }
}

/// Where nobody waits for a mutex and no semaphore has several holders, a request for a unit of a
/// semaphore without free ones is predicted to deadlock exactly when its holder waits, through a
/// chain of semaphores, for the thread that asks.
pub proof fn law_semaphore_prediction_without_mutexes(
    mutexes: Seq<Option<MutexState>>,
    semaphores: Seq<Option<SemaphoreState>>,
    tid: usize,
    id: int,
)
    requires
        0 <= id < semaphores.len(),
        forall|t: usize| WaitGraph::of_mutexes(mutexes).runs(t),
        forall|k: int, a: usize, b: usize|
            0 <= k < semaphores.len() && #[trigger] WaitGraph::of_semaphores(
                semaphores,
            ).holders[k].contains(a) && #[trigger] WaitGraph::of_semaphores(
                semaphores,
            ).holders[k].contains(b) ==> a == b,
    ensures
        WaitGraph::of_mutexes(mutexes).joined(WaitGraph::of_semaphores(semaphores)).would_deadlock(
            tid,
            mutexes.len() + id,
        ) <==> WaitGraph::of_semaphores(semaphores).closes_cycle(tid, id),
{
    let m = WaitGraph::of_mutexes(mutexes);
    let s = WaitGraph::of_semaphores(semaphores);
    let g = m.joined(s);
    let count = m.waiters.len() as int;
    assert forall|x: usize, k: int| #[trigger] g.waits_at(x, k) implies k >= count && s.waits_at(
        x,
        k - count,
    ) by {
        if k < count {
            assert(m.waits_at(x, k));
            assert(m.runs(x));
        }
    }
    assert forall|x: usize, k: int| #[trigger] s.waits_at(x, k) implies g.waits_at(
        x,
        k + count,
    ) by {}
    assert forall|x: usize, y: usize| g.waits_for(x, y) <==> s.waits_for(x, y) by {
        if g.waits_for(x, y) {
            let k = choose|k: int| #[trigger] g.waits_first_at(x, k) && g.holders[k].contains(y);
            assert(g.waits_at(x, k));
            assert forall|j: int| 0 <= j < k - count implies !s.waits_at(x, j) by {
                assert(!g.waits_at(x, j + count));
            }
            assert(s.waits_first_at(x, k - count));
            assert(s.holders[k - count] == g.holders[k]);
        }
        if s.waits_for(x, y) {
            let k = choose|k: int| #[trigger] s.waits_first_at(x, k) && s.holders[k].contains(y);
            assert(s.waits_at(x, k));
            assert forall|j: int| 0 <= j < k + count implies !g.waits_at(x, j) by {
                if g.waits_at(x, j) {
                    assert(!s.waits_at(x, j - count));
                }
            }
            assert(g.waits_first_at(x, k + count));
            assert(s.holders[k] == g.holders[k + count]);
        }
    }
    assert forall|x: usize, y: usize| g.reaches(x, y) <==> s.reaches(x, y) by {
        if g.reaches(x, y) {
            lemma_same_edges_reach(g, s, x, y);
        }
        if s.reaches(x, y) {
            lemma_same_edges_reach(s, g, x, y);
        }
    }
    assert(s.holders[id] == g.holders[count + id]);
    if g.closes_cycle(tid, count + id) {
        assert forall|k: int, a: usize, b: usize|
            0 <= k < g.holders.len() && #[trigger] g.holders[k].contains(a)
                && #[trigger] g.holders[k].contains(b) && (k == count + id || exists|t: usize|
                g.waits_at(t, k)) implies a == b by {
            if k != count + id {
                let t = choose|t: usize| g.waits_at(t, k);
                assert(g.waits_at(t, k));
            }
            assert(s.holders[k - count] == g.holders[k]);
        }
        lemma_single_holders_cycle(g, tid, count + id);
    }
}

} // verus!
