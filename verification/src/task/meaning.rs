//! What the words of deadlock detection mean, in terms of the locks themselves.
//!
//! The first laws read the wait-for graph off the owners, holders and queues of a process. The next
//! ones say what chains, cycles and deadlocks are in terms of its sets. The last ones name
//! situations in which every detector has to answer.

use super::deadlock::WaitGraph;
use super::process::ProcessControlBlockInner;
use crate::sync::mutex::MutexState;
use crate::sync::semaphore::SemaphoreState;
use vstd::prelude::*;

verus! {

/// In the graph of mutexes, whoever owns a mutex holds it, and nobody else does; whoever is in its
/// queue waits at it, and nobody else does.
pub proof fn law_graph_of_mutexes(states: Seq<Option<MutexState>>, id: int, t: usize)
    requires
        0 <= id < states.len(),
    ensures
        WaitGraph::of_mutexes(states).holders.len() == states.len(),
        WaitGraph::of_mutexes(states).waiters.len() == states.len(),
        WaitGraph::of_mutexes(states).holders[id].contains(t) <==> states[id] is Some
            && states[id]->0.owner == Some(t),
        WaitGraph::of_mutexes(states).waiters[id].contains(t) <==> states[id] is Some
            && states[id]->0.waiters.contains(t),
{
}

/// In the graph of semaphores, whoever has a unit of a semaphore holds it, and nobody else does;
/// whoever is in its queue waits at it, and nobody else does.
pub proof fn law_graph_of_semaphores(states: Seq<Option<SemaphoreState>>, id: int, t: usize)
    requires
        0 <= id < states.len(),
    ensures
        WaitGraph::of_semaphores(states).holders.len() == states.len(),
        WaitGraph::of_semaphores(states).waiters.len() == states.len(),
        WaitGraph::of_semaphores(states).holders[id].contains(t) <==> states[id] is Some
            && states[id]->0.holders.contains_key(t) && states[id]->0.holders[t] > 0,
        WaitGraph::of_semaphores(states).waiters[id].contains(t) <==> states[id] is Some
            && states[id]->0.waiters.contains(t),
{
}

/// The graph of a process has its mutexes, by their ids, and after them its semaphores, by theirs.
/// Their holders and waiters are the owners, unit holders and queues of the locks.
pub proof fn law_graph_of_a_process(inner: &ProcessControlBlockInner, t: usize)
    ensures
        inner.wait_graph().holders.len() == inner.mutex_list@.len() + inner.semaphore_list@.len(),
        inner.wait_graph().waiters.len() == inner.mutex_list@.len() + inner.semaphore_list@.len(),
        inner.mutex_graph().waiters == inner.wait_graph().waiters.take(
            inner.mutex_list@.len() as int,
        ),
        inner.mutex_graph().holders == inner.wait_graph().holders.take(
            inner.mutex_list@.len() as int,
        ),
        inner.semaphore_graph().waiters == inner.wait_graph().waiters.skip(
            inner.mutex_list@.len() as int,
        ),
        inner.semaphore_graph().holders == inner.wait_graph().holders.skip(
            inner.mutex_list@.len() as int,
        ),
        forall|k: int|
            0 <= k < inner.mutex_list@.len() ==> {
                &&& (#[trigger] inner.wait_graph().holders[k]).contains(t)
                    <==> inner.mutex_list@[k] is Some && inner.mutex_list@[k]->0.state().owner
                    == Some(t)
                &&& inner.wait_graph().waiters[k].contains(t) <==> inner.mutex_list@[k] is Some
                    && inner.mutex_list@[k]->0.state().waiters.contains(t)
            },
        forall|k: int|
            0 <= k < inner.semaphore_list@.len() ==> {
                &&& inner.wait_graph().holders[inner.mutex_list@.len() + k].contains(t) <==> (
                #[trigger] inner.semaphore_list@[k]) is Some
                    && inner.semaphore_list@[k]->0@.holders.contains_key(t)
                    && inner.semaphore_list@[k]->0@.holders[t] > 0
                &&& inner.wait_graph().waiters[inner.mutex_list@.len() + k].contains(t)
                    <==> inner.semaphore_list@[k] is Some
                    && inner.semaphore_list@[k]->0@.waiters.contains(t)
            },
{
    let g = inner.wait_graph();
    let count = inner.mutex_list@.len() as int;
    assert(inner.mutex_graph().waiters =~= g.waiters.take(count));
    assert(inner.mutex_graph().holders =~= g.holders.take(count));
    assert(inner.semaphore_graph().waiters =~= g.waiters.skip(count));
    assert(inner.semaphore_graph().holders =~= g.holders.skip(count));
    assert forall|k: int| 0 <= k < inner.semaphore_list@.len() implies {
        &&& inner.wait_graph().holders[inner.mutex_list@.len() + k].contains(t) <==> (
        #[trigger] inner.semaphore_list@[k]) is Some
            && inner.semaphore_list@[k]->0@.holders.contains_key(t)
            && inner.semaphore_list@[k]->0@.holders[t] > 0
        &&& inner.wait_graph().waiters[inner.mutex_list@.len() + k].contains(t)
            <==> inner.semaphore_list@[k] is Some
            && inner.semaphore_list@[k]->0@.waiters.contains(t)
    } by {
        assert(g.holders[count + k] == inner.semaphore_graph().holders[k]);
        assert(g.waiters[count + k] == inner.semaphore_graph().waiters[k]);
    }
}

/// A thread runs if it is in no queue. It waits at a resource in whose queue it is; of several, it
/// waits for that of the smallest number, and for every holder of it.
pub proof fn law_waiting_in_sets(g: WaitGraph, a: usize, b: usize, id: int)
    ensures
        g.waits_at(a, id) <==> 0 <= id < g.waiters.len() && g.waiters[id].contains(a),
        g.waits_first_at(a, id) <==> 0 <= id < g.waiters.len() && g.waiters[id].contains(a)
            && forall|j: int| 0 <= j < id ==> !(#[trigger] g.waiters[j]).contains(a),
        g.runs(a) <==> forall|j: int|
            0 <= j < g.waiters.len() ==> !(#[trigger] g.waiters[j]).contains(a),
        g.waits_for(a, b) <==> exists|k: int|
            0 <= k < g.waiters.len() && (#[trigger] g.waiters[k]).contains(a)
                && g.holders[k].contains(b) && forall|j: int|
                0 <= j < k ==> !(#[trigger] g.waiters[j]).contains(a),
{
    if g.waits_for(a, b) {
        let k = choose|k: int| #[trigger] g.waits_first_at(a, k) && g.holders[k].contains(b);
        assert(g.waiters[k].contains(a));
        assert forall|j: int| 0 <= j < k implies !(#[trigger] g.waiters[j]).contains(a) by {
            assert(!g.waits_at(a, j));
        }
    }
    if exists|k: int|
        0 <= k < g.waiters.len() && (#[trigger] g.waiters[k]).contains(a) && g.holders[k].contains(b)
            && forall|j: int| 0 <= j < k ==> !(#[trigger] g.waiters[j]).contains(a) {
        let k = choose|k: int|
            0 <= k < g.waiters.len() && (#[trigger] g.waiters[k]).contains(a)
                && g.holders[k].contains(b) && forall|j: int|
                0 <= j < k ==> !(#[trigger] g.waiters[j]).contains(a);
        assert(g.waits_first_at(a, k));
    }
    if g.waits_first_at(a, id) {
        assert forall|j: int| 0 <= j < id implies !(#[trigger] g.waiters[j]).contains(a) by {
            assert(!g.waits_at(a, j));
        }
    }
    if g.runs(a) {
        assert forall|j: int| 0 <= j < g.waiters.len() implies !(
        #[trigger] g.waiters[j]).contains(a) by {
            assert(!g.waits_at(a, j));
        }
    }
}

/// A thread is reached by a list of threads that starts and ends right and in which each waits for
/// the next.
pub proof fn law_reaching_is_by_chains(g: WaitGraph, a: usize, b: usize)
    ensures
        g.reaches(a, b) <==> exists|chain: Seq<usize>|
            chain.len() > 0 && #[trigger] chain.first() == a && chain.last() == b && forall|i: int|
                0 <= i < chain.len() - 1 ==> g.waits_for(#[trigger] chain[i], chain[i + 1]),
        g.reaches(a, a),
{
    super::deadlock::lemma_reaches_self(g, a);
    if g.reaches(a, b) {
        let chain = choose|chain: Seq<usize>|
            #[trigger] g.is_chain(chain) && chain.first() == a && chain.last() == b;
        assert(chain.first() == a);
    }
    if exists|chain: Seq<usize>|
        chain.len() > 0 && #[trigger] chain.first() == a && chain.last() == b && forall|i: int|
            0 <= i < chain.len() - 1 ==> g.waits_for(#[trigger] chain[i], chain[i + 1]) {
        let chain = choose|chain: Seq<usize>|
            chain.len() > 0 && #[trigger] chain.first() == a && chain.last() == b && forall|i: int|
                0 <= i < chain.len() - 1 ==> g.waits_for(#[trigger] chain[i], chain[i + 1]);
        assert(g.is_chain(chain));
    }
}

/// A group is stuck if each member is in the queue of a resource that is held, and by members only.
/// A deadlock is such a group that has a member.
pub proof fn law_deadlock_in_sets(g: WaitGraph, d: Set<usize>, tid: usize)
    ensures
        g.stuck(d) <==> forall|t: usize| #[trigger]
            d.contains(t) ==> exists|id: int|
                0 <= id < g.waiters.len() && (#[trigger] g.waiters[id]).contains(t) && (exists|
                    h: usize,
                | g.holders[id].contains(h)) && g.holders[id].subset_of(d),
        g.stuck(d) && d.contains(tid) ==> g.in_deadlock(tid) && g.deadlocked(),
        g.in_deadlock(tid) ==> exists|e: Set<usize>| #[trigger] g.stuck(e) && e.contains(tid),
        g.deadlocked() <==> exists|e: Set<usize>, t: usize| #[trigger]
            g.stuck(e) && #[trigger] e.contains(t),
{
    super::deadlock::lemma_deadlocked_thread(g);
    if g.stuck(d) {
        assert forall|t: usize| #[trigger] d.contains(t) implies exists|id: int|
            0 <= id < g.waiters.len() && (#[trigger] g.waiters[id]).contains(t) && (exists|h: usize|
                g.holders[id].contains(h)) && g.holders[id].subset_of(d) by {
            assert(g.blocked_within(t, d));
            let id = choose|id: int| #[trigger] g.waits_at(t, id) && g.held_within(id, d);
            assert(g.waiters[id].contains(t));
        }
    }
    if forall|t: usize| #[trigger]
        d.contains(t) ==> exists|id: int|
            0 <= id < g.waiters.len() && (#[trigger] g.waiters[id]).contains(t) && (exists|h: usize|
                g.holders[id].contains(h)) && g.holders[id].subset_of(d) {
        assert forall|t: usize| #[trigger] d.contains(t) implies g.blocked_within(t, d) by {
            let id = choose|id: int|
                0 <= id < g.waiters.len() && (#[trigger] g.waiters[id]).contains(t) && (exists|
                    h: usize,
                | g.holders[id].contains(h)) && g.holders[id].subset_of(d);
            assert(g.waits_at(t, id) && g.held_within(id, d));
        }
    }
    if g.deadlocked() {
        let t = choose|t: usize| g.in_deadlock(t);
        let e = choose|e: Set<usize>| #[trigger] g.stuck(e) && e.contains(t);
        assert(g.stuck(e) && e.contains(t));
    }
    if exists|e: Set<usize>, t: usize| #[trigger] g.stuck(e) && #[trigger] e.contains(t) {
        let (e, t) = choose|e: Set<usize>, t: usize| #[trigger]
            g.stuck(e) && #[trigger] e.contains(t);
        assert(g.in_deadlock(t));
    }
}

/// A request is predicted to deadlock if some holder of the resource reaches the thread that asks,
/// and that thread is stuck once it is in the queue, with all other queues and holders as they are.
pub proof fn law_prediction_in_sets(g: WaitGraph, tid: usize, id: int)
    requires
        0 <= id < g.waiters.len(),
        g.waiters.len() == g.holders.len(),
    ensures
        g.would_deadlock(tid, id) <==> (exists|h: usize| #[trigger]
            g.holders[id].contains(h) && g.reaches(h, tid)) && (exists|e: WaitGraph|
            e.holders == g.holders && e.waiters == g.waiters.update(id, g.waiters[id].insert(tid))
                && #[trigger] e.in_deadlock(tid)),
        g.closes_cycle(tid, id) <==> exists|h: usize| #[trigger]
            g.holders[id].contains(h) && g.reaches(h, tid),
        g.has_cycle() <==> exists|k: int, w: usize, h: usize|
            0 <= k < g.waiters.len() && #[trigger] g.waiters[k].contains(w)
                && #[trigger] g.holders[k].contains(h) && g.reaches(h, w),
{
    let f = g.add_waiter(tid, id);
    assert(f.holders == g.holders && f.waiters == g.waiters.update(id, g.waiters[id].insert(tid)));
    if exists|e: WaitGraph|
        e.holders == g.holders && e.waiters == g.waiters.update(id, g.waiters[id].insert(tid))
            && #[trigger] e.in_deadlock(tid) {
        let e = choose|e: WaitGraph|
            e.holders == g.holders && e.waiters == g.waiters.update(id, g.waiters[id].insert(tid))
                && #[trigger] e.in_deadlock(tid);
        assert(e == f);
    }
    if g.has_cycle() {
        let (k, w, h) = choose|k: int, w: usize, h: usize|
            #[trigger] g.waits_at(w, k) && #[trigger] g.holders[k].contains(h) && g.reaches(h, w);
        assert(g.waiters[k].contains(w) && g.holders[k].contains(h));
    }
    if exists|k: int, w: usize, h: usize|
        0 <= k < g.waiters.len() && #[trigger] g.waiters[k].contains(w)
            && #[trigger] g.holders[k].contains(h) && g.reaches(h, w) {
        let (k, w, h) = choose|k: int, w: usize, h: usize|
            0 <= k < g.waiters.len() && #[trigger] g.waiters[k].contains(w)
                && #[trigger] g.holders[k].contains(h) && g.reaches(h, w);
        assert(g.waits_at(w, k) && g.holders[k].contains(h));
    }
}

/// What a process is told of a request is the prediction for the lock that it names; a semaphore
/// with a free unit is never refused, and neither is a lock that is not there.
pub proof fn law_requests_of_a_process(inner: &ProcessControlBlockInner, tid: usize, id: int)
    ensures
        inner.mutex_would_deadlock(tid, id) <==> 0 <= id < inner.mutex_list@.len()
            && inner.wait_graph().would_deadlock(tid, id),
        inner.semaphore_would_deadlock(tid, id) <==> 0 <= id < inner.semaphore_list@.len()
            && inner.semaphore_list@[id] is Some && inner.semaphore_list@[id]->0@.count < 1
            && inner.wait_graph().would_deadlock(tid, inner.mutex_list@.len() + id),
        inner.mutex_would_deadlock(tid, id) ==> inner.mutex_list@[id] is Some
            && inner.mutex_list@[id]->0.state().owner is Some,
{
    if inner.mutex_would_deadlock(tid, id) {
        let g = inner.wait_graph();
        let h = choose|h: usize| #[trigger] g.holders[id].contains(h) && g.reaches(h, tid);
        law_graph_of_a_process(inner, h);
        assert(g.holders[id].contains(h));
    }
}

/// A thread that asks again for a mutex that it owns waits for itself: the request is predicted to
/// deadlock, whatever the number of the thread and whatever the other locks.
pub proof fn law_owner_that_asks_again_deadlocks(
    inner: &ProcessControlBlockInner,
    tid: usize,
    id: int,
)
    requires
        0 <= id < inner.mutex_list@.len(),
        inner.mutex_list@[id] is Some,
        inner.mutex_list@[id]->0.state().owner == Some(tid),
    ensures
        inner.mutex_would_deadlock(tid, id),
{
    let g = inner.wait_graph();
    law_graph_of_a_process(inner, tid);
    super::deadlock::lemma_reaches_self(g, tid);
    assert(g.holders[id].contains(tid));
    assert(g.closes_cycle(tid, id));
    let h = g.add_waiter(tid, id);
    let d = set![tid];
    assert(h.waits_at(tid, id));
    assert(h.held_within(id, d)) by {
        assert(h.holders[id].contains(tid));
        assert forall|o: usize| h.holders[id].contains(o) implies d.contains(o) by {
            law_graph_of_a_process(inner, o);
            assert(g.holders[id].contains(o));
        }
    }
    assert(h.stuck(d) && d.contains(tid));
}

/// A thread that owns the only unit of a semaphore and asks for another waits for itself.
pub proof fn law_sole_holder_that_asks_again_deadlocks(
    inner: &ProcessControlBlockInner,
    tid: usize,
    id: int,
)
    requires
        0 <= id < inner.semaphore_list@.len(),
        inner.semaphore_list@[id] is Some,
        inner.semaphore_list@[id]->0@.count <= 0,
        forall|t: usize|
            inner.semaphore_list@[id]->0@.holders.contains_key(t)
                && inner.semaphore_list@[id]->0@.holders[t] > 0 <==> t == tid,
    ensures
        inner.semaphore_would_deadlock(tid, id),
{
    let g = inner.wait_graph();
    let at = inner.mutex_list@.len() + id;
    law_graph_of_a_process(inner, tid);
    super::deadlock::lemma_reaches_self(g, tid);
    assert(inner.semaphore_list@[id] is Some);
    assert(g.holders[at].contains(tid));
    assert(g.closes_cycle(tid, at));
    let h = g.add_waiter(tid, at);
    let d = set![tid];
    assert(h.waits_at(tid, at));
    assert(h.held_within(at, d)) by {
        assert(h.holders[at].contains(tid));
        assert forall|o: usize| h.holders[at].contains(o) implies d.contains(o) by {
            law_graph_of_a_process(inner, o);
            assert(inner.semaphore_list@[id] is Some);
            assert(g.holders[at].contains(o));
        }
    }
    assert(h.stuck(d) && d.contains(tid));
}

/// Two threads that want each other's mutexes: if `a` owns `x`, and `b` owns `y` and waits for `x`,
/// then the request of `a` for `y` is predicted to deadlock. `b` is in no queue of a smaller number.
pub proof fn law_crossed_requests_deadlock(
    inner: &ProcessControlBlockInner,
    a: usize,
    b: usize,
    x: int,
    y: int,
)
    requires
        0 <= x < inner.mutex_list@.len(),
        0 <= y < inner.mutex_list@.len(),
        inner.mutex_list@[x] is Some,
        inner.mutex_list@[y] is Some,
        inner.mutex_list@[x]->0.state().owner == Some(a),
        inner.mutex_list@[y]->0.state().owner == Some(b),
        inner.mutex_list@[x]->0.state().waiters.contains(b),
        forall|k: int|
            0 <= k < x && (#[trigger] inner.mutex_list@[k]) is Some
                ==> !inner.mutex_list@[k]->0.state().waiters.contains(b),
    ensures
        inner.mutex_would_deadlock(a, y),
{
    let g = inner.wait_graph();
    law_graph_of_a_process(inner, a);
    law_graph_of_a_process(inner, b);
    assert(g.holders[x].contains(a) && g.holders[y].contains(b));
    assert(g.waits_at(b, x));
    assert forall|j: int| 0 <= j < x implies !g.waits_at(b, j) by {
        assert(g.holders[j].contains(b) || !g.holders[j].contains(b));
        assert(g.waiters[j].contains(b) <==> inner.mutex_list@[j] is Some
            && inner.mutex_list@[j]->0.state().waiters.contains(b));
    }
    assert(g.waits_first_at(b, x));
    assert(g.waits_for(b, a));
    super::deadlock::lemma_reaches_self(g, b);
    super::deadlock::lemma_reaches_step(g, b, b, a);
    assert(g.closes_cycle(a, y));
    let h = g.add_waiter(a, y);
    let d = set![a, b];
    assert(h.waits_at(a, y) && h.waits_at(b, x));
    assert(h.held_within(y, d)) by {
        assert(h.holders[y].contains(b));
        assert forall|o: usize| h.holders[y].contains(o) implies d.contains(o) by {
            law_graph_of_a_process(inner, o);
            assert(g.holders[y].contains(o));
        }
    }
    assert(h.held_within(x, d)) by {
        assert(h.holders[x].contains(a));
        assert forall|o: usize| h.holders[x].contains(o) implies d.contains(o) by {
            law_graph_of_a_process(inner, o);
            assert(g.holders[x].contains(o));
        }
    }
    assert(h.stuck(d) && d.contains(a));
}

/// There is a deadlock exactly when there is a group of threads, not empty, each of which waits for
/// a mutex that a member owns, or for a semaphore whose units are all with members.
pub proof fn law_deadlock_of_a_process(inner: &ProcessControlBlockInner)
    ensures
        inner.wait_graph().deadlocked() <==> exists|d: Set<usize>|
            #![trigger d.is_empty()]
            !d.is_empty() && forall|t: usize| #[trigger]
                d.contains(t) ==> (exists|k: int|
                    0 <= k < inner.mutex_list@.len() && (#[trigger] inner.mutex_list@[k]) is Some
                        && inner.mutex_list@[k]->0.state().waiters.contains(t)
                        && inner.mutex_list@[k]->0.state().owner is Some && d.contains(
                        inner.mutex_list@[k]->0.state().owner->0,
                    )) || (exists|k: int|
                    0 <= k < inner.semaphore_list@.len() && (#[trigger] inner.semaphore_list@[k])
                        is Some && inner.semaphore_list@[k]->0@.waiters.contains(t) && (exists|
                        h: usize,
                    | #[trigger]
                        inner.semaphore_list@[k]->0@.holders.contains_key(h)
                            && inner.semaphore_list@[k]->0@.holders[h] > 0) && (forall|h: usize|
                        #[trigger] inner.semaphore_list@[k]->0@.holders.contains_key(h)
                            && inner.semaphore_list@[k]->0@.holders[h] > 0 ==> d.contains(h))),
{
    let g = inner.wait_graph();
    let count = inner.mutex_list@.len() as int;
    if g.deadlocked() {
        let d = choose|d: Set<usize>| #[trigger] g.stuck(d) && !d.is_empty();
        assert forall|t: usize| #[trigger] d.contains(t) implies (exists|k: int|
            0 <= k < inner.mutex_list@.len() && (#[trigger] inner.mutex_list@[k]) is Some
                && inner.mutex_list@[k]->0.state().waiters.contains(t)
                && inner.mutex_list@[k]->0.state().owner is Some && d.contains(
                inner.mutex_list@[k]->0.state().owner->0,
            )) || (exists|k: int|
            0 <= k < inner.semaphore_list@.len() && (#[trigger] inner.semaphore_list@[k]) is Some
                && inner.semaphore_list@[k]->0@.waiters.contains(t) && (exists|h: usize| #[trigger]
                inner.semaphore_list@[k]->0@.holders.contains_key(h)
                    && inner.semaphore_list@[k]->0@.holders[h] > 0) && (forall|h: usize| #[trigger]
                inner.semaphore_list@[k]->0@.holders.contains_key(h)
                    && inner.semaphore_list@[k]->0@.holders[h] > 0 ==> d.contains(h))) by {
            assert(g.blocked_within(t, d));
            let id = choose|id: int| #[trigger] g.waits_at(t, id) && g.held_within(id, d);
            let o = choose|o: usize| g.holders[id].contains(o);
            law_graph_of_a_process(inner, t);
            law_graph_of_a_process(inner, o);
            if id < count {
                assert(g.holders[id].contains(o));
                assert(inner.mutex_list@[id] is Some);
            } else {
                let k = id - count;
                assert(inner.semaphore_list@[k] is Some);
                assert(inner.semaphore_list@[k]->0@.holders.contains_key(o));
                assert forall|h: usize| #[trigger]
                    inner.semaphore_list@[k]->0@.holders.contains_key(h)
                        && inner.semaphore_list@[k]->0@.holders[h] > 0 implies d.contains(h) by {
                    law_graph_of_a_process(inner, h);
                    assert(inner.semaphore_list@[k] is Some);
                    assert(g.holders[count + k].contains(h));
                }
            }
        }
        assert(!d.is_empty());
    }
    if exists|d: Set<usize>|
        #![trigger d.is_empty()]
        !d.is_empty() && forall|t: usize| #[trigger]
            d.contains(t) ==> (exists|k: int|
                0 <= k < inner.mutex_list@.len() && (#[trigger] inner.mutex_list@[k]) is Some
                    && inner.mutex_list@[k]->0.state().waiters.contains(t)
                    && inner.mutex_list@[k]->0.state().owner is Some && d.contains(
                    inner.mutex_list@[k]->0.state().owner->0,
                )) || (exists|k: int|
                0 <= k < inner.semaphore_list@.len() && (#[trigger] inner.semaphore_list@[k])
                    is Some && inner.semaphore_list@[k]->0@.waiters.contains(t) && (exists|h: usize|
                    #[trigger]
                    inner.semaphore_list@[k]->0@.holders.contains_key(h)
                        && inner.semaphore_list@[k]->0@.holders[h] > 0) && (forall|h: usize|
                    #[trigger] inner.semaphore_list@[k]->0@.holders.contains_key(h)
                        && inner.semaphore_list@[k]->0@.holders[h] > 0 ==> d.contains(h))) {
        let d = choose|d: Set<usize>|
            #![trigger d.is_empty()]
            !d.is_empty() && forall|t: usize| #[trigger]
                d.contains(t) ==> (exists|k: int|
                    0 <= k < inner.mutex_list@.len() && (#[trigger] inner.mutex_list@[k]) is Some
                        && inner.mutex_list@[k]->0.state().waiters.contains(t)
                        && inner.mutex_list@[k]->0.state().owner is Some && d.contains(
                        inner.mutex_list@[k]->0.state().owner->0,
                    )) || (exists|k: int|
                    0 <= k < inner.semaphore_list@.len() && (#[trigger] inner.semaphore_list@[k])
                        is Some && inner.semaphore_list@[k]->0@.waiters.contains(t) && (exists|
                        h: usize,
                    | #[trigger]
                        inner.semaphore_list@[k]->0@.holders.contains_key(h)
                            && inner.semaphore_list@[k]->0@.holders[h] > 0) && (forall|h: usize|
                        #[trigger] inner.semaphore_list@[k]->0@.holders.contains_key(h)
                            && inner.semaphore_list@[k]->0@.holders[h] > 0 ==> d.contains(h)));
        assert forall|t: usize| #[trigger] d.contains(t) implies g.blocked_within(t, d) by {
            law_graph_of_a_process(inner, t);
            if exists|k: int|
                0 <= k < inner.mutex_list@.len() && (#[trigger] inner.mutex_list@[k]) is Some
                    && inner.mutex_list@[k]->0.state().waiters.contains(t)
                    && inner.mutex_list@[k]->0.state().owner is Some && d.contains(
                    inner.mutex_list@[k]->0.state().owner->0,
                ) {
                let k = choose|k: int|
                    0 <= k < inner.mutex_list@.len() && (#[trigger] inner.mutex_list@[k]) is Some
                        && inner.mutex_list@[k]->0.state().waiters.contains(t)
                        && inner.mutex_list@[k]->0.state().owner is Some && d.contains(
                        inner.mutex_list@[k]->0.state().owner->0,
                    );
                let o = inner.mutex_list@[k]->0.state().owner->0;
                law_graph_of_a_process(inner, o);
                assert(g.holders[k].contains(o));
                assert(g.holders[k].contains(t) || !g.holders[k].contains(t));
                assert(g.waiters[k].contains(t));
                assert(g.waits_at(t, k));
                assert forall|h: usize| g.holders[k].contains(h) implies d.contains(h) by {
                    law_graph_of_a_process(inner, h);
                }
                assert(g.held_within(k, d));
            } else {
                let k = choose|k: int|
                    0 <= k < inner.semaphore_list@.len() && (#[trigger] inner.semaphore_list@[k])
                        is Some && inner.semaphore_list@[k]->0@.waiters.contains(t) && (exists|
                        h: usize,
                    | #[trigger]
                        inner.semaphore_list@[k]->0@.holders.contains_key(h)
                            && inner.semaphore_list@[k]->0@.holders[h] > 0) && (forall|h: usize|
                        #[trigger] inner.semaphore_list@[k]->0@.holders.contains_key(h)
                            && inner.semaphore_list@[k]->0@.holders[h] > 0 ==> d.contains(h));
                let o = choose|h: usize| #[trigger]
                    inner.semaphore_list@[k]->0@.holders.contains_key(h)
                        && inner.semaphore_list@[k]->0@.holders[h] > 0;
                law_graph_of_a_process(inner, o);
                assert(inner.semaphore_list@[k] is Some);
                assert(g.holders[count + k].contains(o));
                assert(g.waits_at(t, count + k));
                assert forall|h: usize| g.holders[count + k].contains(h) implies d.contains(h) by {
                    law_graph_of_a_process(inner, h);
                    assert(inner.semaphore_list@[k] is Some);
                    assert(inner.semaphore_list@[k]->0@.holders.contains_key(h));
                }
                assert(g.held_within(count + k, d));
            }
        }
        assert(g.stuck(d) && !d.is_empty());
    }
}

/// Two threads that wait for each other's mutexes are in a deadlock, whatever their numbers and
/// whatever the other locks.
pub proof fn law_threads_that_wait_for_each_other(
    inner: &ProcessControlBlockInner,
    a: usize,
    b: usize,
    x: int,
    y: int,
)
    requires
        0 <= x < inner.mutex_list@.len(),
        0 <= y < inner.mutex_list@.len(),
        inner.mutex_list@[x] is Some,
        inner.mutex_list@[y] is Some,
        inner.mutex_list@[x]->0.state().owner == Some(a),
        inner.mutex_list@[y]->0.state().owner == Some(b),
        inner.mutex_list@[x]->0.state().waiters.contains(b),
        inner.mutex_list@[y]->0.state().waiters.contains(a),
    ensures
        inner.wait_graph().deadlocked(),
{
    let g = inner.wait_graph();
    let d = set![a, b];
    law_graph_of_a_process(inner, a);
    law_graph_of_a_process(inner, b);
    assert(g.holders[x].contains(a) && g.holders[y].contains(b));
    assert(g.waits_at(b, x) && g.waits_at(a, y));
    assert forall|o: usize| g.holders[x].contains(o) || g.holders[y].contains(o) implies d.contains(
        o,
    ) by {
        law_graph_of_a_process(inner, o);
        assert(g.holders[x].contains(o) ==> o == a);
        assert(g.holders[y].contains(o) ==> o == b);
    }
    assert(g.held_within(x, d) && g.held_within(y, d));
    assert(g.stuck(d));
    assert(d.contains(a));
    assert(!d.is_empty());
}

} // verus!
