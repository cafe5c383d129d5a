//! What deadlock detection guarantees.
//!
//! A process that refuses every request that detection predicts to deadlock, and only those,
//! never gets into a deadlock among its mutexes and semaphores.

use super::deadlock::WaitGraph;
use crate::sync::mutex::MutexState;
use crate::sync::semaphore::SemaphoreState;
use vstd::prelude::*;

verus! {

/// The mutexes and the semaphores of a process.
#[verifier::ext_equal]
pub struct LockState {
    /// The mutexes, by their ids.
    pub mutexes: Seq<Option<MutexState>>,
    /// The semaphores, by their ids.
    pub semaphores: Seq<Option<SemaphoreState>>,
}

impl LockState {
    /// All locks are in order.
    pub open spec fn wf(self) -> bool {
        &&& forall|id: int|
            0 <= id < self.mutexes.len() && (#[trigger] self.mutexes[id]) is Some
                ==> self.mutexes[id]->0.wf()
        &&& forall|id: int|
            0 <= id < self.semaphores.len() && (#[trigger] self.semaphores[id]) is Some
                ==> self.semaphores[id]->0.wf()
    }

    /// Who waits for and who holds the locks.
    pub open spec fn graph(self) -> WaitGraph {
        WaitGraph::of_mutexes(self.mutexes).joined(WaitGraph::of_semaphores(self.semaphores))
    }

    /// The resource of the graph that stands for a semaphore.
    pub open spec fn semaphore_index(self, id: int) -> int {
        self.mutexes.len() + id
    }

    /// There is a mutex of that id.
    pub open spec fn has_mutex(self, id: int) -> bool {
        0 <= id < self.mutexes.len() && self.mutexes[id] is Some
    }

    /// There is a semaphore of that id.
    pub open spec fn has_semaphore(self, id: int) -> bool {
        0 <= id < self.semaphores.len() && self.semaphores[id] is Some
    }

    /// One mutex is in another state.
    pub open spec fn with_mutex(self, id: int, after: MutexState) -> LockState {
        LockState { mutexes: self.mutexes.update(id, Some(after)), ..self }
    }

    /// One semaphore is in another state.
    pub open spec fn with_semaphore(self, id: int, after: SemaphoreState) -> LockState {
        LockState { semaphores: self.semaphores.update(id, Some(after)), ..self }
    }

    /// A request of `tid` for mutex `id` is predicted to deadlock.
    pub open spec fn mutex_would_deadlock(self, tid: usize, id: int) -> bool {
        0 <= id < self.mutexes.len() && self.graph().would_deadlock(tid, id)
    }

    /// A request of `tid` for a unit of semaphore `id` is predicted to deadlock.
    pub open spec fn semaphore_would_deadlock(self, tid: usize, id: int) -> bool {
        self.has_semaphore(id) && self.semaphores[id]->0.count <= 0 && self.graph().would_deadlock(
            tid,
            self.semaphore_index(id),
        )
    }

    /// The locks are in order, no thread waits twice, and there is no deadlock.
    pub open spec fn safe(self) -> bool {
        &&& self.wf()
        &&& self.graph().waits_once()
        &&& !self.graph().deadlocked()
    }
}

impl super::process::ProcessControlBlockInner {
    /// The states of the locks of the process.
    pub open spec fn locks(&self) -> LockState {
        LockState {
            mutexes: super::detect::mutex_states(self.mutex_list@),
            semaphores: super::detect::semaphore_states(self.semaphore_list@),
        }
    }
}

/// What the process is told of its requests is what these laws call predicted.
pub proof fn law_predictions_are_of_the_locks(
    inner: &super::process::ProcessControlBlockInner,
    tid: usize,
    id: int,
)
    ensures
        inner.wait_graph() == inner.locks().graph(),
        inner.mutex_would_deadlock(tid, id) == inner.locks().mutex_would_deadlock(tid, id),
        inner.semaphore_would_deadlock(tid, id) == inner.locks().semaphore_would_deadlock(tid, id),
{
}

/// The graph of all locks has finite queues.
proof fn lemma_graph_wf(s: LockState)
    ensures
        s.graph().wf(),
{
    super::deadlock::lemma_of_mutexes_wf(s.mutexes);
    super::deadlock::lemma_of_semaphores_wf(s.semaphores);
    let m = WaitGraph::of_mutexes(s.mutexes);
    let t = WaitGraph::of_semaphores(s.semaphores);
    let g = s.graph();
    assert forall|id: int| 0 <= id < g.waiters.len() implies (#[trigger] g.waiters[id]).finite() by {
        if id < m.waiters.len() {
            assert(m.waiters[id].finite());
        } else {
            assert(t.waiters[id - m.waiters.len()].finite());
        }
    }
}

/// The graph after one mutex has changed.
proof fn lemma_mutex_update(s: LockState, id: int, after: MutexState)
    requires
        0 <= id < s.mutexes.len(),
    ensures
        s.with_mutex(id, after).graph() == s.graph().with_resource(
            id,
            after.waiters.to_set(),
            super::deadlock::owners(after),
        ),
{
    let g = s.with_mutex(id, after).graph();
    let h = s.graph().with_resource(id, after.waiters.to_set(), super::deadlock::owners(after));
    assert(g.waiters =~= h.waiters);
    assert(g.holders =~= h.holders);
}

/// The graph after one semaphore has changed.
proof fn lemma_semaphore_update(s: LockState, id: int, after: SemaphoreState)
    requires
        0 <= id < s.semaphores.len(),
    ensures
        s.with_semaphore(id, after).graph() == s.graph().with_resource(
            s.semaphore_index(id),
            after.waiters.to_set(),
            super::deadlock::unit_holders(after),
        ),
{
    let g = s.with_semaphore(id, after).graph();
    let h = s.graph().with_resource(
        s.semaphore_index(id),
        after.waiters.to_set(),
        super::deadlock::unit_holders(after),
    );
    assert(g.waiters =~= h.waiters);
    assert(g.holders =~= h.holders);
}

/// A resource that does not change leaves the graph as it is.
proof fn lemma_same_resource(g: WaitGraph, id: int)
    requires
        0 <= id < g.waiters.len(),
        g.waiters.len() == g.holders.len(),
    ensures
        g.with_resource(id, g.waiters[id], g.holders[id]) == g,
{
    let h = g.with_resource(id, g.waiters[id], g.holders[id]);
    assert(h.waiters =~= g.waiters);
    assert(h.holders =~= g.holders);
}

/// Detection is exact for mutexes: where there is no deadlock, the lock request of a running
/// thread leads into one exactly when it is predicted to.
pub proof fn law_mutex_detection_is_exact(s: LockState, id: int, tid: usize)
    requires
        s.safe(),
        s.has_mutex(id),
        s.mutexes[id]->0.granted != Some(tid),
        s.graph().runs(tid),
    ensures
        ({
            let spin = s.with_mutex(id, s.mutexes[id]->0.spin_lock(tid).0).graph();
            let blocking = s.with_mutex(id, s.mutexes[id]->0.blocking_lock(tid).0).graph();
            &&& spin.deadlocked() <==> s.mutex_would_deadlock(tid, id)
            &&& blocking.deadlocked() <==> s.mutex_would_deadlock(tid, id)
            &&& spin.waits_once()
            &&& blocking.waits_once()
        }),
{
    let g = s.graph();
    let m = s.mutexes[id]->0;
    let after = m.blocking_lock(tid).0;
    lemma_graph_wf(s);
    assert(m.wf());
    crate::sync::mutex::law_kinds_lock_alike(m, tid);
    assert(g.waiters[id] == m.waiters.to_set());
    assert(g.holders[id] == super::deadlock::owners(m));
    assert(!g.waits_at(tid, id));
    assert(!m.waiters.contains(tid));
    lemma_mutex_update(s, id, after);
    if m.locked {
        crate::sync::queue::lemma_push_to_set(m.waiters, tid);
        assert(g.holders.update(id, super::deadlock::owners(after)) =~= g.holders);
        super::deadlock::law_waiting_deadlocks_iff_predicted(g, tid, id);
    } else {
        crate::sync::queue::lemma_empty_to_set(m.waiters);
        super::deadlock::law_uncontended_change_is_safe(g, id, super::deadlock::owners(after));
        assert(!g.closes_cycle(tid, id));
    }
}

/// Detection is exact for semaphores: where there is no deadlock, the request of a running thread
/// for a unit leads into one exactly when it is predicted to.
pub proof fn law_semaphore_detection_is_exact(s: LockState, id: int, tid: usize)
    requires
        s.safe(),
        s.has_semaphore(id),
        s.semaphores[id]->0.down_fits(tid),
        s.graph().runs(tid),
    ensures
        ({
            let after = s.with_semaphore(id, s.semaphores[id]->0.down(tid).0).graph();
            &&& after.deadlocked() <==> s.semaphore_would_deadlock(tid, id)
            &&& after.waits_once()
        }),
{
    let g = s.graph();
    let sem = s.semaphores[id]->0;
    let after = sem.down(tid).0;
    let at = s.semaphore_index(id);
    lemma_graph_wf(s);
    assert(sem.wf());
    assert(g.waiters[at] == sem.waiters.to_set());
    assert(g.holders[at] == super::deadlock::unit_holders(sem));
    assert(!g.waits_at(tid, at));
    assert(!sem.waiters.contains(tid));
    lemma_semaphore_update(s, id, after);
    if sem.count > 0 {
        crate::sync::queue::lemma_empty_to_set(sem.waiters);
        super::deadlock::law_uncontended_change_is_safe(
            g,
            at,
            super::deadlock::unit_holders(after),
        );
    } else {
        crate::sync::queue::lemma_push_to_set(sem.waiters, tid);
        assert(g.holders.update(at, super::deadlock::unit_holders(after)) =~= g.holders);
        super::deadlock::law_waiting_deadlocks_iff_predicted(g, tid, at);
    }
}

/// Unlocking a mutex never leads into a deadlock.
pub proof fn law_unlock_is_safe(s: LockState, id: int)
    requires
        s.safe(),
        s.has_mutex(id),
        s.mutexes[id]->0.locked,
    ensures
        s.with_mutex(id, s.mutexes[id]->0.release()).safe(),
{
    let g = s.graph();
    let m = s.mutexes[id]->0;
    lemma_graph_wf(s);
    assert(m.wf());
    crate::sync::mutex::law_mutex_steps_keep_wf(m, 0);
    assert(g.waiters[id] == m.waiters.to_set());
    lemma_mutex_update(s, id, m.release());
    if m.waiters.len() > 0 {
        let first = m.waiters[0];
        crate::sync::queue::lemma_drop_first(m.waiters);
        assert(g.waits_at(first, id));
        super::deadlock::law_handing_over_is_safe(g, id, first, set![first]);
    } else {
        crate::sync::queue::lemma_empty_to_set(m.waiters);
        super::deadlock::law_uncontended_change_is_safe(g, id, Set::empty());
    }
}

/// Giving a unit back never leads into a deadlock.
pub proof fn law_up_is_safe(s: LockState, id: int, tid: usize)
    requires
        s.safe(),
        s.has_semaphore(id),
        s.semaphores[id]->0.up_fits(tid),
        !s.semaphores[id]->0.granted.contains(tid),
    ensures
        s.with_semaphore(id, s.semaphores[id]->0.up(tid).0).safe(),
{
    let g = s.graph();
    let sem = s.semaphores[id]->0;
    let after = sem.up(tid).0;
    let at = s.semaphore_index(id);
    lemma_graph_wf(s);
    assert(sem.wf());
    crate::sync::semaphore::law_up_returns_or_adds_a_unit(sem, tid);
    assert(g.waiters[at] == sem.waiters.to_set());
    lemma_semaphore_update(s, id, after);
    if sem.up_wakes() {
        let first = sem.waiters[0];
        crate::sync::queue::lemma_drop_first(sem.waiters);
        assert(g.waits_at(first, at));
        assert(super::deadlock::unit_holders(after).contains(first));
        super::deadlock::law_handing_over_is_safe(
            g,
            at,
            first,
            super::deadlock::unit_holders(after),
        );
    } else {
        crate::sync::queue::lemma_empty_to_set(sem.waiters);
        super::deadlock::law_uncontended_change_is_safe(
            g,
            at,
            super::deadlock::unit_holders(after),
        );
    }
}

/// A thread that had blocked and runs again never leads into a deadlock, whatever woke it. The
/// locks stay in order too, save for a semaphore at which a thread is woken without a grant.
pub proof fn law_resume_is_safe(s: LockState, id: int, tid: usize)
    requires
        s.safe(),
    ensures
        s.has_mutex(id) && (s.mutexes[id]->0.granted == Some(tid)
            || s.mutexes[id]->0.waiters.contains(tid)) ==> s.with_mutex(
            id,
            s.mutexes[id]->0.resume(tid).0,
        ).safe(),
        s.has_semaphore(id) && s.semaphores[id]->0.granted.contains(tid) ==> s.with_semaphore(
            id,
            s.semaphores[id]->0.resume_down(tid),
        ).safe(),
        s.has_semaphore(id) && s.semaphores[id]->0.waiters.contains(tid)
            && s.semaphores[id]->0.resume_fits(tid) ==> {
            let after = s.with_semaphore(id, s.semaphores[id]->0.resume_down(tid)).graph();
            !after.deadlocked() && after.waits_once()
        },
{
    let g = s.graph();
    lemma_graph_wf(s);
    if s.has_mutex(id) && (s.mutexes[id]->0.granted == Some(tid)
        || s.mutexes[id]->0.waiters.contains(tid)) {
        let m = s.mutexes[id]->0;
        let after = m.resume(tid).0;
        assert(m.wf());
        crate::sync::mutex::law_mutex_steps_keep_wf(m, tid);
        assert(g.waiters[id] == m.waiters.to_set());
        assert(g.holders[id] == super::deadlock::owners(m));
        assert(after.waiters == m.waiters && after.owner == m.owner);
        lemma_mutex_update(s, id, after);
        lemma_same_resource(g, id);
    }
    if s.has_semaphore(id) {
        let sem = s.semaphores[id]->0;
        let after = sem.resume_down(tid);
        let at = s.semaphore_index(id);
        assert(sem.wf());
        assert(g.waiters[at] == sem.waiters.to_set());
        assert(g.holders[at] == super::deadlock::unit_holders(sem));
        lemma_semaphore_update(s, id, after);
        if sem.granted.contains(tid) {
            crate::sync::semaphore::law_granted_resume_keeps_capacity(sem, tid);
            lemma_same_resource(g, at);
        } else if sem.waiters.contains(tid) && sem.resume_fits(tid) {
            crate::sync::queue::lemma_remove_value(sem.waiters, tid);
            crate::sync::semaphore::law_acquired_means_holder(sem, tid);
            assert(g.waits_at(tid, at));
            assert(after.waiters.to_set() =~= sem.waiters.to_set().remove(tid));
            super::deadlock::law_handing_over_is_safe(
                g,
                at,
                tid,
                super::deadlock::unit_holders(after),
            );
        }
    }
}

/// A process without locks has no deadlock.
pub proof fn law_no_locks_no_deadlock(s: LockState)
    requires
        s.mutexes.len() == 0,
        s.semaphores.len() == 0,
    ensures
        s.safe(),
{
    let g = s.graph();
    super::deadlock::lemma_deadlocked_thread(g);
    assert forall|t: usize| !g.in_deadlock(t) by {
        if g.in_deadlock(t) {
            let d = choose|d: Set<usize>| #[trigger] g.stuck(d) && d.contains(t);
            assert(g.blocked_within(t, d));
        }
    }
}

/// A step of some thread on a lock. `spin` tells the two kinds of mutex apart.
pub enum LockEvent {
    /// `tid` asks for mutex `id`.
    Lock { tid: usize, id: int, spin: bool },
    /// `tid`, which had blocked at mutex `id`, was woken.
    ResumeLock { tid: usize, id: int },
    /// Mutex `id` is unlocked.
    Unlock { id: int },
    /// `tid` asks for a unit of semaphore `id`.
    Down { tid: usize, id: int },
    /// `tid`, which was granted a unit of semaphore `id`, was woken.
    ResumeDown { tid: usize, id: int },
    /// `tid` gives back a unit of semaphore `id`.
    Up { tid: usize, id: int },
}

impl LockState {
    /// The events that threads can bring about within the machine's integers: only a thread that
    /// waits nowhere and has noticed what it was given makes a request, only one that had blocked
    /// resumes, at a semaphore once it was granted a unit, and only a locked mutex is unlocked.
    pub open spec fn possible(self, event: LockEvent) -> bool {
        match event {
            LockEvent::Lock { tid, id, spin } => {
                &&& self.has_mutex(id)
                &&& self.mutexes[id]->0.granted != Some(tid)
                &&& self.graph().runs(tid)
            },
            LockEvent::ResumeLock { tid, id } => {
                &&& self.has_mutex(id)
                &&& self.mutexes[id]->0.granted == Some(tid)
                    || self.mutexes[id]->0.waiters.contains(tid)
            },
            LockEvent::Unlock { id } => self.has_mutex(id) && self.mutexes[id]->0.locked,
            LockEvent::Down { tid, id } => {
                &&& self.has_semaphore(id)
                &&& self.semaphores[id]->0.down_fits(tid)
                &&& !self.semaphores[id]->0.granted.contains(tid)
                &&& self.graph().runs(tid)
            },
            LockEvent::ResumeDown { tid, id } => {
                self.has_semaphore(id) && self.semaphores[id]->0.granted.contains(tid)
            },
            LockEvent::Up { tid, id } => {
                &&& self.has_semaphore(id)
                &&& self.semaphores[id]->0.up_fits(tid)
                &&& !self.semaphores[id]->0.granted.contains(tid)
            },
        }
    }

    /// The locks after an event, where requests that are predicted to deadlock are refused.
    pub open spec fn after(self, event: LockEvent) -> LockState {
        match event {
            LockEvent::Lock { tid, id, spin } => if self.mutex_would_deadlock(tid, id) {
                self
            } else if spin {
                self.with_mutex(id, self.mutexes[id]->0.spin_lock(tid).0)
            } else {
                self.with_mutex(id, self.mutexes[id]->0.blocking_lock(tid).0)
            },
            LockEvent::ResumeLock { tid, id } => self.with_mutex(
                id,
                self.mutexes[id]->0.resume(tid).0,
            ),
            LockEvent::Unlock { id } => self.with_mutex(id, self.mutexes[id]->0.release()),
            LockEvent::Down { tid, id } => if self.semaphore_would_deadlock(tid, id) {
                self
            } else {
                self.with_semaphore(id, self.semaphores[id]->0.down(tid).0)
            },
            LockEvent::ResumeDown { tid, id } => self.with_semaphore(
                id,
                self.semaphores[id]->0.resume_down(tid),
            ),
            LockEvent::Up { tid, id } => self.with_semaphore(
                id,
                self.semaphores[id]->0.up(tid).0,
            ),
        }
    }

    /// The locks after a run of events.
    pub open spec fn after_all(self, events: Seq<LockEvent>) -> LockState
        decreases events.len(),
    {
        if events.len() == 0 {
            self
        } else {
            self.after_all(events.drop_last()).after(events.last())
        }
    }

    /// Each event of a run can happen when it comes.
    pub open spec fn run_possible(self, events: Seq<LockEvent>) -> bool
        decreases events.len(),
    {
        events.len() > 0 ==> {
            &&& self.run_possible(events.drop_last())
            &&& self.after_all(events.drop_last()).possible(events.last())
        }
    }
}

/// One event keeps the locks safe.
proof fn lemma_guarded_step(s: LockState, event: LockEvent)
    requires
        s.safe(),
        s.possible(event),
    ensures
        s.after(event).safe(),
{
    match event {
        LockEvent::Lock { tid, id, spin } => {
            law_mutex_detection_is_exact(s, id, tid);
            assert(s.mutexes[id]->0.wf());
            crate::sync::mutex::law_mutex_steps_keep_wf(s.mutexes[id]->0, tid);
        },
        LockEvent::ResumeLock { tid, id } => {
            law_resume_is_safe(s, id, tid);
        },
        LockEvent::Unlock { id } => {
            law_unlock_is_safe(s, id);
        },
        LockEvent::Down { tid, id } => {
            law_semaphore_detection_is_exact(s, id, tid);
            let sem = s.semaphores[id]->0;
            let at = s.semaphore_index(id);
            assert(sem.wf());
            assert(s.graph().waiters[at] == sem.waiters.to_set());
            assert(!s.graph().waits_at(tid, at));
            crate::sync::semaphore::law_down_keeps_capacity(sem, tid);
        },
        LockEvent::ResumeDown { tid, id } => {
            law_resume_is_safe(s, id, tid);
        },
        LockEvent::Up { tid, id } => {
            law_up_is_safe(s, id, tid);
        },
    }
}

/// Where predicted deadlocks are refused, no run of requests, wake-ups, unlocks and returned units
/// ever leads to a deadlock among mutexes and semaphores.
pub proof fn law_refusing_prevents_deadlock(s: LockState, events: Seq<LockEvent>)
    requires
        s.safe(),
        s.run_possible(events),
    ensures
        s.after_all(events).safe(),
    decreases events.len(),
{
    if events.len() > 0 {
        law_refusing_prevents_deadlock(s, events.drop_last());
        lemma_guarded_step(s.after_all(events.drop_last()), events.last());
    }
}

} // verus!
