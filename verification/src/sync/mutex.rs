//! Mutexes. A thread that unlocks one hands it to the thread that waits longest.

use super::queue::{queue_contains_tid, queue_tids, remove_waiter, WaitStep};
use std::collections::VecDeque;
use vstd::prelude::*;

verus! {

/// The abstract state of a mutex.
#[verifier::ext_equal]
pub struct MutexState {
    /// Whether the mutex is taken.
    pub locked: bool,
    /// The thread that holds the mutex.
    pub owner: Option<usize>,
    /// The thread that the mutex was handed to and that has not yet noticed.
    pub granted: Option<usize>,
    /// The waiting threads, the one that came first in front.
    pub waiters: Seq<usize>,
}

impl MutexState {
    /// A mutex that nobody holds or waits for.
    pub open spec fn free() -> MutexState {
        MutexState { locked: false, owner: None, granted: None, waiters: Seq::empty() }
    }

    /// What holds of a mutex at all times: it is locked exactly when it has an owner, only the
    /// owner can have a pending grant, nobody waits for a free mutex, and nobody waits twice
    /// or waits for what was already granted.
    pub open spec fn wf(self) -> bool {
        &&& self.locked == (self.owner is Some)
        &&& self.granted is Some ==> self.granted == self.owner && !self.waiters.contains(
            self.granted->0,
        )
        &&& !self.locked ==> self.waiters.len() == 0
        &&& self.waiters.no_duplicates()
    }

    /// `tid` has joined the queue, unless it waits already.
    pub open spec fn enqueue(self, tid: usize) -> MutexState {
        if self.waiters.contains(tid) {
            self
        } else {
            MutexState { waiters: self.waiters.push(tid), ..self }
        }
    }

    /// `tid` has taken a free mutex.
    pub open spec fn take(self, tid: usize) -> MutexState {
        MutexState { locked: true, owner: Some(tid), ..self }
    }

    /// The pending grant has been noticed.
    pub open spec fn consume_grant(self) -> MutexState {
        MutexState { granted: None, ..self }
    }

    /// `tid` has left the queue.
    pub open spec fn forget(self, tid: usize) -> MutexState {
        MutexState { waiters: self.waiters.remove_value(tid), ..self }
    }

    /// The mutex has been released: to the thread that waits longest, or to nobody.
    pub open spec fn release(self) -> MutexState {
        if self.waiters.len() > 0 {
            MutexState {
                owner: Some(self.waiters[0]),
                granted: Some(self.waiters[0]),
                waiters: self.waiters.drop_first(),
                ..self
            }
        } else {
            MutexState { locked: false, owner: None, granted: None, ..self }
        }
    }

    /// The mutex has been released several times.
    pub open spec fn released(self, times: nat) -> MutexState
        decreases times,
    {
        if times == 0 {
            self
        } else {
            self.release().released((times - 1) as nat)
        }
    }

    /// The thread that a release wakes.
    pub open spec fn next_waiter(self) -> Option<usize> {
        if self.waiters.len() > 0 {
            Some(self.waiters[0])
        } else {
            None
        }
    }

    /// A lock request of `tid` on a [`MutexSpin`].
    pub open spec fn spin_lock(self, tid: usize) -> (MutexState, WaitStep) {
        if self.granted == Some(tid) {
            (self.consume_grant(), WaitStep::Acquired)
        } else if !self.locked {
            (self.take(tid).forget(tid), WaitStep::Acquired)
        } else {
            (self.enqueue(tid), WaitStep::Blocked)
        }
    }

    /// A lock request of `tid` on a [`MutexBlocking`].
    pub open spec fn blocking_lock(self, tid: usize) -> (MutexState, WaitStep) {
        if self.granted == Some(tid) {
            (self.consume_grant(), WaitStep::Acquired)
        } else if self.locked {
            (self.enqueue(tid), WaitStep::Blocked)
        } else {
            (self.take(tid), WaitStep::Acquired)
        }
    }

    /// A blocked lock request of `tid` that was woken: it has the mutex if that was handed to it
    /// or is free, and otherwise goes on waiting in its place.
    pub open spec fn resume(self, tid: usize) -> (MutexState, WaitStep) {
        if self.granted == Some(tid) {
            (self.consume_grant(), WaitStep::Acquired)
        } else if self.locked {
            (self.enqueue(tid), WaitStep::Blocked)
        } else {
            (self.take(tid).forget(tid), WaitStep::Acquired)
        }
    }

    /// `tid` has the mutex and does not wait for it.
    pub open spec fn held_by(self, tid: usize) -> bool {
        self.owner == Some(tid) && !self.waiters.contains(tid)
    }
}

/// A mutex among the threads of a process. A request names the thread that makes it.
pub trait Mutex: Sync + Send {
    /// The abstract state.
    spec fn state(&self) -> MutexState;

    /// What a lock request of `tid` leaves behind and answers.
    spec fn lock_effect(&self, tid: usize) -> (MutexState, WaitStep);

    /// Requests the mutex for `tid`. On a mutex in order, every kind answers alike.
    fn lock(&mut self, tid: usize) -> (step: WaitStep)
        ensures
            (final(self).state(), step) == old(self).lock_effect(tid),
            old(self).state().wf() ==> final(self).state().wf() && (final(self).state(), step)
                == old(self).state().blocking_lock(tid),
            old(self).state().wf() && step == WaitStep::Acquired ==> final(self).state().held_by(
                tid,
            ),
    ;

    /// Continues a blocked request of `tid` after it was woken, whatever woke it.
    fn resume_lock(&mut self, tid: usize) -> (step: WaitStep)
        ensures
            (final(self).state(), step) == old(self).state().resume(tid),
            old(self).state().wf() ==> final(self).state().wf(),
            old(self).state().wf() && step == WaitStep::Acquired ==> final(self).state().owner
                == Some(tid) && !final(self).state().waiters.contains(tid),
    ;

    /// Releases the mutex and returns the thread to wake, if one waits.
    fn unlock(&mut self) -> (woken: Option<usize>)
        requires
            old(self).state().locked,
        ensures
            final(self).state() == old(self).state().release(),
            woken == old(self).state().next_waiter(),
            woken is Some <==> old(self).state().waiters.len() > 0,
            woken matches Some(tid) ==> tid == old(self).state().waiters[0]
                && final(self).state().owner == Some(tid) && final(self).state().waiters
                == old(self).state().waiters.skip(1),
            woken is None ==> final(self).state().owner is None && !final(self).state().locked
                && final(self).state().waiters.len() == 0,
            old(self).state().wf() ==> final(self).state().wf(),
    ;

    /// Owner thread id if the mutex is held.
    fn owner_tid(&self) -> (owner: Option<usize>)
        ensures
            owner == self.state().owner,
    ;

    /// Thread ids waiting on this mutex.
    fn waiting_tids(&self) -> (tids: Vec<usize>)
        ensures
            tids@ == self.state().waiters,
    ;
}

/// A mutex whose blocked threads repeat their request each time they are woken.
pub struct MutexSpin {
    locked: bool,
    owner: Option<usize>,
    granted: Option<usize>,
    wait_queue: VecDeque<usize>,
}

impl MutexSpin {
    /// Creates a free mutex.
    pub fn new() -> (m: Self)
        ensures
            m.state() == MutexState::free(),
            m.state().wf(),
            !m.state().locked,
            m.state().owner is None,
            m.state().granted is None,
            m.state().waiters.len() == 0,
    {
        MutexSpin { locked: false, owner: None, granted: None, wait_queue: VecDeque::new() }
    }
}

impl Mutex for MutexSpin {
    closed spec fn state(&self) -> MutexState {
        MutexState {
            locked: self.locked,
            owner: self.owner,
            granted: self.granted,
            waiters: self.wait_queue@,
        }
    }

    open spec fn lock_effect(&self, tid: usize) -> (MutexState, WaitStep) {
        self.state().spin_lock(tid)
    }

    fn lock(&mut self, tid: usize) -> (step: WaitStep) {
        proof {
            law_mutex_steps_keep_wf(self.state(), tid);
            if self.state().wf() {
                law_kinds_lock_alike(self.state(), tid);
                law_acquired_means_owner(self.state(), tid);
            }
        }
        if self.granted == Some(tid) {
            self.granted = None;
            return WaitStep::Acquired;
        }
        if !self.locked {
            self.locked = true;
            self.owner = Some(tid);
            remove_waiter(&mut self.wait_queue, tid);
            return WaitStep::Acquired;
        }
        if !queue_contains_tid(&self.wait_queue, tid) {
            self.wait_queue.push_back(tid);
        }
        WaitStep::Blocked
    }

    fn resume_lock(&mut self, tid: usize) -> (step: WaitStep) {
        self.lock(tid)
    }

    fn unlock(&mut self) -> (woken: Option<usize>) {
        proof {
            law_mutex_steps_keep_wf(self.state(), 0);
        }
        match self.wait_queue.pop_front() {
            Some(waking_tid) => {
                self.owner = Some(waking_tid);
                self.granted = Some(waking_tid);
                Some(waking_tid)
            },
            None => {
                self.locked = false;
                self.owner = None;
                self.granted = None;
                None
            },
        }
    }

    fn owner_tid(&self) -> (owner: Option<usize>) {
        self.owner
    }

    fn waiting_tids(&self) -> (tids: Vec<usize>) {
        queue_tids(&self.wait_queue)
    }
}

/// A mutex that blocked threads wait to be handed.
pub struct MutexBlocking {
    locked: bool,
    owner: Option<usize>,
    granted: Option<usize>,
    wait_queue: VecDeque<usize>,
}

impl MutexBlocking {
    /// Creates a free mutex.
    pub fn new() -> (m: Self)
        ensures
            m.state() == MutexState::free(),
            m.state().wf(),
            !m.state().locked,
            m.state().owner is None,
            m.state().granted is None,
            m.state().waiters.len() == 0,
    {
        MutexBlocking { locked: false, owner: None, granted: None, wait_queue: VecDeque::new() }
    }
}

impl Mutex for MutexBlocking {
    closed spec fn state(&self) -> MutexState {
        MutexState {
            locked: self.locked,
            owner: self.owner,
            granted: self.granted,
            waiters: self.wait_queue@,
        }
    }

    open spec fn lock_effect(&self, tid: usize) -> (MutexState, WaitStep) {
        self.state().blocking_lock(tid)
    }

    fn lock(&mut self, tid: usize) -> (step: WaitStep) {
        proof {
            law_mutex_steps_keep_wf(self.state(), tid);
            if self.state().wf() {
                law_acquired_means_owner(self.state(), tid);
            }
        }
        if self.granted == Some(tid) {
            self.granted = None;
            return WaitStep::Acquired;
        }
        if self.locked {
            if !queue_contains_tid(&self.wait_queue, tid) {
                self.wait_queue.push_back(tid);
            }
            WaitStep::Blocked
        } else {
            self.locked = true;
            self.owner = Some(tid);
            WaitStep::Acquired
        }
    }

    fn resume_lock(&mut self, tid: usize) -> (step: WaitStep) {
        proof {
            law_mutex_steps_keep_wf(self.state(), tid);
            if self.state().wf() {
                law_acquired_means_owner(self.state(), tid);
            }
        }
        if self.granted == Some(tid) {
            self.granted = None;
            return WaitStep::Acquired;
        }
        if self.locked {
            if !queue_contains_tid(&self.wait_queue, tid) {
                self.wait_queue.push_back(tid);
            }
            WaitStep::Blocked
        } else {
            self.locked = true;
            self.owner = Some(tid);
            remove_waiter(&mut self.wait_queue, tid);
            WaitStep::Acquired
        }
    }

    fn unlock(&mut self) -> (woken: Option<usize>) {
        proof {
            law_mutex_steps_keep_wf(self.state(), 0);
        }
        match self.wait_queue.pop_front() {
            Some(waking_tid) => {
                self.owner = Some(waking_tid);
                self.granted = Some(waking_tid);
                Some(waking_tid)
            },
            None => {
                self.locked = false;
                self.owner = None;
                self.granted = None;
                None
            },
        }
    }

    fn owner_tid(&self) -> (owner: Option<usize>) {
        self.owner
    }

    fn waiting_tids(&self) -> (tids: Vec<usize>) {
        queue_tids(&self.wait_queue)
    }
}

/// Every step of a mutex, of either kind, leads from a well-formed state to one.
pub proof fn law_mutex_steps_keep_wf(s: MutexState, tid: usize)
    ensures
        s.wf() ==> s.spin_lock(tid).0.wf(),
        s.wf() ==> s.blocking_lock(tid).0.wf(),
        s.wf() ==> s.resume(tid).0.wf(),
        s.wf() && s.locked ==> s.release().wf(),
{
    if s.wf() {
        super::queue::lemma_push_contains(s.waiters, tid);
        super::queue::lemma_remove_value(s.waiters, tid);
        if s.waiters.len() > 0 {
            super::queue::lemma_drop_first(s.waiters);
        }
    }
}

/// Where a mutex is in order, both kinds answer a lock request alike, and a request that is
/// resumed is answered as one that is made.
pub proof fn law_kinds_lock_alike(s: MutexState, tid: usize)
    requires
        s.wf(),
    ensures
        s.spin_lock(tid) == s.blocking_lock(tid),
        s.resume(tid) == s.blocking_lock(tid),
{
    s.waiters.index_of_first_ensures(tid);
}

/// A thread that is told it has the mutex owns it and waits for it no more, whether it has just
/// asked or was woken, and whatever woke it.
pub proof fn law_acquired_means_owner(s: MutexState, tid: usize)
    requires
        s.wf(),
    ensures
        s.spin_lock(tid).1 == WaitStep::Acquired ==> s.spin_lock(tid).0.held_by(tid),
        s.blocking_lock(tid).1 == WaitStep::Acquired ==> s.blocking_lock(tid).0.held_by(tid),
        s.resume(tid).1 == WaitStep::Acquired ==> s.resume(tid).0.held_by(tid),
{
    super::queue::lemma_remove_value(s.waiters, tid);
}

/// While one thread has the mutex, every other thread that asks for it or is woken blocks, and
/// the owner stays the same.
pub proof fn law_mutual_exclusion(s: MutexState, a: usize, b: usize)
    requires
        s.wf(),
        a != b,
    ensures
        s.spin_lock(a).1 == WaitStep::Acquired ==> {
            &&& s.spin_lock(a).0.spin_lock(b).1 == WaitStep::Blocked
            &&& s.spin_lock(a).0.spin_lock(b).0.owner == Some(a)
            &&& s.spin_lock(a).0.resume(b).1 == WaitStep::Blocked
            &&& s.spin_lock(a).0.resume(b).0.owner == Some(a)
        },
        s.blocking_lock(a).1 == WaitStep::Acquired ==> {
            &&& s.blocking_lock(a).0.blocking_lock(b).1 == WaitStep::Blocked
            &&& s.blocking_lock(a).0.blocking_lock(b).0.owner == Some(a)
            &&& s.blocking_lock(a).0.resume(b).1 == WaitStep::Blocked
            &&& s.blocking_lock(a).0.resume(b).0.owner == Some(a)
        },
        s.resume(a).1 == WaitStep::Acquired ==> {
            &&& s.resume(a).0.spin_lock(b).1 == WaitStep::Blocked
            &&& s.resume(a).0.spin_lock(b).0.owner == Some(a)
            &&& s.resume(a).0.blocking_lock(b).1 == WaitStep::Blocked
            &&& s.resume(a).0.blocking_lock(b).0.owner == Some(a)
            &&& s.resume(a).0.resume(b).1 == WaitStep::Blocked
            &&& s.resume(a).0.resume(b).0.owner == Some(a)
        },
{
}

/// A released mutex goes to the thread that waits longest: nobody else can take it before that
/// thread runs, and when it runs it has the mutex.
pub proof fn law_unlock_hands_over(s: MutexState, other: usize)
    requires
        s.wf(),
        s.waiters.len() > 0,
        other != s.waiters[0],
    ensures
        ({
            let first = s.waiters[0];
            let released = s.release();
            &&& s.next_waiter() == Some(first)
            &&& released.waiters.len() + 1 == s.waiters.len()
            &&& forall|i: int|
                0 <= i < released.waiters.len() ==> #[trigger] released.waiters[i] == s.waiters[i
                    + 1]
            &&& released.granted == Some(first)
            &&& released.locked == s.locked
            &&& released.locked
            &&& released.owner == Some(first)
            &&& released.spin_lock(other).1 == WaitStep::Blocked
            &&& released.blocking_lock(other).1 == WaitStep::Blocked
            &&& released.spin_lock(other).0.granted == Some(first)
            &&& released.blocking_lock(other).0.granted == Some(first)
            &&& released.resume(other).1 == WaitStep::Blocked
            &&& released.resume(other).0.granted == Some(first)
            &&& released.resume(first) == (released.consume_grant(), WaitStep::Acquired)
        }),
{
}

/// A thread that finds the mutex taken waits behind all that came before it.
pub proof fn law_newcomers_wait_behind(s: MutexState, tid: usize)
    requires
        s.wf(),
        s.locked,
        s.granted != Some(tid),
    ensures
        s.spin_lock(tid).1 == WaitStep::Blocked,
        s.blocking_lock(tid).1 == WaitStep::Blocked,
        s.spin_lock(tid).0 == s.blocking_lock(tid).0,
        s.spin_lock(tid).0.waiters.contains(tid),
        s.spin_lock(tid).0.waiters.take(s.waiters.len() as int) == s.waiters,
{
    if !s.waiters.contains(tid) {
        assert(s.waiters.push(tid)[s.waiters.len() as int] == tid);
    }
}

/// A waiting thread gets the mutex as soon as it was released once for each thread in front and
/// once more.
pub proof fn law_waiting_is_bounded(s: MutexState, place: nat)
    requires
        s.wf(),
        place < s.waiters.len(),
    ensures
        s.released(place + 1).owner == Some(s.waiters[place as int]),
        s.released(place + 1).granted == Some(s.waiters[place as int]),
    decreases place,
{
    let once = s.release();
    law_mutex_steps_keep_wf(s, 0);
    if place == 0 {
        assert(once.released(0) == once);
    } else {
        assert(once.waiters[place - 1] == s.waiters[place as int]);
        law_waiting_is_bounded(once, (place - 1) as nat);
    }
}

/// Unlocking undoes the locking of a free mutex.
pub proof fn law_unlock_undoes_lock(s: MutexState, tid: usize)
    requires
        s.wf(),
        !s.locked,
    ensures
        s == MutexState::free(),
        s.spin_lock(tid).0.release() == s,
        s.blocking_lock(tid).0.release() == s,
{
    s.waiters.index_of_first_ensures(tid);
    assert(s.waiters =~= Seq::<usize>::empty());
}

/// A free mutex goes at once to the thread that asks, and to nobody else.
pub proof fn law_free_mutex_is_taken(s: MutexState, tid: usize)
    requires
        !s.locked,
        s.granted is None,
        s.waiters.len() == 0,
    ensures
        s.spin_lock(tid).1 == WaitStep::Acquired,
        s.blocking_lock(tid).1 == WaitStep::Acquired,
        s.resume(tid).1 == WaitStep::Acquired,
        s.spin_lock(tid).0 == s.blocking_lock(tid).0,
        s.resume(tid).0 == s.blocking_lock(tid).0,
        s.blocking_lock(tid).0.locked,
        s.blocking_lock(tid).0.owner == Some(tid),
        s.blocking_lock(tid).0.granted is None,
        s.blocking_lock(tid).0.waiters.len() == 0,
{
    s.waiters.index_of_first_ensures(tid);
}

/// A thread that the mutex was handed to has it when it runs or asks, and only the grant is gone
/// then.
pub proof fn law_grant_is_noticed(s: MutexState, tid: usize)
    requires
        s.granted == Some(tid),
    ensures
        s.spin_lock(tid).1 == WaitStep::Acquired,
        s.blocking_lock(tid).1 == WaitStep::Acquired,
        s.resume(tid).1 == WaitStep::Acquired,
        s.resume(tid).0.granted is None,
        s.resume(tid).0.locked == s.locked,
        s.resume(tid).0.owner == s.owner,
        s.resume(tid).0.waiters == s.waiters,
        s.spin_lock(tid).0 == s.resume(tid).0,
        s.blocking_lock(tid).0 == s.resume(tid).0,
{
}

/// A request for a mutex that another thread has, or that the asking thread has already, changes
/// nothing but the queue: a newcomer joins its end, and a thread that waits keeps its place.
pub proof fn law_blocked_request_only_queues(s: MutexState, tid: usize)
    requires
        s.locked,
        s.granted != Some(tid),
    ensures
        ({
            let after = s.blocking_lock(tid).0;
            &&& s.spin_lock(tid) == s.blocking_lock(tid)
            &&& s.resume(tid) == s.blocking_lock(tid)
            &&& s.blocking_lock(tid).1 == WaitStep::Blocked
            &&& after.locked && after.owner == s.owner && after.granted == s.granted
            &&& s.waiters.contains(tid) ==> after.waiters == s.waiters
            &&& !s.waiters.contains(tid) ==> after.waiters.len() == s.waiters.len() + 1
                && after.waiters.take(s.waiters.len() as int) == s.waiters && after.waiters.last()
                == tid
        }),
{
    assert(s.waiters.push(tid).take(s.waiters.len() as int) =~= s.waiters);
}

/// A mutex that nobody waits for is free once it is unlocked.
pub proof fn law_unlock_frees(s: MutexState)
    requires
        s.waiters.len() == 0,
    ensures
        s.next_waiter() is None,
        !s.release().locked,
        s.release().owner is None,
        s.release().granted is None,
        s.release().waiters.len() == 0,
{
}

} // verus!
