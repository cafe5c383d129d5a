//! Detection of deadlocks among the threads of a process.

use super::deadlock::WaitGraph;
use super::process::{ProcessControlBlock, ProcessControlBlockInner};
use super::wait_table::WaitTable;
use crate::sync::mutex::{Mutex, MutexState};
use crate::sync::queue::contains_tid;
use crate::sync::semaphore::{Semaphore, SemaphoreState};
use vstd::prelude::*;

verus! {

/// The states of the mutexes of a list.
pub open spec fn mutex_states(list: Seq<Option<Box<dyn Mutex>>>) -> Seq<Option<MutexState>> {
    list.map_values(
        |slot: Option<Box<dyn Mutex>>|
            match slot {
                Some(mutex) => Some(mutex.state()),
                None => None,
            },
    )
}

/// The states of the semaphores of a list.
pub open spec fn semaphore_states(list: Seq<Option<Semaphore>>) -> Seq<Option<SemaphoreState>> {
    list.map_values(
        |slot: Option<Semaphore>|
            match slot {
                Some(sem) => Some(sem@),
                None => None,
            },
    )
}

impl ProcessControlBlockInner {
    /// Who waits for and who owns the mutexes.
    pub open spec fn mutex_graph(&self) -> WaitGraph {
        WaitGraph::of_mutexes(mutex_states(self.mutex_list@))
    }

    /// Who waits for and who holds the semaphores.
    pub open spec fn semaphore_graph(&self) -> WaitGraph {
        WaitGraph::of_semaphores(semaphore_states(self.semaphore_list@))
    }

    /// Who waits for and who holds the mutexes and the semaphores, the mutexes first.
    pub open spec fn wait_graph(&self) -> WaitGraph {
        self.mutex_graph().joined(self.semaphore_graph())
    }

    /// A thread that asks for mutex `mutex_id` would wait for it and could never go on.
    pub open spec fn mutex_would_deadlock(&self, tid: usize, mutex_id: int) -> bool {
        &&& 0 <= mutex_id < self.mutex_list@.len()
        &&& self.wait_graph().would_deadlock(tid, mutex_id)
    }

    /// A thread that asks for a unit of semaphore `sem_id` would wait for it and could never go
    /// on.
    pub open spec fn semaphore_would_deadlock(&self, tid: usize, sem_id: int) -> bool {
        &&& 0 <= sem_id < self.semaphore_list@.len()
        &&& self.semaphore_list@[sem_id] is Some
        &&& self.semaphore_list@[sem_id]->0@.count <= 0
        &&& self.wait_graph().would_deadlock(tid, self.mutex_list@.len() + sem_id)
    }

    /// The mutex that a thread waits for.
    pub fn waiting_mutex_of(&self, tid: usize) -> (found: Option<usize>)
        ensures
            match found {
                Some(id) => id < self.mutex_list@.len() && self.mutex_graph().waits_first_at(
                    tid,
                    id as int,
                ),
                None => self.mutex_graph().runs(tid),
            },
    {
        let mut id: usize = 0;
        while id < self.mutex_list.len()
            invariant
                id <= self.mutex_list@.len(),
                forall|j: int| 0 <= j < id ==> !self.mutex_graph().waits_at(tid, j),
            decreases self.mutex_list@.len() - id,
        {
            if let Some(mutex) = &self.mutex_list[id] {
                let waiting = mutex.waiting_tids();
                if contains_tid(&waiting, tid) {
                    return Some(id);
                }
            }
            id += 1;
        }
        None
    }

    /// The semaphore that a thread waits for.
    pub fn waiting_semaphore_of(&self, tid: usize) -> (found: Option<usize>)
        ensures
            match found {
                Some(id) => id < self.semaphore_list@.len()
                    && self.semaphore_graph().waits_first_at(tid, id as int),
                None => self.semaphore_graph().runs(tid),
            },
    {
        let mut id: usize = 0;
        while id < self.semaphore_list.len()
            invariant
                id <= self.semaphore_list@.len(),
                forall|j: int| 0 <= j < id ==> !self.semaphore_graph().waits_at(tid, j),
            decreases self.semaphore_list@.len() - id,
        {
            if let Some(sem) = &self.semaphore_list[id] {
                let waiting = sem.waiting_tids();
                if contains_tid(&waiting, tid) {
                    return Some(id);
                }
            }
            id += 1;
        }
        None
    }

    /// Whether the chain of owners from `start_tid` leads to `target_tid`: each thread of the
    /// chain waits for a mutex that the next one owns.
    pub fn mutex_chain_reaches(&self, start_tid: usize, target_tid: usize) -> (found: bool)
        ensures
            found == self.mutex_graph().reaches(start_tid, target_tid),
    {
        let ghost g = self.mutex_graph();
        proof {
            super::deadlock::lemma_of_mutexes_wf(mutex_states(self.mutex_list@));
            super::search::lemma_search_begins(g, start_tid, target_tid);
        }
        let mut current_tid: usize = start_tid;
        let mut visited: Vec<usize> = Vec::new();
        loop
            invariant
                g == self.mutex_graph(),
                g.searching(start_tid, target_tid, visited@, seq![current_tid]),
            decreases g.unvisited(visited@),
        {
            let ghost stack = seq![current_tid];
            let ghost before = visited@;
            assert(stack.drop_last() =~= Seq::<usize>::empty());
            proof {
                super::search::lemma_search_skips(g, start_tid, target_tid, visited@, stack);
            }
            if current_tid == target_tid {
                return true;
            }
            if contains_tid(&visited, current_tid) {
                proof {
                    super::search::lemma_search_ends(g, start_tid, target_tid, visited@);
                }
                return false;
            }
            visited.push(current_tid);
            let owner: Option<usize> = match self.waiting_mutex_of(current_tid) {
                Some(id) => {
                    proof {
                        super::deadlock::lemma_waits_for_holders(g, current_tid, id as int);
                        assert(g.waits_at(current_tid, id as int));
                    }
                    match &self.mutex_list[id] {
                        Some(mutex) => mutex.owner_tid(),
                        None => None,
                    }
                },
                None => {
                    proof {
                        super::deadlock::lemma_runs_waits_for_none(g, current_tid);
                    }
                    None
                },
            };
            let ghost listed = match owner {
                Some(owner_tid) => seq![owner_tid],
                None => Seq::empty(),
            };
            proof {
                if owner is Some {
                    assert(listed[0] == owner->0);
                }
                super::search::lemma_search_expands(
                    g,
                    start_tid,
                    target_tid,
                    before,
                    stack,
                    listed,
                );
                assert(stack.drop_last() + listed =~= listed);
            }
            match owner {
                Some(owner_tid) => {
                    current_tid = owner_tid;
                },
                None => {
                    proof {
                        super::search::lemma_search_ends(g, start_tid, target_tid, visited@);
                    }
                    return false;
                },
            }
        }
    }

    /// Whether some chain from `start_tid` leads to `target_tid`: each thread of the chain
    /// waits for a semaphore that the next one holds.
    pub fn semaphore_chain_reaches(&self, start_tid: usize, target_tid: usize) -> (found: bool)
        ensures
            found == self.semaphore_graph().reaches(start_tid, target_tid),
    {
        let ghost g = self.semaphore_graph();
        let mut stack: Vec<usize> = Vec::new();
        stack.push(start_tid);
        let mut visited: Vec<usize> = Vec::new();
        proof {
            super::deadlock::lemma_of_semaphores_wf(semaphore_states(self.semaphore_list@));
            super::search::lemma_search_begins(g, start_tid, target_tid);
            assert(stack@ =~= seq![start_tid]);
        }
        while stack.len() > 0
            invariant
                g == self.semaphore_graph(),
                g.searching(start_tid, target_tid, visited@, stack@),
            decreases g.unvisited(visited@), stack@.len(),
        {
            let ghost full = stack@;
            let ghost before = visited@;
            proof {
                super::search::lemma_search_skips(g, start_tid, target_tid, before, full);
            }
            let tid: usize = stack.pop().unwrap();
            if tid == target_tid {
                return true;
            }
            if !contains_tid(&visited, tid) {
                visited.push(tid);
                let mut holder_tids: Vec<usize> = Vec::new();
                match self.waiting_semaphore_of(tid) {
                    Some(waiting_sem_id) => {
                        proof {
                            super::deadlock::lemma_waits_for_holders(g, tid, waiting_sem_id as int);
                            assert(g.waits_at(tid, waiting_sem_id as int));
                        }
                        if let Some(sem) = &self.semaphore_list[waiting_sem_id] {
                            holder_tids = sem.holder_tids();
                            assert(g.holders[waiting_sem_id as int]
                                == super::deadlock::unit_holders(sem@));
                        }
                    },
                    None => {
                        proof {
                            super::deadlock::lemma_runs_waits_for_none(g, tid);
                        }
                    },
                }
                proof {
                    super::search::lemma_search_expands(
                        g,
                        start_tid,
                        target_tid,
                        before,
                        full,
                        holder_tids@,
                    );
                }
                stack.append(&mut holder_tids);
            }
        }
        proof {
            assert(stack@ =~= Seq::<usize>::empty());
            super::search::lemma_search_ends(g, start_tid, target_tid, visited@);
        }
        false
    }

    /// Lists who waits for and who holds each mutex and each semaphore.
    pub fn wait_table(&self) -> (table: WaitTable)
        ensures
            table@ == self.wait_graph(),
    {
        let ghost g = self.wait_graph();
        let ghost count = self.mutex_list@.len();
        let mut table = WaitTable::new();
        let mut id: usize = 0;
        assert(table@.waiters =~= g.waiters.take(0));
        assert(table@.holders =~= g.holders.take(0));
        while id < self.mutex_list.len()
            invariant
                id <= self.mutex_list@.len(),
                g == self.wait_graph(),
                table@.waiters == g.waiters.take(id as int),
                table@.holders == g.holders.take(id as int),
            decreases self.mutex_list@.len() - id,
        {
            let mut waiting: Vec<usize> = Vec::new();
            let mut holding: Vec<usize> = Vec::new();
            if let Some(mutex) = &self.mutex_list[id] {
                waiting = mutex.waiting_tids();
                if let Some(owner_tid) = mutex.owner_tid() {
                    holding.push(owner_tid);
                    proof {
                        crate::sync::queue::lemma_push_to_set(Seq::empty(), owner_tid);
                        crate::sync::queue::lemma_empty_to_set(Seq::empty());
                    }
                    assert(holding@ =~= Seq::<usize>::empty().push(owner_tid));
                }
            }
            proof {
                if waiting@.len() == 0 {
                    crate::sync::queue::lemma_empty_to_set(waiting@);
                }
                if holding@.len() == 0 {
                    crate::sync::queue::lemma_empty_to_set(holding@);
                }
            }
            assert(g.waiters[id as int] == waiting@.to_set());
            assert(g.holders[id as int] =~= holding@.to_set());
            table = table.with(waiting, holding);
            assert(table@.waiters =~= g.waiters.take(id + 1));
            assert(table@.holders =~= g.holders.take(id + 1));
            id += 1;
        }
        let mut sem_id: usize = 0;
        while sem_id < self.semaphore_list.len()
            invariant
                sem_id <= self.semaphore_list@.len(),
                count == self.mutex_list@.len(),
                g == self.wait_graph(),
                table@.waiters == g.waiters.take(count + sem_id),
                table@.holders == g.holders.take(count + sem_id),
            decreases self.semaphore_list@.len() - sem_id,
        {
            let mut waiting: Vec<usize> = Vec::new();
            let mut holding: Vec<usize> = Vec::new();
            if let Some(sem) = &self.semaphore_list[sem_id] {
                waiting = sem.waiting_tids();
                holding = sem.holder_tids();
                assert(holding@.to_set() =~= super::deadlock::unit_holders(sem@)) by {
                    assert forall|t: usize| holding@.to_set().contains(t) <==> #[trigger]
                        super::deadlock::unit_holders(sem@).contains(t) by {
                        assert(holding@.contains(t) <==> crate::sync::semaphore::units_of(
                            sem@.holders,
                            t,
                        ) > 0);
                    }
                }
            } else {
                proof {
                    crate::sync::queue::lemma_empty_to_set(waiting@);
                    crate::sync::queue::lemma_empty_to_set(holding@);
                }
            }
            assert(g.waiters[count + sem_id] == waiting@.to_set());
            assert(g.holders[count + sem_id] == holding@.to_set());
            table = table.with(waiting, holding);
            assert(table@.waiters =~= g.waiters.take(count + sem_id + 1));
            assert(table@.holders =~= g.holders.take(count + sem_id + 1));
            sem_id += 1;
        }
        assert(table@.waiters =~= g.waiters);
        assert(table@.holders =~= g.holders);
        table
    }

    /// Check whether the requested mutex lock would deadlock.
    pub fn mutex_deadlock_on_request(&self, current_tid: usize, mutex_id: usize) -> (found: bool)
        ensures
            found == self.mutex_would_deadlock(current_tid, mutex_id as int),
            mutex_id < self.mutex_list@.len() && self.mutex_list@[mutex_id as int] is Some
                && self.mutex_list@[mutex_id as int]->0.state().owner == Some(current_tid) ==> found,
            found ==> mutex_id < self.mutex_list@.len() && self.mutex_list@[mutex_id as int] is Some
                && self.mutex_list@[mutex_id as int]->0.state().owner is Some,
    {
        proof {
            super::meaning::law_requests_of_a_process(self, current_tid, mutex_id as int);
            if mutex_id < self.mutex_list@.len() && self.mutex_list@[mutex_id as int] is Some
                && self.mutex_list@[mutex_id as int]->0.state().owner == Some(current_tid) {
                super::meaning::law_owner_that_asks_again_deadlocks(
                    self,
                    current_tid,
                    mutex_id as int,
                );
            }
        }
        if mutex_id >= self.mutex_list.len() {
            return false;
        }
        self.wait_table().would_deadlock(current_tid, mutex_id)
    }

    /// Check whether the requested semaphore down would deadlock.
    pub fn semaphore_deadlock_on_request(&self, current_tid: usize, sem_id: usize) -> (found: bool)
        ensures
            found == self.semaphore_would_deadlock(current_tid, sem_id as int),
            found ==> sem_id < self.semaphore_list@.len() && self.semaphore_list@[sem_id as int]
                is Some && self.semaphore_list@[sem_id as int]->0@.count <= 0,
    {
        if sem_id >= self.semaphore_list.len() {
            return false;
        }
        match &self.semaphore_list[sem_id] {
            Some(sem) => {
                if sem.available_count() > 0 {
                    return false;
                }
                let table = self.wait_table();
                let first: usize = table.count() - self.semaphore_list.len();
                table.would_deadlock(current_tid, first + sem_id)
            },
            None => false,
        }
    }

    /// Whether some chain of threads that wait for mutexes leads back to where it starts.
    pub fn has_mutex_deadlock(&self) -> (found: bool)
        ensures
            found == self.mutex_graph().has_cycle(),
    {
        let ghost g = self.mutex_graph();
        let mut id: usize = 0;
        while id < self.mutex_list.len()
            invariant
                id <= self.mutex_list@.len(),
                g == self.mutex_graph(),
                forall|k: int, w: usize, h: usize|
                    0 <= k < id && #[trigger] g.waits_at(w, k) && #[trigger] g.holders[k].contains(
                        h,
                    ) ==> !g.reaches(h, w),
            decreases self.mutex_list@.len() - id,
        {
            if let Some(mutex) = &self.mutex_list[id] {
                assert(g.waiters[id as int] == mutex.state().waiters.to_set());
                if let Some(owner_tid) = mutex.owner_tid() {
                    let waiting = mutex.waiting_tids();
                    let mut i: usize = 0;
                    while i < waiting.len()
                        invariant
                            i <= waiting@.len(),
                            id < self.mutex_list@.len(),
                            g == self.mutex_graph(),
                            g.waiters[id as int] == waiting@.to_set(),
                            g.holders[id as int] == set![owner_tid],
                            forall|j: int|
                                0 <= j < i ==> !g.reaches(owner_tid, #[trigger] waiting@[j]),
                        decreases waiting@.len() - i,
                    {
                        let waiter_tid: usize = waiting[i];
                        proof {
                            super::deadlock::lemma_reaches_self(g, waiter_tid);
                            assert(waiting@.contains(waiter_tid));
                            assert(g.waits_at(waiter_tid, id as int));
                            assert(g.holders[id as int].contains(owner_tid));
                        }
                        if owner_tid == waiter_tid || self.mutex_chain_reaches(
                            owner_tid,
                            waiter_tid,
                        ) {
                            return true;
                        }
                        i += 1;
                    }
                    assert forall|w: usize| g.waits_at(w, id as int) implies !g.reaches(
                        owner_tid,
                        w,
                    ) by {
                        assert(waiting@.contains(w));
                        let j = choose|j: int| 0 <= j < waiting@.len() && waiting@[j] == w;
                        assert(!g.reaches(owner_tid, waiting@[j]));
                    }
                }
            }
            id += 1;
        }
        false
    }

    /// Whether some chain of threads that wait for semaphores leads back to where it starts.
    /// Other holders may still give a unit back to a thread of such a chain.
    pub fn has_semaphore_deadlock(&self) -> (found: bool)
        ensures
            found == self.semaphore_graph().has_cycle(),
    {
        let ghost g = self.semaphore_graph();
        let mut id: usize = 0;
        while id < self.semaphore_list.len()
            invariant
                id <= self.semaphore_list@.len(),
                g == self.semaphore_graph(),
                forall|k: int, w: usize, h: usize|
                    0 <= k < id && #[trigger] g.waits_at(w, k) && #[trigger] g.holders[k].contains(
                        h,
                    ) ==> !g.reaches(h, w),
            decreases self.semaphore_list@.len() - id,
        {
            if let Some(sem) = &self.semaphore_list[id] {
                let holders = sem.holder_tids();
                let waiting = sem.waiting_tids();
                assert(forall|t: usize|
                    g.holders[id as int].contains(t) <==> #[trigger] holders@.contains(t));
                assert(g.waiters[id as int] == waiting@.to_set());
                let mut i: usize = 0;
                while i < waiting.len()
                    invariant
                        i <= waiting@.len(),
                        id < self.semaphore_list@.len(),
                        g == self.semaphore_graph(),
                        g.waiters[id as int] == waiting@.to_set(),
                        forall|t: usize|
                            g.holders[id as int].contains(t) <==> #[trigger] holders@.contains(t),
                        forall|j: int, h: usize|
                            0 <= j < i && g.holders[id as int].contains(h) ==> !#[trigger]
                                g.reaches(h, waiting@[j]),
                    decreases waiting@.len() - i,
                {
                    let waiter_tid: usize = waiting[i];
                    proof {
                        super::deadlock::lemma_reaches_self(g, waiter_tid);
                        assert(waiting@.contains(waiter_tid));
                        assert(g.waits_at(waiter_tid, id as int));
                    }
                    if contains_tid(&holders, waiter_tid) {
                        assert(g.holders[id as int].contains(waiter_tid));
                        return true;
                    }
                    let mut j: usize = 0;
                    while j < holders.len()
                        invariant
                            j <= holders@.len(),
                            g == self.semaphore_graph(),
                            g.waits_at(waiter_tid, id as int),
                            forall|t: usize|
                                g.holders[id as int].contains(t)
                                    <==> #[trigger] holders@.contains(t),
                            forall|k: int|
                                0 <= k < j ==> !g.reaches(#[trigger] holders@[k], waiter_tid),
                        decreases holders@.len() - j,
                    {
                        if self.semaphore_chain_reaches(holders[j], waiter_tid) {
                            assert(holders@.contains(holders@[j as int]));
                            assert(g.holders[id as int].contains(holders@[j as int]));
                            return true;
                        }
                        j += 1;
                    }
                    assert forall|h: usize| g.holders[id as int].contains(h) implies !g.reaches(
                        h,
                        waiter_tid,
                    ) by {
                        assert(holders@.contains(h));
                        let k = choose|k: int| 0 <= k < holders@.len() && holders@[k] == h;
                        assert(!g.reaches(holders@[k], waiter_tid));
                    }
                    i += 1;
                }
                assert forall|w: usize, h: usize|
                    g.waits_at(w, id as int) && g.holders[id as int].contains(h) implies !g.reaches(
                    h,
                    w,
                ) by {
                    assert(waiting@.contains(w));
                    let j = choose|j: int| 0 <= j < waiting@.len() && waiting@[j] == w;
                    assert(!g.reaches(h, waiting@[j]));
                }
            }
            id += 1;
        }
        false
    }
}

impl ProcessControlBlock {
    /// Check whether the requested mutex lock would deadlock.
    pub fn mutex_deadlock_on_request(&self, current_tid: usize, mutex_id: usize) -> (found: bool)
        ensures
            found == self.inner.mutex_would_deadlock(current_tid, mutex_id as int),
            mutex_id < self.inner.mutex_list@.len() && self.inner.mutex_list@[mutex_id as int] is Some
                && self.inner.mutex_list@[mutex_id as int]->0.state().owner == Some(current_tid)
                ==> found,
    {
        self.inner.mutex_deadlock_on_request(current_tid, mutex_id)
    }

    /// Check whether the requested semaphore down would deadlock.
    pub fn semaphore_deadlock_on_request(&self, current_tid: usize, sem_id: usize) -> (found: bool)
        ensures
            found == self.inner.semaphore_would_deadlock(current_tid, sem_id as int),
    {
        self.inner.semaphore_deadlock_on_request(current_tid, sem_id)
    }

    /// Check whether the current mutex/semaphore state already contains a deadlock.
    pub fn has_deadlock(&self) -> (found: bool)
        ensures
            found == exists|d: Set<usize>| #[trigger]
                self.inner.wait_graph().stuck(d) && !d.is_empty(),
    {
        let stuck: Vec<usize> = self.inner.wait_table().stuck_threads();
        let ghost g = self.inner.wait_graph();
        proof {
            super::deadlock::lemma_deadlocked_thread(g);
        }
        if stuck.len() > 0 {
            assert(stuck@.contains(stuck@[0]));
            assert(g.in_deadlock(stuck@[0]));
            true
        } else {
            assert forall|t: usize| !g.in_deadlock(t) by {
                assert(!stuck@.contains(t));
            }
            false
        }
    }
}

} // verus!
