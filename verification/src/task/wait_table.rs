//! Search for deadlocks among resources of any kind.

use super::deadlock::WaitGraph;
use crate::sync::queue::contains_tid;
use vstd::prelude::*;

verus! {

/// The waiting and the holding threads of each resource.
pub struct WaitTable {
    waiters: Vec<Vec<usize>>,
    holders: Vec<Vec<usize>>,
}

/// The members of each list.
pub open spec fn member_sets(lists: Seq<Vec<usize>>) -> Seq<Set<usize>> {
    lists.map_values(|list: Vec<usize>| list@.to_set())
}

/// A list once more.
fn copied(list: &Vec<usize>) -> (copy: Vec<usize>)
    ensures
        copy@ == list@,
{
    let mut copy: Vec<usize> = Vec::new();
    let mut i: usize = 0;
    while i < list.len()
        invariant
            i <= list@.len(),
            copy@ == list@.take(i as int),
        decreases list@.len() - i,
    {
        copy.push(list[i]);
        i += 1;
    }
    copy
}

impl View for WaitTable {
    type V = WaitGraph;

    closed spec fn view(&self) -> WaitGraph {
        WaitGraph { waiters: member_sets(self.waiters@), holders: member_sets(self.holders@) }
    }
}

impl WaitTable {
    /// Every resource has a list of waiting and one of holding threads.
    #[verifier::type_invariant]
    spec fn inv(self) -> bool {
        self.waiters@.len() == self.holders@.len()
    }

    /// A table without resources.
    pub fn new() -> (table: Self)
        ensures
            table@.waiters.len() == 0,
            table@.holders.len() == 0,
    {
        WaitTable { waiters: Vec::new(), holders: Vec::new() }
    }

    /// The number of resources.
    pub fn count(&self) -> (count: usize)
        ensures
            count == self@.waiters.len(),
    {
        self.waiters.len()
    }

    /// The table with one resource more.
    pub fn with(self, waiting: Vec<usize>, holding: Vec<usize>) -> (table: Self)
        ensures
            table@.waiters == self@.waiters.push(waiting@.to_set()),
            table@.holders == self@.holders.push(holding@.to_set()),
    {
        proof {
            use_type_invariant(&self);
        }
        let mut waiters: Vec<Vec<usize>> = self.waiters;
        let mut holders: Vec<Vec<usize>> = self.holders;
        waiters.push(waiting);
        holders.push(holding);
        let table = WaitTable { waiters, holders };
        assert(table@.waiters =~= self@.waiters.push(waiting@.to_set()));
        assert(table@.holders =~= self@.holders.push(holding@.to_set()));
        table
    }

    /// The graph is one of finitely many waiting threads.
    proof fn lemma_wf(&self)
        requires
            self.inv(),
        ensures
            self@.wf(),
    {
        let g = self@;
        assert forall|id: int| 0 <= id < g.waiters.len() implies (
        #[trigger] g.waiters[id]).finite() by {
            vstd::seq_lib::seq_to_set_is_finite(self.waiters@[id]@);
        }
    }

    /// The table once `tid` has joined the queue of resource `id`.
    pub fn with_waiter(self, tid: usize, id: usize) -> (table: Self)
        requires
            id < self@.waiters.len(),
        ensures
            table@ == self@.add_waiter(tid, id as int),
    {
        proof {
            use_type_invariant(&self);
        }
        let ghost before = self@;
        let mut waiters: Vec<Vec<usize>> = self.waiters;
        let mut queue: Vec<usize> = copied(&waiters[id]);
        proof {
            crate::sync::queue::lemma_push_to_set(queue@, tid);
        }
        queue.push(tid);
        waiters.set(id, queue);
        let table = WaitTable { waiters, holders: self.holders };
        assert(table@.waiters =~= before.waiters.update(
            id as int,
            before.waiters[id as int].insert(tid),
        ));
        table
    }

    /// The resource that a thread waits for.
    pub fn waiting_at(&self, tid: usize) -> (found: Option<usize>)
        ensures
            match found {
                Some(id) => id < self@.waiters.len() && self@.waits_first_at(tid, id as int),
                None => self@.runs(tid),
            },
    {
        let mut id: usize = 0;
        while id < self.waiters.len()
            invariant
                id <= self.waiters@.len(),
                forall|j: int| 0 <= j < id ==> !self@.waits_at(tid, j),
            decreases self.waiters@.len() - id,
        {
            if contains_tid(&self.waiters[id], tid) {
                return Some(id);
            }
            id += 1;
        }
        None
    }

    /// Whether some chain of waiting threads leads from one thread to another.
    pub fn reaches(&self, start_tid: usize, target_tid: usize) -> (found: bool)
        ensures
            found == self@.reaches(start_tid, target_tid),
    {
        let ghost g = self@;
        let mut stack: Vec<usize> = Vec::new();
        stack.push(start_tid);
        let mut visited: Vec<usize> = Vec::new();
        proof {
            use_type_invariant(self);
            self.lemma_wf();
            super::search::lemma_search_begins(g, start_tid, target_tid);
            assert(stack@ =~= seq![start_tid]);
        }
        while stack.len() > 0
            invariant
                g == self@,
                self.waiters@.len() == self.holders@.len(),
                g.searching(start_tid, target_tid, visited@, stack@),
            decreases g.unvisited(visited@), stack@.len(),
        {
            let ghost full = stack@;
            let ghost before = visited@;
            proof {
                super::search::lemma_search_skips(g, start_tid, target_tid, before, full);
            }
            let tid: usize = stack.pop().unwrap();
            if tid == target_tid {
                return true;
            }
            if !contains_tid(&visited, tid) {
                visited.push(tid);
                let mut holding: Vec<usize> = Vec::new();
                match self.waiting_at(tid) {
                    Some(id) => {
                        proof {
                            super::deadlock::lemma_waits_for_holders(g, tid, id as int);
                        }
                        holding = copied(&self.holders[id]);
                        assert(g.holders[id as int] == holding@.to_set());
                    },
                    None => {
                        proof {
                            super::deadlock::lemma_runs_waits_for_none(g, tid);
                        }
                    },
                }
                proof {
                    super::search::lemma_search_expands(
                        g,
                        start_tid,
                        target_tid,
                        before,
                        full,
                        holding@,
                    );
                }
                stack.append(&mut holding);
            }
        }
        proof {
            assert(stack@ =~= Seq::<usize>::empty());
            super::search::lemma_search_ends(g, start_tid, target_tid, visited@);
        }
        false
    }

    /// Whether resource `id` is held, and by members of the group only.
    fn is_held_within(&self, id: usize, group: &Vec<usize>) -> (held: bool)
        requires
            id < self@.holders.len(),
        ensures
            held == self@.held_within(id as int, group@.to_set()),
    {
        let ghost holding = self.holders@[id as int]@;
        assert(self@.holders[id as int] == holding.to_set());
        let mut i: usize = 0;
        while i < self.holders[id].len()
            invariant
                id < self.holders@.len(),
                holding == self.holders@[id as int]@,
                self@.holders[id as int] == holding.to_set(),
                i <= holding.len(),
                forall|k: int| 0 <= k < i ==> group@.contains(#[trigger] holding[k]),
            decreases holding.len() - i,
        {
            if !contains_tid(group, self.holders[id][i]) {
                assert(holding.contains(holding[i as int]));
                assert(self@.holders[id as int].contains(holding[i as int]));
                assert(!group@.to_set().contains(holding[i as int]));
                return false;
            }
            i += 1;
        }
        assert forall|h: usize| self@.holders[id as int].contains(h) implies group@.to_set().contains(
            h,
        ) by {
            assert(holding.contains(h));
        }
        if self.holders[id].len() > 0 {
            assert(holding.contains(holding[0]));
            assert(self@.holders[id as int].contains(holding[0]));
            true
        } else {
            false
        }
    }

    /// Whether a thread waits at a resource that only members of the group can give back.
    fn is_blocked_within(&self, tid: usize, group: &Vec<usize>) -> (blocked: bool)
        ensures
            blocked == self@.blocked_within(tid, group@.to_set()),
    {
        proof {
            use_type_invariant(self);
        }
        let mut id: usize = 0;
        while id < self.waiters.len()
            invariant
                self.waiters@.len() == self.holders@.len(),
                id <= self.waiters@.len(),
                forall|k: int|
                    0 <= k < id ==> !(#[trigger] self@.waits_at(tid, k) && self@.held_within(
                        k,
                        group@.to_set(),
                    )),
            decreases self.waiters@.len() - id,
        {
            if contains_tid(&self.waiters[id], tid) && self.is_held_within(id, group) {
                assert(self@.waits_at(tid, id as int));
                return true;
            }
            id += 1;
        }
        false
    }

    /// All waiting threads.
    fn queued_threads(&self) -> (tids: Vec<usize>)
        ensures
            forall|t: usize| tids@.contains(t) <==> exists|id: int| self@.waits_at(t, id),
    {
        let mut tids: Vec<usize> = Vec::new();
        let mut id: usize = 0;
        while id < self.waiters.len()
            invariant
                id <= self.waiters@.len(),
                forall|t: usize|
                    tids@.contains(t) <==> exists|k: int|
                        0 <= k < id && #[trigger] self@.waits_at(t, k),
            decreases self.waiters@.len() - id,
        {
            let ghost before = tids@;
            let ghost waiting = self.waiters@[id as int]@;
            let mut i: usize = 0;
            while i < self.waiters[id].len()
                invariant
                    id < self.waiters@.len(),
                    waiting == self.waiters@[id as int]@,
                    i <= waiting.len(),
                    tids@ == before + waiting.take(i as int),
                decreases waiting.len() - i,
            {
                tids.push(self.waiters[id][i]);
                i += 1;
            }
            assert(waiting.take(i as int) =~= waiting);
            assert forall|t: usize| tids@.contains(t) <==> before.contains(t) || waiting.contains(
                t,
            ) by {
                if tids@.contains(t) {
                    let k = choose|k: int| 0 <= k < tids@.len() && tids@[k] == t;
                    if k < before.len() {
                        assert(before[k] == t);
                    } else {
                        assert(waiting[k - before.len()] == t);
                    }
                }
                if before.contains(t) {
                    let k = choose|k: int| 0 <= k < before.len() && before[k] == t;
                    assert(tids@[k] == t);
                }
                if waiting.contains(t) {
                    let k = choose|k: int| 0 <= k < waiting.len() && waiting[k] == t;
                    assert(tids@[before.len() + k] == t);
                }
            }
            assert forall|t: usize| waiting.contains(t) <==> self@.waits_at(t, id as int) by {}
            assert forall|t: usize|
                tids@.contains(t) <==> exists|k: int|
                    0 <= k < id + 1 && #[trigger] self@.waits_at(t, k) by {
                if before.contains(t) {
                    let k = choose|k: int| 0 <= k < id && #[trigger] self@.waits_at(t, k);
                    assert(0 <= k < id + 1 && self@.waits_at(t, k));
                }
                if waiting.contains(t) {
                    assert(self@.waits_at(t, id as int));
                }
            }
            id += 1;
        }
        tids
    }

    /// The threads that can never go on.
    pub fn stuck_threads(&self) -> (tids: Vec<usize>)
        ensures
            forall|t: usize| tids@.contains(t) <==> self@.in_deadlock(t),
    {
        let ghost g = self@;
        let mut group: Vec<usize> = self.queued_threads();
        proof {
            assert forall|d: Set<usize>, t: usize| #[trigger] g.stuck(d) && #[trigger] d.contains(
                t,
            ) implies group@.contains(t) by {
                assert(g.blocked_within(t, d));
                let id = choose|id: int| #[trigger] g.waits_at(t, id) && g.held_within(id, d);
                assert(g.waits_at(t, id));
            }
        }
        let mut i: usize = 0;
        // all that stand before position `i` are blocked within the group
        while i < group.len()
            invariant
                g == self@,
                i <= group@.len(),
                forall|d: Set<usize>, t: usize| #[trigger]
                    g.stuck(d) && #[trigger] d.contains(t) ==> group@.contains(t),
                forall|k: int|
                    0 <= k < i ==> g.blocked_within(#[trigger] group@[k], group@.to_set()),
            decreases group@.len(), group@.len() - i,
        {
            if self.is_blocked_within(group[i], &group) {
                i += 1;
            } else {
                let ghost before = group@;
                let free: usize = group[i];
                group.remove(i);
                proof {
                    assert forall|d: Set<usize>, t: usize| #[trigger]
                        g.stuck(d) && #[trigger] d.contains(t) implies group@.contains(t) by {
                        assert forall|x: usize| d.contains(x) implies before.to_set().contains(
                            x,
                        ) by {
                            assert(before.contains(x));
                        }
                        assert(g.blocked_within(t, d));
                        super::deadlock::lemma_blocked_within_more(g, t, d, before.to_set());
                        assert(t != free);
                        let k = choose|k: int| 0 <= k < before.len() && before[k] == t;
                        assert(k != i);
                        assert(group@[if k < i { k } else { k - 1 }] == t);
                    }
                }
                i = 0;
            }
        }
        proof {
            let all = group@.to_set();
            assert forall|t: usize| #[trigger] all.contains(t) implies g.blocked_within(t, all) by {
                let k = choose|k: int| 0 <= k < group@.len() && group@[k] == t;
                assert(g.blocked_within(group@[k], group@.to_set()));
            }
            assert(g.stuck(all));
            assert forall|t: usize| group@.contains(t) implies g.in_deadlock(t) by {
                assert(all.contains(t));
            }
        }
        group
    }

    /// Whether a thread that waited at a resource could never go on, and would be one of those
    /// that it waits for.
    pub fn would_deadlock(self, tid: usize, id: usize) -> (found: bool)
        requires
            id < self@.waiters.len(),
        ensures
            found == self@.would_deadlock(tid, id as int),
    {
        let ghost g = self@;
        proof {
            use_type_invariant(&self);
        }
        let ghost holding = self.holders@[id as int]@;
        assert(g.holders[id as int] == holding.to_set());
        let mut closes: bool = false;
        let mut i: usize = 0;
        while i < self.holders[id].len()
            invariant
                g == self@,
                id < self.holders@.len(),
                holding == self.holders@[id as int]@,
                i <= holding.len(),
                closes <==> exists|k: int| 0 <= k < i && g.reaches(#[trigger] holding[k], tid),
            decreases holding.len() - i,
        {
            if self.reaches(self.holders[id][i], tid) {
                closes = true;
            }
            i += 1;
        }
        proof {
            if closes {
                let k = choose|k: int| 0 <= k < holding.len() && g.reaches(
                    #[trigger] holding[k],
                    tid,
                );
                assert(holding.contains(holding[k]));
                assert(g.holders[id as int].contains(holding[k]));
            }
            if g.closes_cycle(tid, id as int) {
                let h = choose|h: usize| #[trigger]
                    g.holders[id as int].contains(h) && g.reaches(h, tid);
                assert(holding.contains(h));
                let k = choose|k: int| 0 <= k < holding.len() && holding[k] == h;
                assert(g.reaches(holding[k], tid));
            }
        }
        if !closes {
            return false;
        }
        let stuck: Vec<usize> = self.with_waiter(tid, id).stuck_threads();
        contains_tid(&stuck, tid)
    }
}

} // verus!
