//! Queues of thread ids.

use std::collections::VecDeque;
use vstd::prelude::*;

verus! {

/// What a thread does after it has asked for a lock or a unit of a semaphore.
#[derive(Clone, Copy, PartialEq, Eq, Structural, Debug)]
pub enum WaitStep {
    /// The thread has what it asked for and goes on.
    Acquired,
    /// The thread blocks, and resumes its request when it runs again.
    Blocked,
}

/// The position of the first entry for `tid`.
pub fn tid_position(queue: &VecDeque<usize>, tid: usize) -> (pos: Option<usize>)
    ensures
        match pos {
            Some(i) => i < queue@.len() && queue@[i as int] == tid && forall|j: int|
                0 <= j < i ==> queue@[j] != tid,
            None => !queue@.contains(tid),
        },
{
    let mut i: usize = 0;
    while i < queue.len()
        invariant
            i <= queue@.len(),
            forall|j: int| 0 <= j < i ==> queue@[j] != tid,
        decreases queue@.len() - i,
    {
        if queue[i] == tid {
            return Some(i);
        }
        i += 1;
    }
    None
}

/// Whether `tid` waits in the queue.
pub fn queue_contains_tid(queue: &VecDeque<usize>, tid: usize) -> (found: bool)
    ensures
        found == queue@.contains(tid),
{
    match tid_position(queue, tid) {
        Some(_) => true,
        None => false,
    }
}

/// Takes the first entry for `tid` out of the queue and says whether there was one.
pub fn remove_waiter(queue: &mut VecDeque<usize>, tid: usize) -> (found: bool)
    ensures
        found == old(queue)@.contains(tid),
        final(queue)@ == old(queue)@.remove_value(tid),
{
    proof {
        queue@.index_of_first_ensures(tid);
    }
    match tid_position(queue, tid) {
        Some(pos) => {
            let _ = queue.remove(pos);
            true
        },
        None => false,
    }
}

/// The queued ids, front first.
pub fn queue_tids(queue: &VecDeque<usize>) -> (tids: Vec<usize>)
    ensures
        tids@ == queue@,
{
    let mut tids: Vec<usize> = Vec::new();
    let mut i: usize = 0;
    while i < queue.len()
        invariant
            i <= queue@.len(),
            tids@ == queue@.take(i as int),
        decreases queue@.len() - i,
    {
        tids.push(queue[i]);
        i += 1;
    }
    tids
}

/// Whether the list holds `tid`.
pub fn contains_tid(tids: &Vec<usize>, tid: usize) -> (found: bool)
    ensures
        found == tids@.contains(tid),
{
    let mut i: usize = 0;
    while i < tids.len()
        invariant
            i <= tids@.len(),
            forall|j: int| 0 <= j < i ==> tids@[j] != tid,
        decreases tids@.len() - i,
    {
        if tids[i] == tid {
            return true;
        }
        i += 1;
    }
    false
}

/// What is left of a list without repetitions when one entry goes.
pub proof fn lemma_remove_value(s: Seq<usize>, tid: usize)
    requires
        s.no_duplicates(),
    ensures
        s.remove_value(tid).no_duplicates(),
        forall|t: usize| s.remove_value(tid).contains(t) <==> s.contains(t) && t != tid,
        !s.contains(tid) ==> s.remove_value(tid) == s,
{
    s.index_of_first_ensures(tid);
    let rest = s.remove_value(tid);
    if s.contains(tid) {
        let k = s.index_of_first(tid)->0;
        assert forall|t: usize| rest.contains(t) <==> s.contains(t) && t != tid by {
            if rest.contains(t) {
                let i = choose|i: int| 0 <= i < rest.len() && rest[i] == t;
                assert(s[if i < k { i } else { i + 1 }] == t);
            }
            if s.contains(t) && t != tid {
                let i = choose|i: int| 0 <= i < s.len() && s[i] == t;
                assert(rest[if i < k { i } else { i - 1 }] == t);
            }
        }
    }
}

/// What a list holds after a push.
pub proof fn lemma_push_contains(s: Seq<usize>, tid: usize)
    ensures
        forall|t: usize| s.push(tid).contains(t) <==> s.contains(t) || t == tid,
{
    assert forall|t: usize| s.push(tid).contains(t) <==> s.contains(t) || t == tid by {
        if s.contains(t) {
            let i = choose|i: int| 0 <= i < s.len() && s[i] == t;
            assert(s.push(tid)[i] == t);
        }
        if t == tid {
            assert(s.push(tid)[s.len() as int] == t);
        }
    }
}

/// The members of a list with one more entry.
pub proof fn lemma_push_to_set(s: Seq<usize>, t: usize)
    ensures
        s.push(t).to_set() == s.to_set().insert(t),
{
    lemma_push_contains(s, t);
    assert forall|x: usize| s.push(t).to_set().contains(x) <==> s.to_set().insert(t).contains(x) by {
        assert(s.push(t).contains(x) <==> s.contains(x) || x == t);
    }
    assert(s.push(t).to_set() =~= s.to_set().insert(t));
}

/// An empty list has no members.
pub proof fn lemma_empty_to_set(s: Seq<usize>)
    requires
        s.len() == 0,
    ensures
        s.to_set() == Set::<usize>::empty(),
{
    assert(s.to_set() =~= Set::<usize>::empty());
}

/// What is left of a list without repetitions when the first entry goes.
pub proof fn lemma_drop_first(s: Seq<usize>)
    requires
        s.len() > 0,
        s.no_duplicates(),
    ensures
        s.drop_first().no_duplicates(),
        forall|t: usize| s.drop_first().contains(t) <==> s.contains(t) && t != s[0],
        s.drop_first().to_set() == s.to_set().remove(s[0]),
        s.contains(s[0]),
{
    let rest = s.drop_first();
    assert forall|t: usize| rest.contains(t) <==> s.contains(t) && t != s[0] by {
        if rest.contains(t) {
            let i = choose|i: int| 0 <= i < rest.len() && rest[i] == t;
            assert(s[i + 1] == t);
        }
        if s.contains(t) && t != s[0] {
            let i = choose|i: int| 0 <= i < s.len() && s[i] == t;
            assert(rest[i - 1] == t);
        }
    }
    assert(rest.to_set() =~= s.to_set().remove(s[0]));
}

} // verus!
