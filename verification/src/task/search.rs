//! Depth-first search along the waits of threads.

use super::deadlock::WaitGraph;
use vstd::prelude::*;

verus! {

impl WaitGraph {
    /// A search from `start` for `target` has expanded the `visited` threads and will look at
    /// those on the `stack`.
    pub open spec fn searching(
        self,
        start: usize,
        target: usize,
        visited: Seq<usize>,
        stack: Seq<usize>,
    ) -> bool {
        &&& self.wf()
        &&& forall|i: int| 0 <= i < stack.len() ==> self.reaches(start, #[trigger] stack[i])
        &&& visited.contains(start) || stack.contains(start)
        &&& !visited.contains(target)
        &&& forall|x: usize, y: usize|
            visited.contains(x) && #[trigger] self.waits_for(x, y) ==> visited.contains(y)
                || stack.contains(y)
    }

    /// The number of waiting threads that a search has not expanded.
    pub open spec fn unvisited(self, visited: Seq<usize>) -> nat {
        self.all_queued().difference(visited.to_set()).len()
    }

    /// The threads that `tid` waits for, listed.
    pub open spec fn lists_waits(self, tid: usize, listed: Seq<usize>) -> bool {
        forall|y: usize| listed.contains(y) <==> self.waits_for(tid, y)
    }
}

/// A thread outside a closed set is not reached from inside.
proof fn lemma_unreached(g: WaitGraph, s: Set<usize>, a: usize, b: usize)
    requires
        g.closed_set(s),
        s.contains(a),
        !s.contains(b),
    ensures
        !g.reaches(a, b),
{
    if g.reaches(a, b) {
        super::deadlock::lemma_closed_set(g, s, a, b);
    }
}

/// Visiting a queued thread for the first time leaves fewer to visit; visiting any other leaves
/// as many.
proof fn lemma_visit_shrinks(queued: Set<usize>, visited: Seq<usize>, tid: usize)
    requires
        queued.finite(),
        !visited.contains(tid),
    ensures
        queued.contains(tid) ==> queued.difference(visited.push(tid).to_set()).len()
            < queued.difference(visited.to_set()).len(),
        !queued.contains(tid) ==> queued.difference(visited.push(tid).to_set()).len()
            == queued.difference(visited.to_set()).len(),
{
    crate::sync::queue::lemma_push_contains(visited, tid);
    let left = queued.difference(visited.to_set());
    let now = queued.difference(visited.push(tid).to_set());
    assert(now =~= left.remove(tid));
    if !queued.contains(tid) {
        assert(now =~= left);
    } else {
        assert(left.contains(tid));
    }
}

/// A search begins.
pub proof fn lemma_search_begins(g: WaitGraph, start: usize, target: usize)
    requires
        g.wf(),
    ensures
        g.searching(start, target, Seq::empty(), seq![start]),
{
    super::deadlock::lemma_reaches_self(g, start);
    assert(seq![start][0] == start);
}

/// The members of a list are its last entry and those before it.
proof fn lemma_last(s: Seq<usize>)
    requires
        s.len() > 0,
    ensures
        s.contains(s.last()),
        forall|y: usize| s.contains(y) <==> s.drop_last().contains(y) || y == s.last(),
{
    assert(s =~= s.drop_last().push(s.last()));
    crate::sync::queue::lemma_push_contains(s.drop_last(), s.last());
}

/// A thread that is on the stack is reached, and need not be looked at twice.
pub proof fn lemma_search_skips(
    g: WaitGraph,
    start: usize,
    target: usize,
    visited: Seq<usize>,
    stack: Seq<usize>,
)
    requires
        g.searching(start, target, visited, stack),
        stack.len() > 0,
    ensures
        g.reaches(start, stack.last()),
        visited.contains(stack.last()) ==> g.searching(start, target, visited, stack.drop_last()),
{
    lemma_last(stack);
    assert(g.reaches(start, stack[stack.len() - 1]));
    assert forall|i: int| 0 <= i < stack.drop_last().len() implies g.reaches(
        start,
        #[trigger] stack.drop_last()[i],
    ) by {
        assert(g.reaches(start, stack[i]));
    }
}

/// A thread is expanded: it leaves the stack, and those that it waits for come on.
pub proof fn lemma_search_expands(
    g: WaitGraph,
    start: usize,
    target: usize,
    visited: Seq<usize>,
    stack: Seq<usize>,
    listed: Seq<usize>,
)
    requires
        g.searching(start, target, visited, stack),
        stack.len() > 0,
        stack.last() != target,
        !visited.contains(stack.last()),
        g.lists_waits(stack.last(), listed),
    ensures
        g.searching(start, target, visited.push(stack.last()), stack.drop_last() + listed),
        g.unvisited(visited.push(stack.last())) < g.unvisited(visited) || (g.unvisited(
            visited.push(stack.last()),
        ) == g.unvisited(visited) && listed.len() == 0),
{
    let tid = stack.last();
    let rest = stack.drop_last();
    let after = rest + listed;
    let now = visited.push(tid);
    lemma_last(stack);
    crate::sync::queue::lemma_push_contains(visited, tid);
    super::deadlock::lemma_queued(g, g.waiters.len() as int);
    lemma_visit_shrinks(g.all_queued(), visited, tid);
    assert(g.reaches(start, stack[stack.len() - 1]));
    assert forall|y: usize| rest.contains(y) || listed.contains(y) implies after.contains(y) by {
        if rest.contains(y) {
            let k = choose|k: int| 0 <= k < rest.len() && rest[k] == y;
            assert(after[k] == y);
        } else {
            let k = choose|k: int| 0 <= k < listed.len() && listed[k] == y;
            assert(after[rest.len() + k] == y);
        }
    }
    assert forall|k: int| 0 <= k < after.len() implies g.reaches(start, #[trigger] after[k]) by {
        if k < rest.len() {
            assert(g.reaches(start, stack[k]));
        } else {
            assert(listed.contains(listed[k - rest.len()]));
            super::deadlock::lemma_reaches_step(g, start, tid, after[k]);
        }
    }
    assert forall|x: usize, y: usize| now.contains(x) && #[trigger] g.waits_for(x, y) implies
        now.contains(y) || after.contains(y) by {
        if x == tid {
            assert(listed.contains(y));
        } else {
            assert(visited.contains(y) || stack.contains(y));
        }
    }
    if listed.len() > 0 {
        assert(listed.contains(listed[0]));
        let id = choose|id: int|
            #[trigger] g.waits_first_at(tid, id) && g.holders[id].contains(listed[0]);
        assert(g.waits_at(tid, id));
    }
}

/// A search that has nothing left to look at has shown that the target is not reached.
pub proof fn lemma_search_ends(g: WaitGraph, start: usize, target: usize, visited: Seq<usize>)
    requires
        g.searching(start, target, visited, Seq::empty()),
    ensures
        !g.reaches(start, target),
{
    lemma_unreached(g, visited.to_set(), start, target);
}

} // verus!
