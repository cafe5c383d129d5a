//! Counting semaphores that know which threads hold their units.

use super::queue::{queue_contains_tid, queue_tids, remove_waiter, WaitStep};
use crate::word::to_signed;
use std::collections::BTreeMap;
use std::collections::VecDeque;
use vstd::prelude::*;

verus! {

/// The units that `tid` holds.
pub open spec fn units_of(holders: Map<usize, usize>, tid: usize) -> int {
    if holders.contains_key(tid) {
        holders[tid] as int
    } else {
        0
    }
}

/// `tid` holds one unit more.
pub open spec fn add_unit(holders: Map<usize, usize>, tid: usize) -> Map<usize, usize> {
    holders.insert(tid, (units_of(holders, tid) + 1) as usize)
}

/// `tid` holds one unit less, and is forgotten with its last one.
pub open spec fn drop_unit(holders: Map<usize, usize>, tid: usize) -> Map<usize, usize> {
    if units_of(holders, tid) > 1 {
        holders.insert(tid, (units_of(holders, tid) - 1) as usize)
    } else if units_of(holders, tid) == 1 {
        holders.remove(tid)
    } else {
        holders
    }
}

/// All units that threads hold.
pub open spec fn held(holders: Map<usize, usize>) -> nat
    decreases holders.dom().len(),
{
    if holders.dom().finite() && holders.dom().len() > 0 {
        let t = holders.dom().choose();
        holders[t] as nat + held(holders.remove(t))
    } else {
        0
    }
}

/// The abstract state of a semaphore.
#[verifier::ext_equal]
pub struct SemaphoreState {
    /// Free units; negative while threads wait.
    pub count: int,
    /// The waiting threads, the one that came first in front.
    pub waiters: Seq<usize>,
    /// The units that each thread holds.
    pub holders: Map<usize, usize>,
    /// Threads that were given a unit and have not yet noticed.
    pub granted: Seq<usize>,
}

impl SemaphoreState {
    /// A semaphore that nobody holds or waits for.
    pub open spec fn initial(count: int) -> SemaphoreState {
        SemaphoreState {
            count,
            waiters: Seq::empty(),
            holders: Map::empty(),
            granted: Seq::empty(),
        }
    }

    /// What holds of a semaphore that starts with a count that is not negative, as long as threads
    /// ask for a unit only while they do not wait, are woken only by [`Semaphore::up`], and give a
    /// unit back only once they have noticed their own grant: a negative count says how many
    /// threads wait, nobody waits twice, holders hold at least one unit, and a thread with a
    /// pending grant is a holder and waits no more.
    pub open spec fn wf(self) -> bool {
        &&& self.waiters.len() == if self.count < 0 {
            -self.count
        } else {
            0
        }
        &&& self.waiters.no_duplicates()
        &&& self.holders.dom().finite()
        &&& forall|t: usize| #[trigger] self.holders.contains_key(t) ==> self.holders[t] > 0
        &&& self.granted.no_duplicates()
        &&& forall|t: usize| #[trigger]
            self.granted.contains(t) ==> self.holders.contains_key(t) && !self.waiters.contains(t)
    }

    /// All units, those that are free or held and those that were promised to waiting threads.
    pub open spec fn capacity(self) -> int {
        self.count + held(self.holders) + self.waiters.len()
    }

    /// Whether `up` wakes a thread.
    pub open spec fn up_wakes(self) -> bool {
        self.count + 1 <= 0 && self.waiters.len() > 0
    }

    /// Whether `up` by `tid` stays within the machine's integers.
    pub open spec fn up_fits(self, tid: usize) -> bool {
        &&& self.count < isize::MAX
        &&& self.up_wakes() ==> units_of(drop_unit(self.holders, tid), self.waiters[0])
            < usize::MAX
    }

    /// `tid` gives a unit back; the thread that waits longest, if any, gets it.
    pub open spec fn up(self, tid: usize) -> (SemaphoreState, Option<usize>) {
        let freed = drop_unit(self.holders, tid);
        if self.up_wakes() {
            let woken = self.waiters[0];
            (
                SemaphoreState {
                    count: self.count + 1,
                    waiters: self.waiters.drop_first(),
                    holders: add_unit(freed, woken),
                    granted: self.granted.push(woken),
                },
                Some(woken),
            )
        } else {
            (SemaphoreState { count: self.count + 1, holders: freed, ..self }, None)
        }
    }

    /// Whether `down` by `tid` stays within the machine's integers.
    pub open spec fn down_fits(self, tid: usize) -> bool {
        &&& self.count > isize::MIN
        &&& self.count > 0 ==> units_of(self.holders, tid) < usize::MAX
    }

    /// `tid` takes a unit, or joins the queue when none is free.
    pub open spec fn down(self, tid: usize) -> (SemaphoreState, WaitStep) {
        if self.count > 0 {
            (
                SemaphoreState {
                    count: self.count - 1,
                    holders: add_unit(self.holders, tid),
                    ..self
                },
                WaitStep::Acquired,
            )
        } else if self.waiters.contains(tid) {
            (SemaphoreState { count: self.count - 1, ..self }, WaitStep::Blocked)
        } else {
            (
                SemaphoreState {
                    count: self.count - 1,
                    waiters: self.waiters.push(tid),
                    ..self
                },
                WaitStep::Blocked,
            )
        }
    }

    /// Whether resuming `down` by `tid` stays within the machine's integers.
    pub open spec fn resume_fits(self, tid: usize) -> bool {
        !self.granted.contains(tid) ==> units_of(self.holders, tid) < usize::MAX
    }

    /// `tid` runs again after `down` had blocked it: it notices its grant, or, woken without
    /// one, counts as a holder all the same. Either way it waits no more.
    pub open spec fn resume_down(self, tid: usize) -> SemaphoreState {
        SemaphoreState {
            count: self.count,
            waiters: self.waiters.remove_value(tid),
            holders: if self.granted.contains(tid) {
                self.holders
            } else {
                add_unit(self.holders, tid)
            },
            granted: self.granted.remove_value(tid),
        }
    }

    /// `tid` holds a unit and does not wait for one.
    pub open spec fn held_by(self, tid: usize) -> bool {
        units_of(self.holders, tid) > 0 && !self.waiters.contains(tid)
    }
}

/// A counting semaphore. A request names the thread that makes it.
pub struct Semaphore {
    count: isize,
    wait_queue: VecDeque<usize>,
    holders: BTreeMap<usize, usize>,
    granted: VecDeque<usize>,
}

impl View for Semaphore {
    type V = SemaphoreState;

    closed spec fn view(&self) -> SemaphoreState {
        SemaphoreState {
            count: self.count as int,
            waiters: self.wait_queue@,
            holders: self.holders@,
            granted: self.granted@,
        }
    }
}

impl Semaphore {
    /// Creates a semaphore with `res_count` free units.
    pub fn new(res_count: usize) -> (sem: Self)
        ensures
            sem@ == SemaphoreState::initial(crate::word::signed(res_count)),
            sem@.count == res_count || sem@.count + usize::MAX + 1 == res_count,
            res_count <= isize::MAX ==> sem@.count == res_count,
            sem@.waiters.len() == 0,
            forall|t: usize| !sem@.holders.contains_key(t),
            sem@.granted.len() == 0,
    {
        Semaphore {
            count: to_signed(res_count),
            wait_queue: VecDeque::new(),
            holders: BTreeMap::new(),
            granted: VecDeque::new(),
        }
    }

    /// The units that `tid` holds.
    pub fn units_held(&self, tid: usize) -> (units: usize)
        ensures
            units == units_of(self@.holders, tid),
            self@.holders.contains_key(tid) ==> units == self@.holders[tid],
            !self@.holders.contains_key(tid) ==> units == 0,
    {
        broadcast use vstd::std_specs::btree::group_btree_axioms;

        match self.holders.get(&tid) {
            Some(units) => *units,
            None => 0,
        }
    }

    fn hold_unit(&mut self, tid: usize)
        requires
            units_of(old(self)@.holders, tid) < usize::MAX,
        ensures
            final(self)@ == (SemaphoreState {
                holders: add_unit(old(self)@.holders, tid),
                ..old(self)@
            }),
    {
        broadcast use vstd::std_specs::btree::group_btree_axioms;

        let units: usize = self.units_held(tid);
        self.holders.insert(tid, units + 1);
    }

    fn release_unit(&mut self, tid: usize)
        ensures
            final(self)@ == (SemaphoreState {
                holders: drop_unit(old(self)@.holders, tid),
                ..old(self)@
            }),
    {
        broadcast use vstd::std_specs::btree::group_btree_axioms;

        let units: usize = self.units_held(tid);
        if units > 1 {
            self.holders.insert(tid, units - 1);
        } else if units == 1 {
            self.holders.remove(&tid);
        }
    }

    /// Gives a unit of `tid` back and returns the thread to wake, if one waits.
    pub fn up(&mut self, tid: usize) -> (woken: Option<usize>)
        requires
            old(self)@.up_fits(tid),
        ensures
            (final(self)@, woken) == old(self)@.up(tid),
            final(self)@.count == old(self)@.count + 1,
            old(self)@.count < 0 && old(self)@.waiters.len() > 0 ==> woken == Some(
                old(self)@.waiters[0],
            ) && final(self)@.waiters == old(self)@.waiters.skip(1),
            !(old(self)@.count < 0 && old(self)@.waiters.len() > 0) ==> woken is None
                && final(self)@.waiters == old(self)@.waiters,
    {
        self.release_unit(tid);
        self.count += 1;
        if self.count <= 0 {
            if let Some(waking_tid) = self.wait_queue.pop_front() {
                self.hold_unit(waking_tid);
                self.granted.push_back(waking_tid);
                return Some(waking_tid);
            }
        }
        None
    }

    /// Takes a unit for `tid`, or makes it wait.
    pub fn down(&mut self, tid: usize) -> (step: WaitStep)
        requires
            old(self)@.down_fits(tid),
        ensures
            (final(self)@, step) == old(self)@.down(tid),
            step == WaitStep::Blocked <==> old(self)@.count <= 0,
            final(self)@.count == old(self)@.count - 1,
            old(self)@.count > 0 || old(self)@.waiters.contains(tid) ==> final(self)@.waiters
                == old(self)@.waiters,
            old(self)@.count <= 0 && !old(self)@.waiters.contains(tid) ==> final(self)@.waiters
                == old(self)@.waiters.push(tid),
            old(self)@.wf() && step == WaitStep::Acquired ==> final(self)@.held_by(tid),
    {
        proof {
            if self@.wf() {
                law_acquired_means_holder(self@, tid);
            }
        }
        self.count -= 1;
        if self.count < 0 {
            if !queue_contains_tid(&self.wait_queue, tid) {
                self.wait_queue.push_back(tid);
            }
            WaitStep::Blocked
        } else {
            self.hold_unit(tid);
            WaitStep::Acquired
        }
    }

    /// Ends a blocked `down` of `tid` after it was woken, whatever woke it.
    pub fn resume_down(&mut self, tid: usize)
        requires
            old(self)@.resume_fits(tid),
        ensures
            final(self)@ == old(self)@.resume_down(tid),
            old(self)@.wf() ==> final(self)@.held_by(tid),
    {
        proof {
            if self@.wf() {
                law_acquired_means_holder(self@, tid);
            }
        }
        if !remove_waiter(&mut self.granted, tid) {
            self.hold_unit(tid);
        }
        remove_waiter(&mut self.wait_queue, tid);
    }

    /// The number of available semaphore units.
    pub fn available_count(&self) -> (count: isize)
        ensures
            count == self@.count,
    {
        self.count
    }

    /// Get the tids currently waiting on this semaphore.
    pub fn waiting_tids(&self) -> (tids: Vec<usize>)
        ensures
            tids@ == self@.waiters,
    {
        queue_tids(&self.wait_queue)
    }

    /// Get the tids currently holding this semaphore, in increasing order.
    pub fn holder_tids(&self) -> (tids: Vec<usize>)
        ensures
            forall|t: usize| tids@.contains(t) <==> units_of(self@.holders, t) > 0,
            forall|t: usize|
                tids@.contains(t) <==> self@.holders.contains_key(t) && self@.holders[t] > 0,
            forall|i: int, j: int| 0 <= i < j < tids@.len() ==> tids@[i] < tids@[j],
    {
        broadcast use vstd::std_specs::btree::group_btree_axioms;

        let mut tids: Vec<usize> = Vec::new();
        let entries = self.holders.iter();
        let ghost all = vstd::std_specs::iter::IteratorSpec::remaining(&entries);
        let ghost keys = all.map_values(|kv: (&usize, &usize)| *kv.0);
        proof {
            lemma_increasing(keys);
        }
        let ghost mut from: Seq<int> = Seq::empty();
        for entry in it: entries
            invariant
                it.seq() == all,
                keys == all.map_values(|kv: (&usize, &usize)| *kv.0),
                forall|i: int, j: int| 0 <= i < j < keys.len() ==> keys[i] < keys[j],
                from.len() == tids@.len(),
                forall|i: int|
                    0 <= i < tids@.len() ==> 0 <= #[trigger] from[i] < it.index() && tids@[i]
                        == keys[from[i]] && *all[from[i]].1 > 0,
                forall|i: int, j: int| 0 <= i < j < from.len() ==> from[i] < from[j],
                forall|k: int|
                    0 <= k < it.index() && *all[k].1 > 0 ==> tids@.contains(
                        #[trigger] keys[k],
                    ),
        {
            let ghost before = tids@;
            if *entry.1 > 0 {
                tids.push(*entry.0);
                proof {
                    from = from.push(it.index());
                    assert(tids@[before.len() as int] == keys[it.index()]);
                }
            }
            assert forall|k: int| 0 <= k < it.index() && *all[k].1 > 0 implies tids@.contains(
                #[trigger] keys[k],
            ) by {
                assert(before.contains(keys[k]));
                let i = choose|i: int| 0 <= i < before.len() && before[i] == keys[k];
                assert(tids@[i] == keys[k]);
            }
        }
        assert forall|i: int, j: int| 0 <= i < j < tids@.len() implies tids@[i] < tids@[j] by {
            assert(from[i] < from[j]);
        }
        assert forall|t: usize| units_of(self@.holders, t) > 0 implies tids@.contains(t) by {
            assert(all.contains((&t, &self.holders@[t])));
            let k = choose|k: int| 0 <= k < all.len() && all[k] == (&t, &self.holders@[t]);
            assert(keys[k] == t);
        }
        assert forall|t: usize| tids@.contains(t) implies units_of(self@.holders, t) > 0 by {
            let i = choose|i: int| 0 <= i < tids@.len() && tids@[i] == t;
            assert(self.holders@.contains_key(*all[from[i]].0));
        }
        tids
    }
}

/// An increasing sequence of keys is increasing as numbers.
proof fn lemma_increasing(keys: Seq<usize>)
    requires
        vstd::std_specs::btree::increasing_seq(keys),
    ensures
        forall|i: int, j: int| 0 <= i < j < keys.len() ==> keys[i] < keys[j],
{
    broadcast use vstd::std_specs::btree::group_btree_axioms;

    assert forall|i: int, j: int| 0 <= i < j < keys.len() implies keys[i] < keys[j] by {
        assert(vstd::std_specs::cmp::OrdSpec::cmp_spec(&keys[i], &keys[j]) is Less);
    }
}

/// The units of one thread can be counted apart from the others.
pub proof fn lemma_held_remove(holders: Map<usize, usize>, t: usize)
    requires
        holders.dom().finite(),
        holders.contains_key(t),
    ensures
        held(holders) == holders[t] + held(holders.remove(t)),
    decreases holders.dom().len(),
{
    let c = holders.dom().choose();
    assert(holders.dom().contains(c));
    if c != t {
        let less = holders.remove(c);
        lemma_held_remove(less, t);
        lemma_held_remove(holders.remove(t), c);
        assert(less.remove(t) =~= holders.remove(t).remove(c));
    }
}

/// Setting the units of one thread changes the sum by the difference.
proof fn lemma_held_insert(holders: Map<usize, usize>, t: usize, units: usize)
    requires
        holders.dom().finite(),
    ensures
        held(holders.insert(t, units)) == held(holders) - units_of(holders, t) + units,
{
    let after = holders.insert(t, units);
    lemma_held_remove(after, t);
    if holders.contains_key(t) {
        lemma_held_remove(holders, t);
        assert(after.remove(t) =~= holders.remove(t));
    } else {
        assert(after.remove(t) =~= holders);
    }
}

/// One more unit is held.
proof fn lemma_held_add(holders: Map<usize, usize>, t: usize)
    requires
        holders.dom().finite(),
        units_of(holders, t) < usize::MAX,
    ensures
        held(add_unit(holders, t)) == held(holders) + 1,
        add_unit(holders, t).dom().finite(),
{
    lemma_held_insert(holders, t, (units_of(holders, t) + 1) as usize);
}

/// One unit less is held, if the thread held any.
proof fn lemma_held_drop(holders: Map<usize, usize>, t: usize)
    requires
        holders.dom().finite(),
    ensures
        held(drop_unit(holders, t)) == held(holders) - if units_of(holders, t) > 0 {
            1int
        } else {
            0int
        },
        drop_unit(holders, t).dom().finite(),
{
    if units_of(holders, t) > 1 {
        lemma_held_insert(holders, t, (units_of(holders, t) - 1) as usize);
    } else if units_of(holders, t) == 1 {
        lemma_held_remove(holders, t);
    }
}

/// A new semaphore with a count that is not negative is in order, and its capacity is the count.
pub proof fn law_new_semaphore(count: int)
    requires
        count >= 0,
    ensures
        SemaphoreState::initial(count).wf(),
        SemaphoreState::initial(count).capacity() == count,
{
}

/// A semaphore never lends more units than it has, and lends all of them when none is free.
pub proof fn law_holders_within_capacity(s: SemaphoreState)
    requires
        s.wf(),
    ensures
        held(s.holders) <= s.capacity(),
        s.count <= 0 ==> held(s.holders) == s.capacity(),
        s.count > 0 ==> held(s.holders) + s.count == s.capacity(),
{
}

/// Taking a unit, or waiting for one, keeps a semaphore in order and its capacity the same.
pub proof fn law_down_keeps_capacity(s: SemaphoreState, tid: usize)
    requires
        s.wf(),
        s.down_fits(tid),
        !s.waiters.contains(tid),
        !s.granted.contains(tid),
    ensures
        s.down(tid).0.wf(),
        s.down(tid).0.capacity() == s.capacity(),
{
    let after = s.down(tid).0;
    if s.count > 0 {
        lemma_held_add(s.holders, tid);
        assert forall|t: usize| #[trigger] after.granted.contains(t) implies
            after.holders.contains_key(t) && !after.waiters.contains(t) by {
            assert(s.granted.contains(t));
        }
    } else {
        super::queue::lemma_push_contains(s.waiters, tid);
        assert forall|t: usize| #[trigger] after.granted.contains(t) implies
            after.holders.contains_key(t) && !after.waiters.contains(t) by {
            assert(s.granted.contains(t));
        }
    }
}

/// A thread that resumes because a unit was granted to it leaves a semaphore in order, and its
/// capacity, holders and queue the same.
pub proof fn law_granted_resume_keeps_capacity(s: SemaphoreState, tid: usize)
    requires
        s.wf(),
        s.granted.contains(tid),
    ensures
        s.resume_down(tid).wf(),
        s.resume_down(tid).capacity() == s.capacity(),
        s.resume_down(tid).count == s.count,
        s.resume_down(tid).holders == s.holders,
        s.resume_down(tid).waiters == s.waiters,
        !s.resume_down(tid).granted.contains(tid),
{
    super::queue::lemma_remove_value(s.granted, tid);
    super::queue::lemma_remove_value(s.waiters, tid);
    let after = s.resume_down(tid);
    assert forall|t: usize| #[trigger] after.granted.contains(t) implies after.holders.contains_key(
        t,
    ) && !after.waiters.contains(t) by {
        assert(s.granted.contains(t));
    }
}

/// A thread whose `down` has ended holds a unit and waits no more, whether it got the unit at once
/// or was woken, and whatever woke it.
pub proof fn law_acquired_means_holder(s: SemaphoreState, tid: usize)
    requires
        s.wf(),
    ensures
        s.down_fits(tid) && s.down(tid).1 == WaitStep::Acquired ==> s.down(tid).0.held_by(tid),
        s.resume_fits(tid) ==> s.resume_down(tid).held_by(tid),
{
    super::queue::lemma_remove_value(s.waiters, tid);
}

/// Giving back a unit that a thread held keeps the capacity; giving one that it did not hold
/// adds to it. Either way the semaphore stays in order, provided that the thread has noticed its
/// own grant.
pub proof fn law_up_returns_or_adds_a_unit(s: SemaphoreState, tid: usize)
    requires
        s.wf(),
        s.up_fits(tid),
        !s.granted.contains(tid),
    ensures
        s.up(tid).0.wf(),
        s.up(tid).0.capacity() == s.capacity() + if units_of(s.holders, tid) > 0 {
            0int
        } else {
            1int
        },
{
    let freed = drop_unit(s.holders, tid);
    let after = s.up(tid).0;
    lemma_held_drop(s.holders, tid);
    assert forall|t: usize| t != tid && s.holders.contains_key(t) implies #[trigger]
        freed.contains_key(t) by {}
    if s.up_wakes() {
        let woken = s.waiters[0];
        super::queue::lemma_drop_first(s.waiters);
        assert(!s.granted.contains(woken));
        lemma_held_add(freed, woken);
        super::queue::lemma_push_contains(s.granted, woken);
        assert forall|t: usize| #[trigger] after.granted.contains(t) implies
            after.holders.contains_key(t) && !after.waiters.contains(t) by {
            if s.granted.contains(t) {
                assert(s.holders.contains_key(t));
            }
        }
    } else {
        assert forall|t: usize| #[trigger] after.granted.contains(t) implies
            after.holders.contains_key(t) && !after.waiters.contains(t) by {
            assert(s.granted.contains(t));
            assert(s.holders.contains_key(t));
        }
    }
}

/// While threads wait, a unit that is given back goes to the one that waits longest. It holds the
/// unit before it runs, so nobody takes it first: every other thread that asks is made to wait.
pub proof fn law_up_serves_longest_waiter(s: SemaphoreState, tid: usize, other: usize)
    requires
        s.wf(),
        s.up_fits(tid),
        s.waiters.len() > 0,
    ensures
        ({
            let first = s.waiters[0];
            let (after, woken) = s.up(tid);
            &&& woken == Some(first)
            &&& after.waiters == s.waiters.drop_first()
            &&& units_of(after.holders, first) == units_of(drop_unit(s.holders, tid), first) + 1
            &&& after.granted.contains(first)
            &&& after.down(other).1 == WaitStep::Blocked
            &&& units_of(after.resume_down(first).holders, first) > 0
        }),
{
    let after = s.up(tid).0;
    assert(after.granted[s.granted.len() as int] == s.waiters[0]);
}

/// A unit that was just taken can be given back, and the semaphore is as before.
pub proof fn law_up_undoes_down(s: SemaphoreState, tid: usize)
    requires
        s.wf(),
        s.count > 0,
        s.down_fits(tid),
    ensures
        s.down(tid).1 == WaitStep::Acquired,
        s.down(tid).0.up(tid) == (s, None::<usize>),
{
    let taken = s.down(tid).0;
    assert(drop_unit(taken.holders, tid) =~= s.holders);
}

/// A call on a semaphore.
pub enum SemaphoreCall {
    /// `tid` asks for a unit.
    Down { tid: usize },
    /// `tid`, which had blocked, runs again.
    ResumeDown { tid: usize },
    /// `tid` gives a unit back.
    Up { tid: usize },
}

impl SemaphoreState {
    /// The state after a call.
    pub open spec fn after(self, call: SemaphoreCall) -> SemaphoreState {
        match call {
            SemaphoreCall::Down { tid } => self.down(tid).0,
            SemaphoreCall::ResumeDown { tid } => self.resume_down(tid),
            SemaphoreCall::Up { tid } => self.up(tid).0,
        }
    }

    /// The calls that threads make within the machine's integers: a thread asks only while it does
    /// not wait, runs again after it was granted a unit, and has noticed that before its next call.
    pub open spec fn allows(self, call: SemaphoreCall) -> bool {
        match call {
            SemaphoreCall::Down { tid } => {
                &&& self.down_fits(tid)
                &&& !self.waiters.contains(tid)
                &&& !self.granted.contains(tid)
            },
            SemaphoreCall::ResumeDown { tid } => self.granted.contains(tid),
            SemaphoreCall::Up { tid } => self.up_fits(tid) && !self.granted.contains(tid),
        }
    }

    /// The units that a call adds to the capacity: one, where a thread gives back what it does not
    /// hold.
    pub open spec fn added_by(self, call: SemaphoreCall) -> int {
        match call {
            SemaphoreCall::Up { tid } => if units_of(self.holders, tid) > 0 {
                0
            } else {
                1
            },
            _ => 0,
        }
    }

    /// The state after several calls.
    pub open spec fn after_all(self, calls: Seq<SemaphoreCall>) -> SemaphoreState
        decreases calls.len(),
    {
        if calls.len() == 0 {
            self
        } else {
            self.after_all(calls.drop_last()).after(calls.last())
        }
    }

    /// Each of several calls is allowed when it comes.
    pub open spec fn allows_all(self, calls: Seq<SemaphoreCall>) -> bool
        decreases calls.len(),
    {
        calls.len() > 0 ==> {
            &&& self.allows_all(calls.drop_last())
            &&& self.after_all(calls.drop_last()).allows(calls.last())
        }
    }

    /// The units that several calls add to the capacity.
    pub open spec fn added_by_all(self, calls: Seq<SemaphoreCall>) -> int
        decreases calls.len(),
    {
        if calls.len() == 0 {
            0
        } else {
            self.added_by_all(calls.drop_last()) + self.after_all(calls.drop_last()).added_by(
                calls.last(),
            )
        }
    }
}

/// A semaphore that starts with `count` free units stays in order, whatever the threads do with
/// it, and always has those units and the ones that were given to it.
pub proof fn law_semaphore_stays_in_order(count: int, calls: Seq<SemaphoreCall>)
    requires
        count >= 0,
        SemaphoreState::initial(count).allows_all(calls),
    ensures
        SemaphoreState::initial(count).after_all(calls).wf(),
        SemaphoreState::initial(count).after_all(calls).capacity() == count
            + SemaphoreState::initial(count).added_by_all(calls),
    decreases calls.len(),
{
    let start = SemaphoreState::initial(count);
    if calls.len() == 0 {
        law_new_semaphore(count);
    } else {
        let before = start.after_all(calls.drop_last());
        law_semaphore_stays_in_order(count, calls.drop_last());
        match calls.last() {
            SemaphoreCall::Down { tid } => {
                law_down_keeps_capacity(before, tid);
            },
            SemaphoreCall::ResumeDown { tid } => {
                law_granted_resume_keeps_capacity(before, tid);
            },
            SemaphoreCall::Up { tid } => {
                law_up_returns_or_adds_a_unit(before, tid);
            },
        }
    }
}

/// A thread that blocks waits behind all that came before it, and nothing else changes but the
/// count.
pub proof fn law_newcomers_wait_behind(s: SemaphoreState, tid: usize)
    requires
        s.count <= 0,
        !s.waiters.contains(tid),
    ensures
        ({
            let (after, step) = s.down(tid);
            &&& step == WaitStep::Blocked
            &&& after.waiters.len() == s.waiters.len() + 1
            &&& after.waiters.take(s.waiters.len() as int) == s.waiters
            &&& after.waiters.last() == tid
            &&& after.count + 1 == s.count
            &&& after.holders == s.holders
            &&& after.granted == s.granted
        }),
{
    assert(s.down(tid).0.waiters.take(s.waiters.len() as int) =~= s.waiters);
}

/// A thread that asks while a unit is free gets one at once: its units grow by one, those of all
/// others stay, and so does the queue.
pub proof fn law_free_unit_is_taken(s: SemaphoreState, tid: usize)
    requires
        s.count > 0,
        s.down_fits(tid),
    ensures
        ({
            let (after, step) = s.down(tid);
            &&& step == WaitStep::Acquired
            &&& after.count + 1 == s.count
            &&& after.waiters == s.waiters
            &&& after.granted == s.granted
            &&& after.holders.contains_key(tid)
            &&& after.holders[tid] == 1 + if s.holders.contains_key(tid) {
                s.holders[tid] as int
            } else {
                0
            }
            &&& after.holders.remove(tid) == s.holders.remove(tid)
        }),
{
    assert(s.down(tid).0.holders.remove(tid) =~= s.holders.remove(tid));
}

/// A unit that is given back leaves its thread, if it held one, and goes to the thread that waits
/// longest, if one waits; no other thread holds more or less than before.
pub proof fn law_up_moves_one_unit(s: SemaphoreState, tid: usize, t: usize)
    requires
        s.up_fits(tid),
    ensures
        ({
            let (after, woken) = s.up(tid);
            let before_units = if s.holders.contains_key(t) {
                s.holders[t] as int
            } else {
                0
            };
            let after_units = if after.holders.contains_key(t) {
                after.holders[t] as int
            } else {
                0
            };
            &&& after.count == s.count + 1
            &&& woken is Some <==> s.count < 0 && s.waiters.len() > 0
            &&& woken matches Some(first) ==> first == s.waiters[0] && after.waiters
                == s.waiters.drop_first() && after.granted == s.granted.push(first)
            &&& woken is None ==> after.waiters == s.waiters && after.granted == s.granted
            &&& after_units == before_units - (if t == tid && before_units > 0 {
                1int
            } else {
                0
            }) + (if woken == Some(t) {
                1int
            } else {
                0
            })
        }),
{
}

/// A thread that runs again keeps the unit it was granted, or gets one if it was woken without a
/// grant. It waits no more and has no grant pending; all others are as before.
pub proof fn law_resume_settles_one_thread(s: SemaphoreState, tid: usize)
    requires
        s.waiters.no_duplicates(),
        s.granted.no_duplicates(),
        s.resume_fits(tid),
    ensures
        ({
            let after = s.resume_down(tid);
            &&& after.count == s.count
            &&& forall|t: usize| after.waiters.contains(t) <==> s.waiters.contains(t) && t != tid
            &&& forall|t: usize| after.granted.contains(t) <==> s.granted.contains(t) && t != tid
            &&& s.granted.contains(tid) ==> after.holders == s.holders
            &&& !s.granted.contains(tid) ==> {
                &&& after.holders.contains_key(tid)
                &&& after.holders[tid] == 1 + if s.holders.contains_key(tid) {
                    s.holders[tid] as int
                } else {
                    0
                }
                &&& after.holders.remove(tid) == s.holders.remove(tid)
            }
        }),
{
    super::queue::lemma_remove_value(s.waiters, tid);
    super::queue::lemma_remove_value(s.granted, tid);
    if !s.granted.contains(tid) {
        assert(s.resume_down(tid).holders.remove(tid) =~= s.holders.remove(tid));
    }
}

/// A waiting thread is woken by the `up` that follows one for each thread in front of it, whoever
/// calls `up`.
pub proof fn law_waiting_is_bounded(states: Seq<SemaphoreState>, tids: Seq<usize>, place: int)
    requires
        states.len() > place,
        tids.len() > place,
        states[0].count + states[0].waiters.len() <= 0,
        0 <= place < states[0].waiters.len(),
        forall|k: int|
            0 <= k < states.len() - 1 && k < tids.len() ==> #[trigger] states[k + 1] == states[k].up(
                tids[k],
            ).0,
    ensures
        states[place].up(tids[place]).1 == Some(states[0].waiters[place]),
        states[place].up(tids[place]).0.granted.contains(states[0].waiters[place]),
{
    lemma_ups_shift(states, tids, place);
    let last = states[place];
    assert(last.waiters[0] == states[0].waiters[place]);
    let woken = last.waiters[0];
    assert(last.up(tids[place]).0.granted == last.granted.push(woken));
    assert(last.granted.push(woken)[last.granted.len() as int] == woken);
}

proof fn lemma_ups_shift(states: Seq<SemaphoreState>, tids: Seq<usize>, n: int)
    requires
        0 <= n < states.len(),
        n <= tids.len(),
        states[0].count + states[0].waiters.len() <= 0,
        n < states[0].waiters.len(),
        forall|k: int|
            0 <= k < states.len() - 1 && k < tids.len() ==> #[trigger] states[k + 1] == states[k].up(
                tids[k],
            ).0,
    ensures
        states[n].waiters == states[0].waiters.skip(n),
        states[n].count == states[0].count + n,
    decreases n,
{
    if n > 0 {
        lemma_ups_shift(states, tids, n - 1);
        assert(states[n - 1 + 1] == states[n - 1].up(tids[n - 1]).0);
        assert(states[n - 1].waiters.drop_first() =~= states[0].waiters.skip(n));
    } else {
        assert(states[0].waiters.skip(0) =~= states[0].waiters);
    }
}

/// The calls that would leave the machine's integers, and no others, are left out.
pub proof fn law_calls_that_fit(s: SemaphoreState, tid: usize)
    ensures
        s.down_fits(tid) <==> s.count - 1 >= isize::MIN && (s.count > 0 && s.holders.contains_key(tid)
            ==> s.holders[tid] + 1 <= usize::MAX),
        s.resume_fits(tid) <==> (!s.granted.contains(tid) && s.holders.contains_key(tid)
            ==> s.holders[tid] + 1 <= usize::MAX),
        s.count + 1 <= isize::MAX && (s.count < 0 && s.waiters.len() > 0
            && s.holders.contains_key(s.waiters[0]) ==> s.holders[s.waiters[0]] + 1 <= usize::MAX)
            ==> s.up_fits(tid),
        s.up_fits(tid) ==> s.count + 1 <= isize::MAX,
{
}

} // verus!
