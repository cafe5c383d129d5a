//! Allocation of ids.

use vstd::prelude::*;

verus! {

/// The id of a process.
#[derive(Clone, Copy, PartialEq, Eq, Structural, Debug)]
pub struct PidHandle(pub usize);

/// The abstract state of a [`RecycleAllocator`].
#[verifier::ext_equal]
pub struct IdState {
    /// Ids from here on were never handed out.
    pub current: nat,
    /// Returned ids, the last one on top.
    pub recycled: Seq<usize>,
}

impl IdState {
    /// Returned ids were handed out before, and none was returned twice.
    pub open spec fn wf(self) -> bool {
        &&& self.recycled.no_duplicates()
        &&& forall|i: int| 0 <= i < self.recycled.len() ==> self.recycled[i] < self.current
    }

    /// Nothing was handed out yet.
    pub open spec fn initial() -> IdState {
        IdState { current: 0, recycled: Seq::empty() }
    }

    /// The ids that are handed out at present.
    pub open spec fn in_use(self) -> Set<usize> {
        Set::new(|id: usize| id < self.current && !self.recycled.contains(id))
    }

    /// Whether an id is left to hand out.
    pub open spec fn has_next(self) -> bool {
        self.recycled.len() > 0 || self.current < usize::MAX
    }

    /// The id that comes next.
    pub open spec fn next(self) -> int {
        if self.recycled.len() > 0 {
            self.recycled.last() as int
        } else {
            self.current as int
        }
    }

    /// The next id was handed out.
    pub open spec fn taken(self) -> IdState {
        if self.recycled.len() > 0 {
            IdState { recycled: self.recycled.drop_last(), ..self }
        } else {
            IdState { current: self.current + 1, ..self }
        }
    }

    /// An id was returned.
    pub open spec fn returned(self, id: usize) -> IdState {
        IdState { recycled: self.recycled.push(id), ..self }
    }
}

/// An id that is handed out was free and is in use from then on; all others stay as they were.
pub proof fn law_alloc_gives_unused_id(s: IdState)
    requires
        s.wf(),
        s.has_next(),
    ensures
        0 <= s.next() <= usize::MAX,
        !s.in_use().contains(s.next() as usize),
        s.taken().in_use() == s.in_use().insert(s.next() as usize),
        s.taken().wf(),
{
    let id = s.next() as usize;
    if s.recycled.len() > 0 {
        let rest = s.recycled.drop_last();
        assert(s.recycled[s.recycled.len() - 1] == id);
        assert forall|x: usize| s.taken().in_use().contains(x) <==> s.in_use().insert(id).contains(
            x,
        ) by {
            if s.recycled.contains(x) && x != id {
                let i = choose|i: int| 0 <= i < s.recycled.len() && s.recycled[i] == x;
                assert(rest[i] == x);
            }
            if rest.contains(x) {
                let i = choose|i: int| 0 <= i < rest.len() && rest[i] == x;
                assert(s.recycled[i] == x);
            }
        }
    }
    assert(s.taken().in_use() =~= s.in_use().insert(id));
}

/// An id that is returned is no longer in use, and is the next one to be handed out.
pub proof fn law_dealloc_frees_id(s: IdState, id: usize)
    requires
        s.wf(),
        s.in_use().contains(id),
    ensures
        s.returned(id).in_use() == s.in_use().remove(id),
        s.returned(id).wf(),
        s.returned(id).next() == id,
        s.returned(id).taken() == s,
{
    let more = s.returned(id).recycled;
    crate::sync::queue::lemma_push_contains(s.recycled, id);
    assert(s.returned(id).in_use() =~= s.in_use().remove(id));
    assert(more.drop_last() =~= s.recycled);
}

/// A call on an allocator.
pub enum IdCall {
    /// An id is handed out.
    Alloc,
    /// An id is taken back.
    Dealloc { id: usize },
}

impl IdState {
    /// The state after a call.
    pub open spec fn after(self, call: IdCall) -> IdState {
        match call {
            IdCall::Alloc => self.taken(),
            IdCall::Dealloc { id } => self.returned(id),
        }
    }

    /// An id is left to hand out, and only what was handed out is taken back.
    pub open spec fn allows(self, call: IdCall) -> bool {
        match call {
            IdCall::Alloc => self.has_next(),
            IdCall::Dealloc { id } => self.in_use().contains(id),
        }
    }

    /// The state of a new allocator after several calls.
    pub open spec fn after_all(calls: Seq<IdCall>) -> IdState
        decreases calls.len(),
    {
        if calls.len() == 0 {
            IdState::initial()
        } else {
            IdState::after_all(calls.drop_last()).after(calls.last())
        }
    }

    /// Each of several calls on a new allocator is allowed when it comes.
    pub open spec fn allows_all(calls: Seq<IdCall>) -> bool
        decreases calls.len(),
    {
        calls.len() > 0 ==> {
            &&& IdState::allows_all(calls.drop_last())
            &&& IdState::after_all(calls.drop_last()).allows(calls.last())
        }
    }

    /// The ids that several calls on a new allocator have handed out and not taken back since.
    pub open spec fn outstanding(calls: Seq<IdCall>) -> Set<usize>
        decreases calls.len(),
    {
        if calls.len() == 0 {
            Set::empty()
        } else {
            let before = IdState::outstanding(calls.drop_last());
            match calls.last() {
                IdCall::Alloc => before.insert(
                    IdState::after_all(calls.drop_last()).next() as usize,
                ),
                IdCall::Dealloc { id } => before.remove(id),
            }
        }
    }
}

/// After any calls, the next id handed out is none of those that were handed out before and not
/// taken back since.
pub proof fn law_new_id_is_not_outstanding(calls: Seq<IdCall>)
    requires
        IdState::allows_all(calls),
    ensures
        IdState::after_all(calls).wf(),
        IdState::after_all(calls).in_use() == IdState::outstanding(calls),
        IdState::after_all(calls).has_next() ==> !IdState::outstanding(calls).contains(
            IdState::after_all(calls).next() as usize,
        ),
    decreases calls.len(),
{
    let s = IdState::after_all(calls);
    if calls.len() == 0 {
        assert(s.in_use() =~= Set::<usize>::empty());
    } else {
        let before = IdState::after_all(calls.drop_last());
        law_new_id_is_not_outstanding(calls.drop_last());
        match calls.last() {
            IdCall::Alloc => {
                law_alloc_gives_unused_id(before);
            },
            IdCall::Dealloc { id } => {
                law_dealloc_frees_id(before, id);
            },
        }
    }
    if s.has_next() {
        law_alloc_gives_unused_id(s);
    }
}

/// Hands out ids, the one returned last first.
pub struct RecycleAllocator {
    current: usize,
    recycled: Vec<usize>,
}

impl View for RecycleAllocator {
    type V = IdState;

    closed spec fn view(&self) -> IdState {
        IdState { current: self.current as nat, recycled: self.recycled@ }
    }
}

impl RecycleAllocator {
    /// The allocator is in order.
    #[verifier::type_invariant]
    spec fn inv(self) -> bool {
        self@.wf()
    }

    /// An allocator that has handed out nothing.
    pub fn new() -> (a: Self)
        ensures
            a@ == IdState::initial(),
            a@.in_use() == Set::<usize>::empty(),
    {
        RecycleAllocator { current: 0, recycled: Vec::new() }
    }

    /// Hands out an id that is not in use.
    pub fn alloc_id(&mut self) -> (id: usize)
        requires
            old(self)@.has_next(),
        ensures
            id == old(self)@.next(),
            final(self)@ == old(self)@.taken(),
            !old(self)@.in_use().contains(id),
            final(self)@.in_use() == old(self)@.in_use().insert(id),
    {
        proof {
            use_type_invariant(&*self);
            law_alloc_gives_unused_id(self@);
        }
        let mut recycled: Vec<usize> = Vec::new();
        core::mem::swap(&mut recycled, &mut self.recycled);
        if let Some(id) = recycled.pop() {
            self.recycled = recycled;
            id
        } else {
            let id: usize = self.current;
            self.current = self.current + 1;
            id
        }
    }

    /// Takes an id back.
    pub fn dealloc_id(&mut self, id: usize)
        requires
            old(self)@.in_use().contains(id),
        ensures
            final(self)@ == old(self)@.returned(id),
            final(self)@.in_use() == old(self)@.in_use().remove(id),
    {
        proof {
            use_type_invariant(&*self);
            law_dealloc_frees_id(self@, id);
        }
        let mut recycled: Vec<usize> = Vec::new();
        core::mem::swap(&mut recycled, &mut self.recycled);
        recycled.push(id);
        self.recycled = recycled;
    }
}

/// Ids that are handed out one after the other, with none taken back between, are all different.
pub proof fn law_ids_handed_out_differ(states: Seq<IdState>, i: int, j: int)
    requires
        0 <= i < j < states.len(),
        states[0].wf(),
        forall|k: int| 0 <= k < states.len() ==> (#[trigger] states[k]).has_next(),
        forall|k: int|
            0 <= k < states.len() - 1 ==> #[trigger] states[k + 1] == states[k].taken(),
    ensures
        states[i].next() != states[j].next(),
        0 <= states[i].next() <= usize::MAX,
{
    lemma_ids_stay_in_use(states, i, j);
    law_alloc_gives_unused_id(states[i]);
    law_alloc_gives_unused_id(states[j]);
}

/// An id stays in use while others are handed out.
proof fn lemma_ids_stay_in_use(states: Seq<IdState>, i: int, j: int)
    requires
        0 <= i <= j < states.len(),
        states[0].wf(),
        forall|k: int| 0 <= k < states.len() ==> (#[trigger] states[k]).has_next(),
        forall|k: int|
            0 <= k < states.len() - 1 ==> #[trigger] states[k + 1] == states[k].taken(),
    ensures
        states[i].wf(),
        states[j].wf(),
        i < j ==> states[j].in_use().contains(states[i].next() as usize),
    decreases j,
{
    if j > 0 {
        assert(states[j - 1 + 1] == states[j - 1].taken());
        if i < j {
            lemma_ids_stay_in_use(states, i, j - 1);
            law_alloc_gives_unused_id(states[j - 1]);
        } else {
            lemma_ids_stay_in_use(states, j - 1, j - 1);
            law_alloc_gives_unused_id(states[j - 1]);
        }
    }
}

/// A new allocator hands out zero, one, two and so on; an id that was taken back comes next.
pub proof fn law_ids_count_up(states: Seq<IdState>, n: int, back: usize)
    requires
        0 <= n < states.len(),
        states[0] == IdState::initial(),
        forall|k: int|
            0 <= k < states.len() - 1 ==> #[trigger] states[k + 1] == states[k].taken(),
    ensures
        states[n].next() == n,
        states[n].has_next() <==> n < usize::MAX,
        forall|id: usize| states[n].in_use().contains(id) <==> id < n,
        states[n].returned(back).next() == back,
        states[n].returned(back).has_next(),
{
    lemma_fresh_ids(states, n);
}

proof fn lemma_fresh_ids(states: Seq<IdState>, n: int)
    requires
        0 <= n < states.len(),
        states[0] == IdState::initial(),
        forall|k: int|
            0 <= k < states.len() - 1 ==> #[trigger] states[k + 1] == states[k].taken(),
    ensures
        states[n].current == n,
        states[n].recycled.len() == 0,
    decreases n,
{
    if n > 0 {
        lemma_fresh_ids(states, n - 1);
        assert(states[n - 1 + 1] == states[n - 1].taken());
    }
}

} // verus!
