use vstd::prelude::*;
use vstd::multiset::Multiset;
use crate::operating_system::resource::Resource;
use crate::operating_system::search::{first_where, lemma_first_where, lemma_first_where_is};

verus! {

/// Whether `held` has an instance of `kind`.
pub open spec fn holds_kind(held: Seq<Resource>, kind: usize) -> bool {
    exists|i: int| 0 <= i < held.len() && (#[trigger] held[i])@.kind == kind
}

/// The position of the oldest instance of `kind` in `held`, or the length of
/// `held` where it has none.
pub open spec fn first_of_kind(held: Seq<Resource>, kind: usize) -> int {
    first_where(held, is_kind(kind))
}

/// Whether an instance is of the kind `kind`.
pub open spec fn is_kind(kind: usize) -> spec_fn(Resource) -> bool {
    |res: Resource| res@.kind == kind
}

/// `first_of_kind` is the least position that holds an instance of `kind`.
pub proof fn lemma_first_of_kind(held: Seq<Resource>, kind: usize)
    ensures
        0 <= first_of_kind(held, kind) <= held.len(),
        first_of_kind(held, kind) < held.len() <==> holds_kind(held, kind),
        first_of_kind(held, kind) < held.len() ==> held[first_of_kind(held, kind)]@.kind == kind,
        forall|j: int| 0 <= j < first_of_kind(held, kind) ==> (#[trigger] held[j])@.kind != kind,
{
    lemma_first_where(held, is_kind(kind));
    if holds_kind(held, kind) {
        let i = choose|i: int| 0 <= i < held.len() && (#[trigger] held[i])@.kind == kind;
        assert(is_kind(kind)(held[i]));
    }
}

/// Finds the oldest instance of `kind` in `held`: its position, or the
/// length of `held` where there is none.
pub fn position_of_kind(held: &Vec<Resource>, kind: usize) -> (at: usize)
    ensures
        at == first_of_kind(held@, kind),
        at <= held@.len(),
        at < held@.len() <==> holds_kind(held@, kind),
{
    let mut i: usize = 0;
    while i < held.len() && held[i].get_type() != kind
        invariant
            0 <= i <= held.len(),
            forall|j: int| 0 <= j < i ==> (#[trigger] held@[j])@.kind != kind,
        decreases held.len() - i,
    {
        i += 1;
    }
    proof {
        lemma_first_where_is(held@, is_kind(kind), i as int);
        lemma_first_of_kind(held@, kind);
    }
    i
}

/// The free instances of every resource kind, oldest first.
#[derive(Debug)]
pub struct ResourceList {
    free: Vec<Resource>,
}

impl View for ResourceList {
    type V = Seq<Resource>;

    closed spec fn view(&self) -> Seq<Resource> {
        self.free@
    }
}

impl ResourceList {
    pub fn new() -> (pool: ResourceList)
        ensures
            pool@ == Seq::<Resource>::empty(),
    {
        ResourceList { free: Vec::new() }
    }

    /// The number of free instances.
    pub fn len(&self) -> (count: usize)
        ensures
            count == self@.len(),
    {
        self.free.len()
    }

    /// Whether an instance of `kind` is free.
    pub fn has(&self, kind: usize) -> (free: bool)
        ensures
            free == holds_kind(self@, kind),
    {
        position_of_kind(&self.free, kind) < self.free.len()
    }

    /// Puts `res` back among the free instances.
    pub fn add(&mut self, res: Resource)
        ensures
            final(self)@ == old(self)@.push(res),
    {
        self.free.push(res);
    }

    /// Hands out the oldest free instance of `kind`, if there is one; the pool
    /// is unchanged where there is none. The requester is not recorded.
    pub fn take(&mut self, kind: usize, requester_id: usize) -> (res: Option<Resource>)
        ensures
            res == taken(old(self)@, kind),
            final(self)@ == after_take(old(self)@, kind),
    {
        let at = position_of_kind(&self.free, kind);
        if at < self.free.len() {
            Some(self.free.remove(at))
        } else {
            None
        }
    }
}

/// What `take` hands out of `pool` for `kind`.
pub open spec fn taken(pool: Seq<Resource>, kind: usize) -> Option<Resource> {
    if holds_kind(pool, kind) {
        Some(pool[first_of_kind(pool, kind)])
    } else {
        None
    }
}

/// What `take` leaves of `pool` for `kind`.
pub open spec fn after_take(pool: Seq<Resource>, kind: usize) -> Seq<Resource> {
    if holds_kind(pool, kind) {
        pool.remove(first_of_kind(pool, kind))
    } else {
        pool
    }
}

/// Taking an instance of one kind away leaves the instances of another kind.
pub proof fn lemma_remove_keeps_other_kind(held: Seq<Resource>, gone: usize, kind: usize)
    requires
        holds_kind(held, gone),
        holds_kind(held, kind),
        gone != kind,
    ensures
        holds_kind(held.remove(first_of_kind(held, gone)), kind),
{
    lemma_first_of_kind(held, gone);
    let at = first_of_kind(held, gone);
    let i = choose|i: int| 0 <= i < held.len() && (#[trigger] held[i])@.kind == kind;
    let rest = held.remove(at);
    if i < at {
        assert(rest[i] == held[i]);
    } else {
        assert(rest[i - 1] == held[i]);
    }
}

/// A new instance leaves the instances that were there.
pub proof fn lemma_push_keeps_kind(held: Seq<Resource>, res: Resource, kind: usize)
    requires
        holds_kind(held, kind),
    ensures
        holds_kind(held.push(res), kind),
{
    let i = choose|i: int| 0 <= i < held.len() && (#[trigger] held[i])@.kind == kind;
    assert(held.push(res)[i] == held[i]);
}

/// The oldest instance of a kind and what is left without it make up what
/// was held.
pub proof fn lemma_remove_accounts(held: Seq<Resource>, kind: usize)
    requires
        holds_kind(held, kind),
    ensures
        held.remove(first_of_kind(held, kind)).to_multiset().add(
            Multiset::singleton(held[first_of_kind(held, kind)]),
        ) == held.to_multiset(),
        held.remove(first_of_kind(held, kind)).to_multiset().subset_of(held.to_multiset()),
{
    lemma_first_of_kind(held, kind);
    let at = first_of_kind(held, kind);
    vstd::seq_lib::to_multiset_remove(held, at);
    held.to_multiset_ensures();
    assert(held.contains(held[at]));
    assert(held.remove(at).to_multiset().add(Multiset::singleton(held[at])) =~= held.to_multiset());
}

} // verus!
