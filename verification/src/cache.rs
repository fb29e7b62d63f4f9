//! The messages of one query, shared by handle: walking a thread hands out the
//! message object already made for a handle rather than a second one.
use vstd::prelude::*;
use std::collections::HashMap;
use std::sync::Arc;

verus! {

broadcast use vstd::std_specs::hash::group_hash_axioms;

/// `Arc::clone`: a second pointer to the same allocation, so to the same value.
#[verifier::external_body]
fn share<T>(a: &Arc<T>) -> (b: Arc<T>)
    ensures
        b == *a,
{
    Arc::clone(a)
}

/// What a request for `handle` does to a cache `before`: it answers `msg` and
/// leaves `after`. A cached handle answers its stored message and changes
/// nothing; a new handle stores the new message `msg`.
pub open spec fn interned<T>(
    before: Map<usize, Arc<T>>,
    handle: usize,
    msg: Arc<T>,
    after: Map<usize, Arc<T>>,
) -> bool {
    if before.contains_key(handle) {
        msg == before[handle] && after == before
    } else {
        after == before.insert(handle, msg)
    }
}

/// Message objects of one query, keyed by the handle they were made from.
pub struct MessageCache<T> {
    entries: HashMap<usize, Arc<T>>,
}

impl<T> View for MessageCache<T> {
    type V = Map<usize, Arc<T>>;

    closed spec fn view(&self) -> Map<usize, Arc<T>> {
        self.entries@
    }
}

impl<T> MessageCache<T> {
    /// A cache with no messages.
    pub fn new() -> (cache: Self)
        ensures
            cache@ == Map::<usize, Arc<T>>::empty(),
    {
        MessageCache { entries: HashMap::new() }
    }

    /// The message stored for `handle`, if any.
    pub fn lookup(&self, handle: usize) -> (msg: Option<Arc<T>>)
        ensures
            match msg {
                Some(m) => self@.contains_key(handle) && m == self@[handle],
                None => !self@.contains_key(handle),
            },
    {
        match self.entries.get(&handle) {
            Some(m) => Some(share(m)),
            None => None,
        }
    }

    /// The message stored for `handle`; when there is none, `make` builds
    /// one, which is stored and returned. `make` runs only for a new handle.
    pub fn get_or_insert_with<F: FnOnce() -> T>(&mut self, handle: usize, make: F) -> (msg: Arc<T>)
        requires
            !old(self)@.contains_key(handle) ==> make.requires(()),
        ensures
            interned(old(self)@, handle, msg, final(self)@),
            !old(self)@.contains_key(handle) ==> make.ensures((), *msg),
    {
        match self.entries.get(&handle) {
            Some(m) => {
                return share(m);
            },
            None => {},
        }
        let msg = Arc::new(make());
        self.entries.insert(handle, share(&msg));
        msg
    }
}

/// Asking twice for the same handle gives the same message, and the second
/// request leaves the cache as the first left it.
pub proof fn lemma_interning_is_stable<T>(
    m0: Map<usize, Arc<T>>,
    handle: usize,
    first: Arc<T>,
    m1: Map<usize, Arc<T>>,
    second: Arc<T>,
    m2: Map<usize, Arc<T>>,
)
    requires
        interned(m0, handle, first, m1),
        interned(m1, handle, second, m2),
    ensures
        second == first,
        m2 == m1,
        m1.contains_key(handle),
{
}

/// A request for one handle leaves the messages of every other handle as
/// they were.
pub proof fn lemma_interning_keeps_others<T>(
    before: Map<usize, Arc<T>>,
    handle: usize,
    msg: Arc<T>,
    after: Map<usize, Arc<T>>,
    other: usize,
)
    requires
        interned(before, handle, msg, after),
        other != handle,
    ensures
        after.contains_key(other) == before.contains_key(other),
        before.contains_key(other) ==> after[other] == before[other],
{
}

/// Every message stored in `before` is still stored, unchanged, in `after`.
pub open spec fn keeps_entries<T>(before: Map<usize, Arc<T>>, after: Map<usize, Arc<T>>) -> bool {
    forall|k: usize| #[trigger] before.contains_key(k) ==> after.contains_key(k) && after[k] == before[k]
}

/// A request never removes or replaces a stored message, and adds at most the
/// requested handle.
pub proof fn lemma_interning_only_adds<T>(
    before: Map<usize, Arc<T>>,
    handle: usize,
    msg: Arc<T>,
    after: Map<usize, Arc<T>>,
)
    requires
        interned(before, handle, msg, after),
    ensures
        keeps_entries(before, after),
        after.contains_key(handle),
        after[handle] == msg,
        forall|k: usize| after.contains_key(k) ==> before.contains_key(k) || k == handle,
{
    if !before.contains_key(handle) {
        assert forall|k: usize| before.contains_key(k) implies after.contains_key(k) && after[k] == before[k] by {
            assert(k != handle);
        }
    }
}

/// Keeping the stored messages carries over any run of requests.
pub proof fn lemma_keeps_entries_chain<T>(
    m0: Map<usize, Arc<T>>,
    m1: Map<usize, Arc<T>>,
    m2: Map<usize, Arc<T>>,
)
    requires
        keeps_entries(m0, m1),
        keeps_entries(m1, m2),
    ensures
        keeps_entries(m0, m2),
{
    assert forall|k: usize| m0.contains_key(k) implies m2.contains_key(k) && m2[k] == m0[k] by {
        assert(m1.contains_key(k) && m1[k] == m0[k]);
    }
}

/// Once a handle has a message, any later request for that handle, after any
/// run of requests in between, gives that same message and stores nothing new.
pub proof fn lemma_later_request_gives_stored_message<T>(
    m0: Map<usize, Arc<T>>,
    handle: usize,
    first: Arc<T>,
    m1: Map<usize, Arc<T>>,
    m_later: Map<usize, Arc<T>>,
    second: Arc<T>,
    m_after: Map<usize, Arc<T>>,
)
    requires
        interned(m0, handle, first, m1),
        keeps_entries(m1, m_later),
        interned(m_later, handle, second, m_after),
    ensures
        second == first,
        m_after == m_later,
{
    lemma_interning_only_adds(m0, handle, first, m1);
    assert(m1.contains_key(handle));
    assert(m_later.contains_key(handle) && m_later[handle] == m1[handle]);
}

} // verus!
