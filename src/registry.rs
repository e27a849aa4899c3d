use vstd::prelude::*;

use crate::errors::HissError;
use std::collections::HashMap;

verus! {

broadcast use vstd::std_specs::hash::group_hash_axioms;

/// Live connections by handle. Handles are issued in increasing order and never reused.
pub struct Registry<C> {
    connections: HashMap<u64, C>,
    next_id: u64,
}

impl<C> Registry<C> {
    /// The connections, by handle.
    pub closed spec fn spec_connections(&self) -> Map<u64, C> {
        self.connections@
    }

    /// The handle that the next registration gets.
    pub closed spec fn spec_next_id(&self) -> u64 {
        self.next_id
    }

    /// Every live handle was issued before the next one.
    pub open spec fn wf(&self) -> bool {
        &&& 1 <= self.spec_next_id()
        &&& forall|id: u64| #[trigger]
            self.spec_connections().contains_key(id) ==> id < self.spec_next_id()
    }

    /// An empty registry whose first handle is 1.
    pub fn new() -> (r: Self)
        ensures
            r.wf(),
            r.spec_connections() == Map::<u64, C>::empty(),
            r.spec_next_id() == 1,
    {
        Registry { connections: HashMap::new(), next_id: 1 }
    }

    /// Registers a live client under a fresh handle. `None` when every handle
    /// has been issued.
    pub fn register(&mut self, client: C) -> (r: Option<u64>)
        requires
            old(self).wf(),
        ensures
            final(self).wf(),
            old(self).spec_next_id() < u64::MAX ==> {
                &&& r == Some(old(self).spec_next_id())
                &&& final(self).spec_connections() == old(self).spec_connections().insert(
                    old(self).spec_next_id(),
                    client,
                )
                &&& final(self).spec_next_id() == old(self).spec_next_id() + 1
            },
            old(self).spec_next_id() == u64::MAX ==> r is None && *final(self) == *old(self),
    {
        if self.next_id == u64::MAX {
            return None;
        }
        let id = self.next_id;
        self.connections.insert(id, client);
        self.next_id = id + 1;
        assert(self.connections@ == old(self).connections@.insert(id, client));
        assert forall|k: u64| #[trigger] self.spec_connections().contains_key(k) implies k
            < self.spec_next_id() by {
            if k != id {
                assert(old(self).spec_connections().contains_key(k));
            }
        }
        Some(id)
    }

    /// The client registered under `id`, or `ConnectionClosed`.
    pub fn get_conn(&self, id: u64) -> (r: Result<&C, HissError>)
        ensures
            r is Ok <==> self.spec_connections().contains_key(id),
            r matches Ok(c) ==> *c == self.spec_connections()[id],
            r matches Err(e) ==> e is ConnectionClosed,
    {
        match self.connections.get(&id) {
            Some(c) => Ok(c),
            None => Err(HissError::ConnectionClosed),
        }
    }

    /// Removes `id`; operations that already hold its client are not affected.
    pub fn close(&mut self, id: u64)
        requires
            old(self).wf(),
        ensures
            final(self).wf(),
            final(self).spec_connections() == old(self).spec_connections().remove(id),
            final(self).spec_next_id() == old(self).spec_next_id(),
    {
        self.connections.remove(&id);
        assert(self.connections@ == old(self).connections@.remove(id));
        assert forall|k: u64| #[trigger] self.spec_connections().contains_key(k) implies k
            < self.spec_next_id() by {
            assert(old(self).spec_connections().contains_key(k));
        }
    }
}

/// After `close(id)` the handle is no longer found.
pub proof fn lemma_lookup_after_close<C>(before: Registry<C>, after: Registry<C>, id: u64)
    requires
        after.spec_connections() == before.spec_connections().remove(id),
    ensures
        !after.spec_connections().contains_key(id),
{
}

/// A handle that was once issued is never handed out again: once `before` has
/// issued `id`, every later registry state (`close` and `register` never lower
/// the next handle) gives its next registration a different handle, and a
/// registry that no longer holds `id` after `close(id)` cannot get it back.
pub proof fn lemma_handle_never_reused<C>(before: Registry<C>, after: Registry<C>, id: u64)
    requires
        before.wf(),
        after.wf(),
        id < before.spec_next_id(),
        before.spec_next_id() <= after.spec_next_id(),
    ensures
        after.spec_next_id() != id,
        !after.spec_connections().contains_key(id) ==> forall|c: C|
            !after.spec_connections().insert(after.spec_next_id(), c).contains_key(id),
{
}

} // verus!
