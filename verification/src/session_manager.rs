//! The registry of connected sessions.
//!
//! A [`SessionManager`] hands every accepted connection an identifier of its
//! own and keeps the connection's handle under it. Identifiers are positive,
//! come in increasing order and are never given out twice, also after a
//! session has been removed. What a handle is, the manager does not care: it
//! stores and returns values of the type `C`.

use std::collections::HashMap;
use vstd::prelude::*;
use vstd::std_specs::iter::IteratorSpec;

verus! {

/// The registry as a mathematical value: which handle stands under which
/// identifier, and the identifier that was assigned last.
pub struct Registry<C> {
    pub sessions: Map<i32, C>,
    pub last_id: int,
}

impl<C> Registry<C> {
    /// The registry before any connection was accepted.
    pub open spec fn empty() -> Registry<C> {
        Registry { sessions: Map::empty(), last_id: 0 }
    }

    /// Every identifier in use is positive and was assigned at or before the
    /// last one.
    pub open spec fn wf(self) -> bool {
        &&& 0 <= self.last_id <= i32::MAX
        &&& self.sessions.dom().finite()
        &&& forall|id: i32| #[trigger] self.sessions.contains_key(id) ==> 0 < id <= self.last_id
    }

    /// The identifier that the next accepted connection gets.
    pub open spec fn next_id(self) -> int {
        self.last_id + 1
    }

    /// The registry after `connection` was accepted.
    pub open spec fn register(self, connection: C) -> Registry<C> {
        Registry {
            sessions: self.sessions.insert(self.next_id() as i32, connection),
            last_id: self.next_id(),
        }
    }

    /// The registry after the session `id` was taken out.
    pub open spec fn unregister(self, id: i32) -> Registry<C> {
        Registry { sessions: self.sessions.remove(id), last_id: self.last_id }
    }

    /// The sessions that a message of `sender` is forwarded to: every
    /// registered session but the sender's own.
    pub open spec fn peers_of(self, sender: i32) -> Set<i32> {
        self.sessions.dom().remove(sender)
    }

    /// The registry after `connections` were accepted one after another.
    pub open spec fn register_all(self, connections: Seq<C>) -> Registry<C>
        decreases connections.len(),
    {
        if connections.len() == 0 {
            self
        } else {
            self.register_all(connections.drop_last()).register(connections.last())
        }
    }

    /// The identifiers that `connections` get when they are accepted one
    /// after another, in the order of acceptance.
    pub open spec fn assigned_ids(self, connections: Seq<C>) -> Seq<int>
        decreases connections.len(),
    {
        if connections.len() == 0 {
            Seq::empty()
        } else {
            self.assigned_ids(connections.drop_last()).push(
                self.register_all(connections.drop_last()).next_id(),
            )
        }
    }
}

/// Uniqueness: however many connections are accepted, each gets the
/// identifier that follows the one before. So the identifiers grow strictly in
/// the order of acceptance, no two are equal, none was in use before, and
/// each connection is found under its own.
pub proof fn lemma_assigned_ids_unique_and_increasing<C>(
    registry: Registry<C>,
    connections: Seq<C>,
)
    requires
        registry.wf(),
        registry.last_id + connections.len() <= i32::MAX,
    ensures
        registry.register_all(connections).wf(),
        registry.register_all(connections).last_id == registry.last_id + connections.len(),
        registry.assigned_ids(connections).len() == connections.len(),
        forall|i: int|
            0 <= i < connections.len() ==> #[trigger] registry.assigned_ids(connections)[i]
                == registry.last_id + 1 + i,
        forall|i: int, j: int|
            0 <= i < j < connections.len() ==> registry.assigned_ids(connections)[i]
                < registry.assigned_ids(connections)[j],
        forall|i: int|
            0 <= i < connections.len() ==> !registry.sessions.contains_key(
                #[trigger] registry.assigned_ids(connections)[i] as i32,
            ),
        forall|i: int|
            0 <= i < connections.len() ==> registry.register_all(connections).sessions.contains_pair(
                #[trigger] registry.assigned_ids(connections)[i] as i32,
                connections[i],
            ),
    decreases connections.len(),
{
    if connections.len() > 0 {
        let front = connections.drop_last();
        lemma_assigned_ids_unique_and_increasing(registry, front);
        let before = registry.register_all(front);
        let after = registry.register_all(connections);
        let ids = registry.assigned_ids(connections);
        assert(after == before.register(connections.last()));
        assert forall|i: int| 0 <= i < connections.len() implies #[trigger] ids[i]
            == registry.last_id + 1 + i by {
            if i < front.len() {
                assert(ids[i] == registry.assigned_ids(front)[i]);
            }
        }
        assert forall|i: int| 0 <= i < connections.len() implies after.sessions.contains_pair(
            #[trigger] ids[i] as i32,
            connections[i],
        ) by {
            if i < front.len() {
                assert(ids[i] == registry.assigned_ids(front)[i]);
                assert(before.sessions.contains_pair(ids[i] as i32, front[i]));
            }
        }
    }
}

/// The registry of sessions together with the counter that assigns their
/// identifiers.
pub struct SessionManager<C> {
    session_container: HashMap<i32, C>,
    session_id: i32,
}

impl<C> View for SessionManager<C> {
    type V = Registry<C>;

    closed spec fn view(&self) -> Registry<C> {
        Registry { sessions: self.session_container@, last_id: self.session_id as int }
    }
}

impl<C> SessionManager<C> {
    /// A manager with no session; the first one accepted gets identifier 1.
    pub fn new() -> (manager: Self)
        ensures
            manager@ == Registry::<C>::empty(),
            manager@.wf(),
    {
        let manager = SessionManager { session_container: HashMap::new(), session_id: 0 };
        assert(manager@.sessions =~= Map::<i32, C>::empty());
        manager
    }

    /// Accepts `connection`: assigns it the next identifier, stores it under
    /// that identifier and returns the identifier. The identifier was not in
    /// use before.
    ///
    /// The identifiers must not be used up: see [`SessionManager::has_free_id`].
    pub fn add_session(&mut self, connection: C) -> (id: i32)
        requires
            old(self)@.last_id < i32::MAX,
        ensures
            id == old(self)@.next_id(),
            final(self)@ == old(self)@.register(connection),
            old(self)@.wf() ==> final(self)@.wf() && !old(self)@.sessions.contains_key(id),
    {
        broadcast use vstd::std_specs::hash::group_hash_axioms;
        self.session_id = self.session_id + 1;
        let id = self.session_id;
        self.session_container.insert(id, connection);
        id
    }

    /// The identifier that was assigned last; 0 before the first session.
    pub fn session_id(&self) -> (id: i32)
        ensures
            id == self@.last_id,
    {
        self.session_id
    }

    /// Whether another session can be accepted: the identifiers run out once
    /// the largest `i32` has been assigned.
    pub fn has_free_id(&self) -> (free: bool)
        ensures
            free == (self@.last_id < i32::MAX),
    {
        self.session_id < i32::MAX
    }

    /// The number of registered sessions.
    pub fn session_count(&self) -> (count: usize)
        ensures
            count == self@.sessions.len(),
    {
        broadcast use vstd::std_specs::hash::group_hash_axioms;
        self.session_container.len()
    }

    /// The handle of session `id`, if it is registered.
    pub fn connection(&self, id: i32) -> (handle: Option<&C>)
        ensures
            handle is Some <==> self@.sessions.contains_key(id),
            handle matches Some(c) ==> *c == self@.sessions[id],
    {
        broadcast use vstd::std_specs::hash::group_hash_axioms;
        self.session_container.get(&id)
    }

    /// Takes session `id` out of the registry and returns its handle. The
    /// identifier is not given out again.
    pub fn remove_session(&mut self, id: i32) -> (handle: Option<C>)
        ensures
            final(self)@ == old(self)@.unregister(id),
            old(self)@.wf() ==> final(self)@.wf(),
            handle is Some <==> old(self)@.sessions.contains_key(id),
            handle matches Some(c) ==> c == old(self)@.sessions[id],
    {
        broadcast use vstd::std_specs::hash::group_hash_axioms;
        self.session_container.remove(&id)
    }

    /// The sessions that a message of `excluded` goes to: the identifiers of
    /// all registered sessions but `excluded`, each once, in no particular
    /// order.
    pub fn sessions_except(&self, excluded: i32) -> (ids: Vec<i32>)
        ensures
            ids@.no_duplicates(),
            ids@.to_set() == self@.peers_of(excluded),
    {
        broadcast use vstd::std_specs::hash::group_hash_axioms;
        let mut ids: Vec<i32> = Vec::new();
        let ghost ks = self.session_container.keys().remaining().unref();
        assert(ks.no_duplicates());
        for key in it: self.session_container.keys()
            invariant
                ks == it.seq().unref(),
                ks.no_duplicates(),
                ks.to_set() == self.session_container@.dom(),
                forall|j: int|
                    0 <= j < ids@.len() ==> ids@[j] != excluded && ks.subrange(
                        0,
                        it.index(),
                    ).contains(#[trigger] ids@[j]),
                forall|k: int|
                    0 <= k < it.index() && ks[k] != excluded ==> ids@.contains(#[trigger] ks[k]),
                ids@.no_duplicates(),
        {
            let ghost before = ids@;
            let ghost at = it.index();
            assert(*key == ks[at]);
            if *key != excluded {
                ids.push(*key);
            }
            proof {
                assert forall|j: int| 0 <= j < ids@.len() implies ids@[j] != excluded
                    && ks.subrange(0, at + 1).contains(#[trigger] ids@[j]) by {
                    if j < before.len() {
                        let k = choose|k: int|
                            0 <= k < ks.subrange(0, at).len() && ks.subrange(0, at)[k] == before[j];
                        assert(ks.subrange(0, at + 1)[k] == ids@[j]);
                    } else {
                        assert(ks.subrange(0, at + 1)[at] == ids@[j]);
                    }
                }
                assert forall|k: int| 0 <= k < at + 1 && ks[k] != excluded implies ids@.contains(
                    #[trigger] ks[k],
                ) by {
                    if k < at {
                        let j = choose|j: int| 0 <= j < before.len() && before[j] == ks[k];
                        assert(ids@[j] == ks[k]);
                    } else {
                        assert(ids@[before.len() as int] == ks[k]);
                    }
                }
                if *key != excluded {
                    assert forall|j: int| 0 <= j < before.len() implies before[j] != ks[at] by {
                        let k = choose|k: int|
                            0 <= k < ks.subrange(0, at).len() && ks.subrange(0, at)[k] == before[j];
                        assert(ks[k] == before[j]);
                    }
                }
            }
        }
        proof {
            let peers = self@.peers_of(excluded);
            assert forall|id: i32| ids@.to_set().contains(id) <==> peers.contains(id) by {
                if ids@.contains(id) {
                    let j = choose|j: int| 0 <= j < ids@.len() && ids@[j] == id;
                    assert(ks.subrange(0, ks.len() as int).contains(ids@[j]));
                    assert(ks.subrange(0, ks.len() as int) =~= ks);
                    assert(ks.to_set().contains(id));
                }
                if peers.contains(id) {
                    assert(ks.to_set().contains(id));
                    let k = choose|k: int| 0 <= k < ks.len() && ks[k] == id;
                    assert(ids@.contains(ks[k]));
                }
            }
            assert(ids@.to_set() =~= peers);
        }
        ids
    }
}

} // verus!
