//! The per-connection registry ("lobby"): a mapping from network identity to
//! the local handle of that participant's simulated entity.
//!
//! Both the server and every client own one lobby.  An identity has an entry
//! exactly while the local process considers that connection known; entries
//! are inserted once per connection lifecycle and removed on disconnect.

use vstd::prelude::*;
use std::collections::HashMap;

verus! {

broadcast use vstd::std_specs::hash::group_hash_axioms;

/// Registry mapping a network identity to an entity handle.
#[derive(Debug)]
pub struct Lobby {
    pub players: HashMap<u64, u64>,
}

impl View for Lobby {
    type V = Map<u64, u64>;

    open spec fn view(&self) -> Map<u64, u64> {
        self.players@
    }
}

impl Lobby {
    /// An empty registry: no connection is known.
    pub fn new() -> (r: Lobby)
        ensures
            r@ == Map::<u64, u64>::empty(),
    {
        Lobby { players: HashMap::new() }
    }

    /// Record that `client_id`'s entity is `entity`, overwriting any stale
    /// mapping for that identity.
    pub fn register(&mut self, client_id: u64, entity: u64)
        ensures
            final(self)@ == old(self)@.insert(client_id, entity),
    {
        self.players.insert(client_id, entity);
    }

    /// The entity handle of `client_id`, if that identity is known.
    /// Snapshot application uses this: an unknown identity yields `None`
    /// and is silently ignored.
    pub fn lookup(&self, client_id: u64) -> (r: Option<u64>)
        ensures
            r == if self@.contains_key(client_id) {
                Some(self@[client_id])
            } else {
                None::<u64>
            },
    {
        match self.players.get(&client_id) {
            Some(e) => Some(*e),
            None => None,
        }
    }

    /// Whether `client_id` currently has an entry.
    pub fn contains(&self, client_id: u64) -> (r: bool)
        ensures
            r == self@.contains_key(client_id),
    {
        self.players.contains_key(&client_id)
    }

    /// Forget `client_id` on disconnect.
    pub fn remove(&mut self, client_id: u64)
        ensures
            final(self)@ == old(self)@.remove(client_id),
    {
        self.players.remove(&client_id);
    }

    /// Number of known connections.
    pub fn len(&self) -> (r: usize)
        ensures
            r == self@.len(),
    {
        self.players.len()
    }
}

impl Default for Lobby {
    /// Same as [`Lobby::new`]: an empty registry.
    fn default() -> (r: Lobby)
        ensures
            r@ == Map::<u64, u64>::empty(),
    {
        Lobby::new()
    }
}

} // verus!
