//! The client reconciler: the local mirror of the session.
//!
//! A [`ClientWorld`] consumes `InitCommand`s from the ordered-reliable
//! channel to materialize entities into its [`Lobby`], and consumes snapshot
//! messages from the unreliable channel to overwrite the displayed position
//! of every entity it already knows.  A snapshot entry whose identity has no
//! registry mapping is silently ignored — its `InitCommand` simply has not
//! arrived yet, since ordering holds per channel, not across channels.

use vstd::prelude::*;
use std::collections::HashMap;
use crate::lobby::Lobby;
use crate::codec::{
    spec_decode_init_command, spec_decode_snapshot, decode_init_command, decode_snapshot,
};
use crate::{InitCommand, Vec3Milli};

verus! {

broadcast use vstd::std_specs::hash::group_hash_axioms;

/// The client-side state: the registry and one displayed position per local
/// entity handle.  Handles are allocated from a counter, never reused.
pub struct ClientWorld {
    pub lobby: Lobby,
    pub positions: HashMap<u64, Vec3Milli>,
    pub next_entity: u64,
}

/// A position table applied entry by entry: an entry whose identity is
/// registered overwrites that entity's position (later entries win), any
/// other entry does nothing.
pub open spec fn spec_apply_snapshot(
    positions: Map<u64, Vec3Milli>,
    lobby: Map<u64, u64>,
    entries: Seq<(u64, Vec3Milli)>,
) -> Map<u64, Vec3Milli>
    decreases entries.len(),
{
    if entries.len() == 0 {
        positions
    } else {
        let rest = spec_apply_snapshot(positions, lobby, entries.drop_last());
        let e = entries.last();
        if lobby.contains_key(e.0) {
            rest.insert(lobby[e.0], e.1)
        } else {
            rest
        }
    }
}

/// The last position a table writes to entity handle `h`, if any.
pub open spec fn spec_last_write(
    lobby: Map<u64, u64>,
    entries: Seq<(u64, Vec3Milli)>,
    h: u64,
) -> Option<Vec3Milli>
    decreases entries.len(),
{
    if entries.len() == 0 {
        None
    } else if lobby.contains_key(entries.last().0) && lobby[entries.last().0] == h {
        Some(entries.last().1)
    } else {
        spec_last_write(lobby, entries.drop_last(), h)
    }
}

/// What snapshot application does, handle by handle: a handle some entry
/// targets ends at the last such entry's position; every other handle keeps
/// its prior position (in particular, its absence).
pub proof fn lemma_apply_snapshot_pointwise(
    positions: Map<u64, Vec3Milli>,
    lobby: Map<u64, u64>,
    entries: Seq<(u64, Vec3Milli)>,
    h: u64,
)
    ensures
        match spec_last_write(lobby, entries, h) {
            Some(p) => spec_apply_snapshot(positions, lobby, entries).contains_key(h)
                && spec_apply_snapshot(positions, lobby, entries)[h] == p,
            None => spec_apply_snapshot(positions, lobby, entries).contains_key(h)
                == positions.contains_key(h) && (positions.contains_key(h) ==> spec_apply_snapshot(
                positions,
                lobby,
                entries,
            )[h] == positions[h]),
        },
    decreases entries.len(),
{
    if entries.len() > 0 {
        lemma_apply_snapshot_pointwise(positions, lobby, entries.drop_last(), h);
    }
}

/// Idempotent re-application: applying the same snapshot twice leaves the
/// local positions exactly as applying it once.
pub proof fn lemma_apply_snapshot_idempotent(
    positions: Map<u64, Vec3Milli>,
    lobby: Map<u64, u64>,
    entries: Seq<(u64, Vec3Milli)>,
)
    ensures
        spec_apply_snapshot(spec_apply_snapshot(positions, lobby, entries), lobby, entries)
            == spec_apply_snapshot(positions, lobby, entries),
{
    let once = spec_apply_snapshot(positions, lobby, entries);
    let twice = spec_apply_snapshot(once, lobby, entries);
    assert forall|h: u64| #[trigger] twice.contains_key(h) == once.contains_key(h) && (
    once.contains_key(h) ==> twice[h] == once[h]) by {
        lemma_apply_snapshot_pointwise(positions, lobby, entries, h);
        lemma_apply_snapshot_pointwise(once, lobby, entries, h);
    }
    assert(twice =~= once);
}

/// Unknown-identity safety: a snapshot none of whose identities are
/// registered changes nothing.
pub proof fn lemma_apply_snapshot_unknown_ids(
    positions: Map<u64, Vec3Milli>,
    lobby: Map<u64, u64>,
    entries: Seq<(u64, Vec3Milli)>,
)
    requires
        forall|i: int| 0 <= i < entries.len() ==> !lobby.contains_key((#[trigger] entries[i]).0),
    ensures
        spec_apply_snapshot(positions, lobby, entries) == positions,
    decreases entries.len(),
{
    if entries.len() > 0 {
        let tail = entries.drop_last();
        assert(forall|i: int| 0 <= i < tail.len() ==> (#[trigger] tail[i]) == entries[i]);
        lemma_apply_snapshot_unknown_ids(positions, lobby, tail);
    }
}

impl ClientWorld {
    /// Handles already handed out stay below the allocation counter.
    pub open spec fn wf(self) -> bool {
        forall|k: u64| #[trigger] self.lobby@.contains_key(k) ==> self.lobby@[k]
            < self.next_entity
    }

    /// A fresh mirror: nothing is known yet.
    pub fn new() -> (r: ClientWorld)
        ensures
            r.wf(),
            r.lobby@ == Map::<u64, u64>::empty(),
            r.positions@ == Map::<u64, Vec3Milli>::empty(),
            r.next_entity == 0,
    {
        ClientWorld { lobby: Lobby::new(), positions: HashMap::new(), next_entity: 0 }
    }

    /// Consume one message from the ordered-reliable channel.
    ///
    /// A well-formed `PlayerConnected` materializes a fresh local entity at
    /// the announced position and registers it for the announced identity,
    /// which from now on makes that identity visible to snapshot
    /// application.  A well-formed `PlayerDisconnected` despawns that
    /// identity's entity and forgets the registry entry; an identity this
    /// client never knew leaves it untouched.  A malformed payload changes
    /// nothing and reports failure.
    pub fn client_initalize(&mut self, bytes: &Vec<u8>) -> (ok: bool)
        requires
            old(self).wf(),
            old(self).next_entity < u64::MAX,
        ensures
            final(self).wf(),
            match spec_decode_init_command(bytes@) {
                Some(cmd) => match cmd {
                    InitCommand::PlayerConnected { client_id, position } => {
                        &&& ok
                        &&& final(self).lobby@ == old(self).lobby@.insert(
                            client_id,
                            old(self).next_entity,
                        )
                        &&& final(self).positions@ == old(self).positions@.insert(
                            old(self).next_entity,
                            position,
                        )
                        &&& final(self).next_entity == old(self).next_entity + 1
                    },
                    InitCommand::PlayerDisconnected { client_id } => {
                        &&& ok
                        &&& final(self).lobby@ == old(self).lobby@.remove(client_id)
                        &&& final(self).positions@ == if old(self).lobby@.contains_key(client_id) {
                            old(self).positions@.remove(old(self).lobby@[client_id])
                        } else {
                            old(self).positions@
                        }
                        &&& final(self).next_entity == old(self).next_entity
                    },
                },
                None => {
                    &&& !ok
                    &&& final(self).lobby@ == old(self).lobby@
                    &&& final(self).positions@ == old(self).positions@
                    &&& final(self).next_entity == old(self).next_entity
                },
            },
    {
        let cmd = decode_init_command(bytes);
        match cmd {
            None => false,
            Some(InitCommand::PlayerConnected { client_id, position }) => {
                let entity = self.next_entity;
                self.next_entity = entity + 1;
                self.positions.insert(entity, position);
                self.lobby.register(client_id, entity);
                true
            },
            Some(InitCommand::PlayerDisconnected { client_id }) => {
                match self.lobby.lookup(client_id) {
                    Some(entity) => {
                        self.positions.remove(&entity);
                        self.lobby.remove(client_id);
                    },
                    None => {
                        proof {
                            assert(old(self).lobby@.remove(client_id) =~= old(self).lobby@);
                        }
                    },
                }
                true
            },
        }
    }

    /// Consume one snapshot message from the unreliable channel: overwrite
    /// the displayed position of every entity whose identity is registered;
    /// ignore every other entry.  A malformed payload changes nothing and
    /// reports failure.
    pub fn client_sync_system(&mut self, bytes: &Vec<u8>) -> (ok: bool)
        ensures
            final(self).lobby@ == old(self).lobby@,
            final(self).next_entity == old(self).next_entity,
            final(self).wf() == old(self).wf(),
            match spec_decode_snapshot(bytes@) {
                Some(entries) => ok && final(self).positions@ == spec_apply_snapshot(
                    old(self).positions@,
                    old(self).lobby@,
                    entries,
                ),
                None => !ok && final(self).positions@ == old(self).positions@,
            },
    {
        let entries = match decode_snapshot(bytes) {
            None => {
                return false;
            },
            Some(entries) => entries,
        };
        let n = entries.len();
        for i in 0..n
            invariant
                n == entries@.len(),
                self.lobby@ == old(self).lobby@,
                self.next_entity == old(self).next_entity,
                self.positions@ == spec_apply_snapshot(
                    old(self).positions@,
                    old(self).lobby@,
                    entries@.take(i as int),
                ),
        {
            let (client_id, position) = entries[i];
            match self.lobby.lookup(client_id) {
                Some(entity) => {
                    self.positions.insert(entity, position);
                },
                None => {},
            }
            proof {
                let t = entries@.take(i as int + 1);
                assert(t.drop_last() =~= entries@.take(i as int));
                assert(t.last() == entries@[i as int]);
            }
        }
        proof {
            assert(entries@.take(n as int) =~= entries@);
        }
        true
    }

    /// The displayed position of the entity registered for `client_id`, if
    /// that identity is known and its entity has one.
    pub fn position_of(&self, client_id: u64) -> (r: Option<Vec3Milli>)
        ensures
            r == if self.lobby@.contains_key(client_id) && self.positions@.contains_key(
                self.lobby@[client_id],
            ) {
                Some(self.positions@[self.lobby@[client_id]])
            } else {
                None::<Vec3Milli>
            },
    {
        match self.lobby.lookup(client_id) {
            None => None,
            Some(entity) => match self.positions.get(&entity) {
                None => None,
                Some(p) => Some(*p),
            },
        }
    }

    /// Number of identities this client knows.
    pub fn known_count(&self) -> (r: usize)
        ensures
            r == self.lobby@.len(),
    {
        self.lobby.len()
    }
}

} // verus!
