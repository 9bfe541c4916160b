//! The server authority: the single source of truth for every participant's
//! position.
//!
//! A [`ServerWorld`] owns one [`ServerPlayerBundle`] per connected identity
//! and the server-side [`Lobby`].  Each tick the embedding process drains
//! buffered movement intents into [`ServerWorld::apply_player_message`],
//! integrates motion with [`ServerWorld::tick_integrate`], and broadcasts the
//! result of [`ServerWorld::server_sync_players`] over the unreliable
//! channel — always in that order, so a tick's broadcast reflects that tick's
//! inputs.

use vstd::prelude::*;
use crate::lobby::Lobby;
use crate::codec::{
    spec_encode_init_command, spec_encode_snapshot, spec_decode_player_command,
    encode_init_command, encode_snapshot, decode_player_command,
};
use crate::motion::{
    spec_normalize_direction, spec_step_position, normalize_direction, step_position,
    DIR_ONE, SPEED_CAP, ELAPSED_CAP_MS,
};
use crate::{InitCommand, PlayerCommand, Vec2Milli, Vec3Milli, origin, zero_direction};

verus! {

/// Default speed of a newly connected player: 400 world units per second.
pub const DEFAULT_SPEED: i64 = 400_000;

/// Server-side per-player constants: who the player is and how fast they move.
#[derive(Clone, Copy, PartialEq, Eq, Structural, Debug)]
pub struct Player {
    pub speed: i64,
    pub client_id: u64,
}

/// The latest sanitized movement direction received from a player.
#[derive(Clone, Copy, PartialEq, Eq, Structural, Debug)]
pub struct PlayerInput {
    pub direction: Vec2Milli,
}

/// Everything the server simulates for one connected identity.
#[derive(Clone, Copy, PartialEq, Eq, Structural, Debug)]
pub struct ServerPlayerBundle {
    pub player: Player,
    pub input: PlayerInput,
    pub transform: Vec3Milli,
    pub entity: u64,
}

/// Bounds every stored bundle obeys, so that one tick of integration can
/// never overflow.
pub open spec fn bundle_ok(b: ServerPlayerBundle) -> bool {
    &&& 0 <= b.player.speed <= SPEED_CAP
    &&& -DIR_ONE <= b.input.direction.x <= DIR_ONE
    &&& -DIR_ONE <= b.input.direction.y <= DIR_ONE
}

/// The bundle created for a freshly connected identity: at the origin,
/// standing still, at the default speed.
pub open spec fn spec_new_player(client_id: u64, entity: u64) -> ServerPlayerBundle {
    ServerPlayerBundle {
        player: Player { speed: DEFAULT_SPEED, client_id },
        input: PlayerInput { direction: zero_direction() },
        transform: origin(),
        entity,
    }
}

/// The authoritative server state.
pub struct ServerWorld {
    pub lobby: Lobby,
    pub players: Vec<ServerPlayerBundle>,
    pub next_entity: u64,
}

impl ServerWorld {
    pub open spec fn has_client(self, client_id: u64) -> bool {
        exists|i: int|
            0 <= i < self.players@.len() && (#[trigger] self.players@[i]).player.client_id
                == client_id
    }

    /// Well-formedness: identities are unique, every bundle is bounded, and
    /// the lobby mirrors the player set exactly (an identity is registered
    /// iff a bundle exists for it, and it maps to that bundle's entity).
    pub open spec fn wf(self) -> bool {
        &&& forall|i: int, j: int|
            0 <= i < j < self.players@.len() ==> (#[trigger] self.players@[i]).player.client_id
                != (#[trigger] self.players@[j]).player.client_id
        &&& forall|i: int| 0 <= i < self.players@.len() ==> bundle_ok(#[trigger] self.players@[i])
        &&& forall|i: int|
            0 <= i < self.players@.len() ==> (#[trigger] self.players@[i]).entity
                < self.next_entity
        &&& forall|i: int|
            0 <= i < self.players@.len() ==> self.lobby@.contains_key(
                (#[trigger] self.players@[i]).player.client_id,
            ) && self.lobby@[self.players@[i].player.client_id] == self.players@[i].entity
        &&& forall|k: u64| #[trigger] self.lobby@.contains_key(k) ==> self.has_client(k)
    }

    /// An empty world: no connections, no players.
    pub fn new() -> (r: ServerWorld)
        ensures
            r.wf(),
            r.players@ == Seq::<ServerPlayerBundle>::empty(),
            r.lobby@ == Map::<u64, u64>::empty(),
            r.next_entity == 0,
    {
        ServerWorld { lobby: Lobby::new(), players: Vec::new(), next_entity: 0 }
    }

    /// Number of currently connected players.
    pub fn player_count(&self) -> (r: usize)
        ensures
            r == self.players@.len(),
    {
        self.players.len()
    }

    /// The authoritative position of `client_id`, if connected.
    pub fn position_of(&self, client_id: u64) -> (r: Option<Vec3Milli>)
        requires
            self.wf(),
        ensures
            match r {
                Some(p) => exists|i: int|
                    0 <= i < self.players@.len() && (#[trigger] self.players@[i]).player.client_id
                        == client_id && p == self.players@[i].transform,
                None => !self.has_client(client_id),
            },
    {
        let n = self.players.len();
        let mut idx: usize = 0;
        while idx < n && self.players[idx].player.client_id != client_id
            invariant
                n == self.players@.len(),
                idx <= n,
                forall|j: int|
                    0 <= j < idx ==> (#[trigger] self.players@[j]).player.client_id != client_id,
            decreases n - idx,
        {
            idx += 1;
        }
        if idx < n {
            Some(self.players[idx].transform)
        } else {
            None
        }
    }
}

// ---------------------------------------------------------------------------
// Connect / disconnect
// ---------------------------------------------------------------------------

/// The catch-up and announcement messages triggered by a join: for every
/// already-connected player `p`, one message to the newcomer describing `p`,
/// and one message to `p` announcing the newcomer at the origin.
pub open spec fn spec_connect_fanout(ps: Seq<ServerPlayerBundle>, client_id: u64) -> Seq<
    (u64, Seq<u8>),
>
    decreases ps.len(),
{
    if ps.len() == 0 {
        Seq::empty()
    } else {
        spec_connect_fanout(ps.drop_last(), client_id) + seq![
            (
                client_id,
                spec_encode_init_command(
                    InitCommand::PlayerConnected {
                        client_id: ps.last().player.client_id,
                        position: ps.last().transform,
                    },
                ),
            ),
            (
                ps.last().player.client_id,
                spec_encode_init_command(
                    InitCommand::PlayerConnected { client_id, position: origin() },
                ),
            ),
        ]
    }
}

/// Everything sent when `client_id` joins a server already hosting `ps`:
/// first the newcomer's own spawn message, then the fan-out.
pub open spec fn spec_connect_messages(ps: Seq<ServerPlayerBundle>, client_id: u64) -> Seq<
    (u64, Seq<u8>),
> {
    seq![
        (
            client_id,
            spec_encode_init_command(InitCommand::PlayerConnected { client_id, position: origin() }),
        ),
    ] + spec_connect_fanout(ps, client_id)
}

/// An outbox of (destination identity, encoded message) pairs, as sequences.
pub open spec fn outbox_view(o: Seq<(u64, Vec<u8>)>) -> Seq<(u64, Seq<u8>)> {
    o.map_values(|m: (u64, Vec<u8>)| (m.0, m.1@))
}

/// The messages sent when `client_id` leaves: one departure notice to every
/// player that remains.
pub open spec fn spec_disconnect_messages(ps: Seq<ServerPlayerBundle>, client_id: u64) -> Seq<
    (u64, Seq<u8>),
>
    decreases ps.len(),
{
    if ps.len() == 0 {
        Seq::empty()
    } else {
        spec_disconnect_messages(ps.drop_last(), client_id) + seq![
            (
                ps.last().player.client_id,
                spec_encode_init_command(InitCommand::PlayerDisconnected { client_id }),
            ),
        ]
    }
}

impl ServerWorld {
    /// Handle a `ClientConnected` event: create the player at the origin,
    /// register it, and return every message the join requires, each tagged
    /// with the identity it must be sent to over the ordered-reliable
    /// channel.
    ///
    /// Identities are never reused, so a connecting identity is new.
    pub fn handle_client_connected(&mut self, client_id: u64) -> (outbox: Vec<(u64, Vec<u8>)>)
        requires
            old(self).wf(),
            !old(self).has_client(client_id),
            old(self).next_entity < u64::MAX,
        ensures
            final(self).wf(),
            final(self).players@ == old(self).players@.push(
                spec_new_player(client_id, old(self).next_entity),
            ),
            final(self).lobby@ == old(self).lobby@.insert(client_id, old(self).next_entity),
            final(self).next_entity == old(self).next_entity + 1,
            final(self).has_client(client_id),
            outbox_view(outbox@) == spec_connect_messages(old(self).players@, client_id),
    {
        let mut outbox: Vec<(u64, Vec<u8>)> = Vec::new();
        let spawn = InitCommand::PlayerConnected {
            client_id,
            position: Vec3Milli { x: 0, y: 0, z: 0 },
        };
        let self_msg = encode_init_command(&spawn);
        outbox.push((client_id, self_msg));
        proof {
            assert(outbox_view(outbox@) =~= spec_connect_messages(
                old(self).players@.take(0),
                client_id,
            ));
        }
        let n = self.players.len();
        for i in 0..n
            invariant
                n == self.players@.len(),
                self == old(self),
                spawn == (InitCommand::PlayerConnected { client_id, position: origin() }),
                outbox_view(outbox@) == spec_connect_messages(self.players@.take(i as int), client_id),
        {
            let pid = self.players[i].player.client_id;
            let ppos = self.players[i].transform;
            let existing_msg = encode_init_command(
                &InitCommand::PlayerConnected { client_id: pid, position: ppos },
            );
            let announce = encode_init_command(&spawn);
            let ghost em = existing_msg@;
            let ghost am = announce@;
            let ghost ob0 = outbox@;
            outbox.push((client_id, existing_msg));
            outbox.push((pid, announce));
            proof {
                let t = self.players@.take(i as int + 1);
                let tk = self.players@.take(i as int);
                let pair = seq![(client_id, em), (pid, am)];
                assert(t.len() == i + 1);
                assert(t.drop_last() =~= tk);
                assert(t.last() == self.players@[i as int]);
                assert(pid == t.last().player.client_id);
                assert(ppos == t.last().transform);
                assert(em == spec_encode_init_command(
                    InitCommand::PlayerConnected {
                        client_id: t.last().player.client_id,
                        position: t.last().transform,
                    },
                ));
                assert(am == spec_encode_init_command(
                    InitCommand::PlayerConnected { client_id, position: origin() },
                ));
                assert(spec_connect_fanout(t, client_id) == spec_connect_fanout(tk, client_id)
                    + pair);
                assert(outbox_view(outbox@) =~= outbox_view(ob0) + pair);
                assert(outbox_view(outbox@) =~= spec_connect_messages(t, client_id));
            }
        }
        proof {
            assert(self.players@.take(n as int) =~= self.players@);
        }
        let entity = self.next_entity;
        self.next_entity = entity + 1;
        self.lobby.register(client_id, entity);
        self.players.push(
            ServerPlayerBundle {
                player: Player { speed: DEFAULT_SPEED, client_id },
                input: PlayerInput { direction: Vec2Milli { x: 0, y: 0 } },
                transform: Vec3Milli { x: 0, y: 0, z: 0 },
                entity,
            },
        );
        proof {
            let ps = final(self).players@;
            let oldps = old(self).players@;
            assert(ps == oldps.push(spec_new_player(client_id, entity)));
            assert forall|i: int|
                0 <= i < ps.len() implies final(self).lobby@.contains_key(
                (#[trigger] ps[i]).player.client_id,
            ) && final(self).lobby@[ps[i].player.client_id] == ps[i].entity by {
                if i < oldps.len() {
                    assert(ps[i] == oldps[i]);
                    assert(oldps[i].player.client_id != client_id);
                }
            }
            assert forall|k: u64| #[trigger] final(self).lobby@.contains_key(k) implies final(self).has_client(k) by {
                if k == client_id {
                    assert(ps[ps.len() - 1].player.client_id == client_id);
                } else {
                    assert(old(self).lobby@.contains_key(k));
                    let i = choose|i: int|
                        0 <= i < oldps.len() && (#[trigger] oldps[i]).player.client_id == k;
                    assert(ps[i].player.client_id == k);
                }
            }
            assert(final(self).has_client(client_id)) by {
                assert(ps[ps.len() - 1].player.client_id == client_id);
            }
        }
        outbox
    }
}

/// A bundle with a new stored input direction, all else unchanged.
pub open spec fn spec_with_direction(b: ServerPlayerBundle, d: Vec2Milli) -> ServerPlayerBundle {
    ServerPlayerBundle { input: PlayerInput { direction: d }, ..b }
}

/// A bundle after one tick of motion, all else unchanged.
pub open spec fn spec_step_bundle(b: ServerPlayerBundle, elapsed_ms: u64) -> ServerPlayerBundle {
    ServerPlayerBundle {
        transform: spec_step_position(b.transform, b.input.direction, b.player.speed, elapsed_ms),
        ..b
    }
}

impl ServerWorld {
    fn find_player(&self, client_id: u64) -> (r: usize)
        requires
            self.wf(),
            self.has_client(client_id),
        ensures
            r < self.players@.len(),
            self.players@[r as int].player.client_id == client_id,
    {
        let n = self.players.len();
        let mut idx: usize = 0;
        while idx < n && self.players[idx].player.client_id != client_id
            invariant
                self.has_client(client_id),
                n == self.players@.len(),
                idx <= n,
                forall|j: int|
                    0 <= j < idx ==> (#[trigger] self.players@[j]).player.client_id != client_id,
            decreases n - idx,
        {
            idx += 1;
        }
        proof {
            if idx == n {
                let i = choose|i: int|
                    0 <= i < self.players@.len() && (#[trigger] self.players@[i]).player.client_id
                        == client_id;
                assert(false);
            }
        }
        idx
    }

    /// Apply one buffered movement message from `client_id`, exactly as the
    /// per-tick drain does: a well-formed `PlayerMove` stores the sanitized
    /// direction for that player and nothing else; a malformed payload
    /// changes nothing and reports failure (the caller may drop the message
    /// or tear the connection down).
    pub fn apply_player_message(&mut self, client_id: u64, bytes: &Vec<u8>) -> (ok: bool)
        requires
            old(self).wf(),
            old(self).has_client(client_id),
        ensures
            final(self).wf(),
            final(self).lobby@ == old(self).lobby@,
            final(self).next_entity == old(self).next_entity,
            match spec_decode_player_command(bytes@) {
                Some(cmd) => {
                    &&& ok
                    &&& match cmd {
                        PlayerCommand::PlayerMove { direction } => exists|i: int|
                            0 <= i < old(self).players@.len() && (#[trigger] old(
                                self,
                            ).players@[i]).player.client_id == client_id && final(self).players@
                                == old(self).players@.update(
                                i,
                                spec_with_direction(
                                    old(self).players@[i],
                                    spec_normalize_direction(direction),
                                ),
                            ),
                    }
                },
                None => !ok && final(self).players@ == old(self).players@,
            },
    {
        let cmd = decode_player_command(bytes);
        match cmd {
            None => false,
            Some(PlayerCommand::PlayerMove { direction }) => {
                let nd = normalize_direction(direction);
                let idx = self.find_player(client_id);
                let b = vstd::std_specs::vec::vec_index_mut(&mut self.players, idx);
                b.input.direction = nd;
                proof {
                    let ps = final(self).players@;
                    let oldps = old(self).players@;
                    assert(ps == oldps.update(
                        idx as int,
                        spec_with_direction(oldps[idx as int], spec_normalize_direction(direction)),
                    ));
                    assert forall|k: u64| #[trigger] final(self).lobby@.contains_key(k) implies final(self).has_client(k) by {
                        let i = choose|i: int|
                            0 <= i < oldps.len() && (#[trigger] oldps[i]).player.client_id == k;
                        assert(ps[i].player.client_id == k);
                    }
                }
                true
            },
        }
    }

    /// Integrate one tick of motion for every player:
    /// `position += direction * speed * elapsed`.  Order over players is
    /// irrelevant since each update touches only its own entity.
    pub fn tick_integrate(&mut self, elapsed_ms: u64)
        requires
            old(self).wf(),
            elapsed_ms <= ELAPSED_CAP_MS,
        ensures
            final(self).wf(),
            final(self).lobby@ == old(self).lobby@,
            final(self).next_entity == old(self).next_entity,
            final(self).players@.len() == old(self).players@.len(),
            forall|i: int|
                0 <= i < old(self).players@.len() ==> #[trigger] final(self).players@[i]
                    == spec_step_bundle(old(self).players@[i], elapsed_ms),
    {
        let n = self.players.len();
        for i in 0..n
            invariant
                n == old(self).players@.len(),
                self.players@.len() == n,
                self.lobby@ == old(self).lobby@,
                self.next_entity == old(self).next_entity,
                old(self).wf(),
                elapsed_ms <= ELAPSED_CAP_MS,
                forall|j: int|
                    i <= j < n ==> #[trigger] self.players@[j] == old(self).players@[j],
                forall|j: int|
                    0 <= j < i ==> #[trigger] self.players@[j] == spec_step_bundle(
                        old(self).players@[j],
                        elapsed_ms,
                    ),
        {
            let b = self.players[i];
            proof {
                assert(bundle_ok(old(self).players@[i as int]));
            }
            let t = step_position(b.transform, b.input.direction, b.player.speed, elapsed_ms);
            let slot = vstd::std_specs::vec::vec_index_mut(&mut self.players, i);
            slot.transform = t;
        }
        proof {
            let ps = final(self).players@;
            let oldps = old(self).players@;
            assert forall|k: u64| #[trigger] final(self).lobby@.contains_key(k) implies final(self).has_client(k) by {
                assert(old(self).has_client(k));
                let i = choose|i: int|
                    0 <= i < oldps.len() && (#[trigger] oldps[i]).player.client_id == k;
                assert(ps[i] == spec_step_bundle(oldps[i], elapsed_ms));
                assert(ps[i].player.client_id == k);
            }
        }
    }

    /// Handle a `ClientDisconnected` event: destroy the player's state,
    /// forget the registry entry, and return one departure notice per
    /// remaining player, so no process keeps a stale handle.
    pub fn handle_client_disconnected(&mut self, client_id: u64) -> (outbox: Vec<(u64, Vec<u8>)>)
        requires
            old(self).wf(),
        ensures
            final(self).wf(),
            final(self).next_entity == old(self).next_entity,
            final(self).lobby@ == old(self).lobby@.remove(client_id),
            !final(self).has_client(client_id),
            outbox_view(outbox@) == spec_disconnect_messages(final(self).players@, client_id),
            if old(self).has_client(client_id) {
                exists|i: int|
                    0 <= i < old(self).players@.len() && (#[trigger] old(
                        self,
                    ).players@[i]).player.client_id == client_id && final(self).players@ == old(
                        self,
                    ).players@.remove(i)
            } else {
                final(self).players@ == old(self).players@
            },
    {
        let n = self.players.len();
        let mut idx: usize = 0;
        while idx < n && self.players[idx].player.client_id != client_id
            invariant
                self == old(self),
                n == self.players@.len(),
                idx <= n,
                forall|j: int|
                    0 <= j < idx ==> (#[trigger] self.players@[j]).player.client_id != client_id,
            decreases n - idx,
        {
            idx += 1;
        }
        self.lobby.remove(client_id);
        if idx < n {
            self.players.remove(idx);
        }
        proof {
            let ps = final(self).players@;
            let oldps = old(self).players@;
            if idx < n {
                assert(oldps[idx as int].player.client_id == client_id);
                assert(ps == oldps.remove(idx as int));
                assert forall|i: int, j: int| 0 <= i < j < ps.len() implies (
                #[trigger] ps[i]).player.client_id != (#[trigger] ps[j]).player.client_id by {
                    let io = if i < idx as int { i } else { i + 1 };
                    let jo = if j < idx as int { j } else { j + 1 };
                    assert(ps[i] == oldps[io]);
                    assert(ps[j] == oldps[jo]);
                }
                assert(!final(self).has_client(client_id)) by {
                    if exists|i: int|
                        0 <= i < ps.len() && (#[trigger] ps[i]).player.client_id == client_id {
                        let i = choose|i: int|
                            0 <= i < ps.len() && (#[trigger] ps[i]).player.client_id == client_id;
                        let io = if i < idx as int { i } else { i + 1 };
                        assert(oldps[io].player.client_id == client_id);
                        assert(false);
                    }
                }
                assert forall|i: int|
                    0 <= i < ps.len() implies final(self).lobby@.contains_key(
                    (#[trigger] ps[i]).player.client_id,
                ) && final(self).lobby@[ps[i].player.client_id] == ps[i].entity by {
                    let io = if i < idx as int { i } else { i + 1 };
                    assert(ps[i] == oldps[io]);
                    assert(oldps[io].player.client_id != client_id);
                }
                assert forall|k: u64| #[trigger] final(self).lobby@.contains_key(k) implies final(self).has_client(k) by {
                    assert(old(self).lobby@.contains_key(k) && k != client_id);
                    let i = choose|i: int|
                        0 <= i < oldps.len() && (#[trigger] oldps[i]).player.client_id == k;
                    let inew = if i < idx as int { i } else { i - 1 };
                    assert(i != idx as int);
                    assert(ps[inew] == oldps[i]);
                    assert(ps[inew].player.client_id == k);
                }
                assert forall|i: int| 0 <= i < ps.len() implies bundle_ok(#[trigger] ps[i])
                    && ps[i].entity < final(self).next_entity by {
                    let io = if i < idx as int { i } else { i + 1 };
                    assert(ps[i] == oldps[io]);
                }
            } else {
                assert(!old(self).has_client(client_id));
                assert(final(self).lobby@ =~= old(self).lobby@.remove(client_id));
                assert forall|k: u64| #[trigger] final(self).lobby@.contains_key(k) implies final(self).has_client(k) by {
                    assert(old(self).lobby@.contains_key(k));
                }
            }
        }
        let notice = InitCommand::PlayerDisconnected { client_id };
        let mut outbox: Vec<(u64, Vec<u8>)> = Vec::new();
        proof {
            assert(outbox_view(outbox@) =~= spec_disconnect_messages(
                self.players@.take(0),
                client_id,
            ));
        }
        let m = self.players.len();
        #[verifier::loop_isolation(false)]
        for k in 0..m
            invariant
                m == self.players@.len(),
                outbox_view(outbox@) == spec_disconnect_messages(
                    self.players@.take(k as int),
                    client_id,
                ),
        {
            let dest = self.players[k].player.client_id;
            let msg = encode_init_command(&notice);
            let ghost mv = msg@;
            let ghost ob0 = outbox@;
            outbox.push((dest, msg));
            proof {
                let t = self.players@.take(k as int + 1);
                assert(t.drop_last() =~= self.players@.take(k as int));
                assert(t.last() == self.players@[k as int]);
                assert(outbox_view(outbox@) =~= outbox_view(ob0) + seq![(dest, mv)]);
                assert(outbox_view(outbox@) =~= spec_disconnect_messages(t, client_id));
            }
        }
        proof {
            assert(self.players@.take(m as int) =~= self.players@);
        }
        outbox
    }
}

// ---------------------------------------------------------------------------
// Snapshot broadcast
// ---------------------------------------------------------------------------

/// The position table of a player set: exactly one (identity, position)
/// entry per player, in player order.
pub open spec fn spec_snapshot_entries(ps: Seq<ServerPlayerBundle>) -> Seq<(u64, Vec3Milli)> {
    ps.map_values(|b: ServerPlayerBundle| (b.player.client_id, b.transform))
}

impl ServerWorld {
    /// Build the per-tick snapshot message: the full position table, encoded
    /// for the unreliable broadcast channel.
    pub fn server_sync_players(&self) -> (r: Vec<u8>)
        ensures
            r@ == spec_encode_snapshot(spec_snapshot_entries(self.players@)),
    {
        let n = self.players.len();
        let mut entries: Vec<(u64, Vec3Milli)> = Vec::new();
        for i in 0..n
            invariant
                n == self.players@.len(),
                entries@.len() == i,
                forall|j: int|
                    0 <= j < i ==> #[trigger] entries@[j] == (
                        self.players@[j].player.client_id,
                        self.players@[j].transform,
                    ),
        {
            entries.push((self.players[i].player.client_id, self.players[i].transform));
        }
        proof {
            assert(entries@ =~= spec_snapshot_entries(self.players@));
        }
        encode_snapshot(&entries)
    }
}

// ---------------------------------------------------------------------------
// Join fan-out accounting
// ---------------------------------------------------------------------------

/// How many messages of an outbox are addressed to `dest`.
pub open spec fn spec_count_to(out: Seq<(u64, Seq<u8>)>, dest: u64) -> int
    decreases out.len(),
{
    if out.len() == 0 {
        0
    } else {
        spec_count_to(out.drop_last(), dest) + if out.last().0 == dest {
            1int
        } else {
            0int
        }
    }
}

/// How many players of a set carry the identity `id`.
pub open spec fn spec_count_id(ps: Seq<ServerPlayerBundle>, id: u64) -> int
    decreases ps.len(),
{
    if ps.len() == 0 {
        0
    } else {
        spec_count_id(ps.drop_last(), id) + if ps.last().player.client_id == id {
            1int
        } else {
            0int
        }
    }
}

proof fn lemma_count_to_concat(a: Seq<(u64, Seq<u8>)>, b: Seq<(u64, Seq<u8>)>, dest: u64)
    ensures
        spec_count_to(a + b, dest) == spec_count_to(a, dest) + spec_count_to(b, dest),
    decreases b.len(),
{
    if b.len() == 0 {
        assert(a + b =~= a);
    } else {
        lemma_count_to_concat(a, b.drop_last(), dest);
        assert((a + b).drop_last() =~= a + b.drop_last());
        assert((a + b).last() == b.last());
    }
}

/// The fan-out of a join addresses `spec_count_id(ps, dest)` messages to any
/// existing identity `dest`, and one message per player to the newcomer.
proof fn lemma_fanout_counts(ps: Seq<ServerPlayerBundle>, client_id: u64, dest: u64)
    requires
        forall|i: int|
            0 <= i < ps.len() ==> (#[trigger] ps[i]).player.client_id != client_id,
    ensures
        dest == client_id ==> spec_count_to(spec_connect_fanout(ps, client_id), dest) == ps.len(),
        dest != client_id ==> spec_count_to(spec_connect_fanout(ps, client_id), dest)
            == spec_count_id(ps, dest),
    decreases ps.len(),
{
    if ps.len() > 0 {
        let tail = ps.drop_last();
        assert(forall|i: int|
            0 <= i < tail.len() ==> (#[trigger] tail[i]) == ps[i]);
        lemma_fanout_counts(tail, client_id, dest);
        let pair = seq![
            (
                client_id,
                spec_encode_init_command(
                    InitCommand::PlayerConnected {
                        client_id: ps.last().player.client_id,
                        position: ps.last().transform,
                    },
                ),
            ),
            (
                ps.last().player.client_id,
                spec_encode_init_command(
                    InitCommand::PlayerConnected { client_id, position: origin() },
                ),
            ),
        ];
        lemma_count_to_concat(spec_connect_fanout(tail, client_id), pair, dest);
        let front = pair.drop_last();
        let none = front.drop_last();
        assert(none =~= Seq::<(u64, Seq<u8>)>::empty());
        assert(spec_count_to(none, dest) == 0);
        assert(front.last() == pair[0]);
        assert(spec_count_to(front, dest) == if pair[0].0 == dest {
            1int
        } else {
            0int
        });
        assert(pair.last() == pair[1]);
        assert(spec_count_to(pair, dest) == spec_count_to(front, dest) + if pair[1].0 == dest {
            1int
        } else {
            0int
        });
        assert(spec_connect_fanout(ps, client_id) == spec_connect_fanout(tail, client_id) + pair);
        assert(ps.last().player.client_id != client_id);
    }
}

/// No player carries `id`: the count is zero.
proof fn lemma_count_id_absent(ps: Seq<ServerPlayerBundle>, id: u64)
    requires
        forall|i: int| 0 <= i < ps.len() ==> (#[trigger] ps[i]).player.client_id != id,
    ensures
        spec_count_id(ps, id) == 0,
    decreases ps.len(),
{
    if ps.len() > 0 {
        let tail = ps.drop_last();
        assert(forall|i: int| 0 <= i < tail.len() ==> (#[trigger] tail[i]) == ps[i]);
        lemma_count_id_absent(tail, id);
    }
}

/// Identities are unique: each player's own identity is counted exactly once.
proof fn lemma_count_id_unique(ps: Seq<ServerPlayerBundle>, j: int)
    requires
        0 <= j < ps.len(),
        forall|i1: int, i2: int|
            0 <= i1 < i2 < ps.len() ==> (#[trigger] ps[i1]).player.client_id != (
            #[trigger] ps[i2]).player.client_id,
    ensures
        spec_count_id(ps, ps[j].player.client_id) == 1,
    decreases ps.len(),
{
    let id = ps[j].player.client_id;
    let tail = ps.drop_last();
    if j == ps.len() - 1 {
        assert(forall|i: int|
            0 <= i < tail.len() ==> (#[trigger] tail[i]).player.client_id != id);
        lemma_count_id_absent(tail, id);
    } else {
        assert(forall|i: int| 0 <= i < tail.len() ==> (#[trigger] tail[i]) == ps[i]);
        lemma_count_id_unique(tail, j);
        assert(ps.last().player.client_id != id);
    }
}

/// Join fan-out law: when `client_id` joins a server already hosting the
/// players `ps`, the newcomer is sent one message per existing player plus
/// its own spawn message, and every existing player is sent exactly one
/// message.
pub proof fn lemma_join_fanout(ps: Seq<ServerPlayerBundle>, client_id: u64)
    requires
        forall|i: int|
            0 <= i < ps.len() ==> (#[trigger] ps[i]).player.client_id != client_id,
        forall|i1: int, i2: int|
            0 <= i1 < i2 < ps.len() ==> (#[trigger] ps[i1]).player.client_id != (
            #[trigger] ps[i2]).player.client_id,
    ensures
        spec_count_to(spec_connect_messages(ps, client_id), client_id) == ps.len() + 1,
        forall|j: int|
            0 <= j < ps.len() ==> spec_count_to(
                spec_connect_messages(ps, client_id),
                (#[trigger] ps[j]).player.client_id,
            ) == 1,
{
    let head = seq![
        (
            client_id,
            spec_encode_init_command(InitCommand::PlayerConnected { client_id, position: origin() }),
        ),
    ];
    let h0 = head.drop_last();
    assert(h0 =~= Seq::<(u64, Seq<u8>)>::empty());
    assert(head.last() == head[0]);
    assert(spec_connect_messages(ps, client_id) == head + spec_connect_fanout(ps, client_id));
    lemma_count_to_concat(head, spec_connect_fanout(ps, client_id), client_id);
    assert(spec_count_to(h0, client_id) == 0);
    assert(spec_count_to(head, client_id) == 1);
    lemma_fanout_counts(ps, client_id, client_id);
    assert forall|j: int|
        0 <= j < ps.len() implies spec_count_to(
        spec_connect_messages(ps, client_id),
        (#[trigger] ps[j]).player.client_id,
    ) == 1 by {
        let dest = ps[j].player.client_id;
        lemma_count_to_concat(head, spec_connect_fanout(ps, client_id), dest);
        assert(spec_count_to(h0, dest) == 0);
        assert(dest != client_id);
        assert(spec_count_to(head, dest) == 0);
        lemma_fanout_counts(ps, client_id, dest);
        lemma_count_id_unique(ps, j);
    }
}

/// Snapshot completeness: the table sent each tick has exactly one entry per
/// currently registered player — no more, no fewer — and an identity appears
/// in it iff that identity is connected.
pub proof fn lemma_snapshot_complete(w: ServerWorld)
    requires
        w.wf(),
    ensures
        spec_snapshot_entries(w.players@).len() == w.players@.len(),
        forall|i: int|
            0 <= i < w.players@.len() ==> #[trigger] spec_snapshot_entries(w.players@)[i] == (
                w.players@[i].player.client_id,
                w.players@[i].transform,
            ),
        forall|id: u64|
            #[trigger] w.has_client(id) <==> exists|i: int|
                0 <= i < spec_snapshot_entries(w.players@).len()
                    && (#[trigger] spec_snapshot_entries(w.players@)[i]).0 == id,
        forall|i: int, j: int|
            0 <= i < j < w.players@.len() ==> (#[trigger] spec_snapshot_entries(w.players@)[i]).0
                != (#[trigger] spec_snapshot_entries(w.players@)[j]).0,
{
    let entries = spec_snapshot_entries(w.players@);
    assert forall|id: u64| #[trigger] w.has_client(id) implies exists|i: int|
        0 <= i < entries.len() && (#[trigger] entries[i]).0 == id by {
        let i = choose|i: int|
            0 <= i < w.players@.len() && (#[trigger] w.players@[i]).player.client_id == id;
        assert(entries[i].0 == id);
    }
    assert forall|id: u64|
        exists|i: int| 0 <= i < entries.len() && (#[trigger] entries[i]).0 == id implies w.has_client(
        id,
    ) by {
        let i = choose|i: int| 0 <= i < entries.len() && (#[trigger] entries[i]).0 == id;
        assert(w.players@[i].player.client_id == id);
    }
}

} // verus!
