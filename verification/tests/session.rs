use cavetown::client::ClientWorld;
use cavetown::codec::{decode_snapshot, encode_player_command, encode_snapshot};
use cavetown::server::ServerWorld;
use cavetown::{PlayerCommand, Vec3Bits, Vec3Milli};

fn move_message(x: f32, y: f32, z: f32) -> Vec<u8> {
    encode_player_command(&PlayerCommand::PlayerMove {
        direction: Vec3Bits { x: x.to_bits(), y: y.to_bits(), z: z.to_bits() },
    })
}

#[test]
fn connect_registers_player_at_origin() {
    let mut server = ServerWorld::new();
    let outbox = server.handle_client_connected(42);
    assert_eq!(server.player_count(), 1);
    assert_eq!(server.lobby.len(), 1);
    assert_eq!(server.lobby.lookup(42), Some(server.players[0].entity));
    assert_eq!(server.players[0].player.client_id, 42);
    assert_eq!(server.players[0].player.speed, 400_000);
    assert_eq!(server.players[0].transform, Vec3Milli { x: 0, y: 0, z: 0 });
    // Alone on the server: only the newcomer's own spawn message is sent.
    assert_eq!(outbox.len(), 1);
    assert_eq!(outbox[0].0, 42);
}

#[test]
fn join_fan_out_counts() {
    // A and B are already connected; when C joins, C must receive 3 messages
    // (self, A, B) and A and B exactly 1 each.
    let mut server = ServerWorld::new();
    server.handle_client_connected(1);
    server.handle_client_connected(2);
    let outbox = server.handle_client_connected(3);
    assert_eq!(outbox.len(), 5);
    let to_c = outbox.iter().filter(|m| m.0 == 3).count();
    let to_a = outbox.iter().filter(|m| m.0 == 1).count();
    let to_b = outbox.iter().filter(|m| m.0 == 2).count();
    assert_eq!(to_c, 3);
    assert_eq!(to_a, 1);
    assert_eq!(to_b, 1);
}

#[test]
fn disconnect_removes_state_and_registry_entry() {
    let mut server = ServerWorld::new();
    server.handle_client_connected(1);
    server.handle_client_connected(2);
    let notices = server.handle_client_disconnected(1);
    assert_eq!(server.player_count(), 1);
    assert_eq!(server.lobby.len(), 1);
    assert_eq!(server.lobby.lookup(1), None);
    assert_eq!(server.players[0].player.client_id, 2);
    // The one remaining player is told about the departure.
    assert_eq!(notices.len(), 1);
    assert_eq!(notices[0].0, 2);
    // The next snapshot no longer mentions the departed identity.
    let entries = decode_snapshot(&server.server_sync_players()).unwrap();
    assert_eq!(entries.len(), 1);
    assert_eq!(entries[0].0, 2);
}

#[test]
fn snapshot_has_one_entry_per_player() {
    let mut server = ServerWorld::new();
    server.handle_client_connected(10);
    server.handle_client_connected(20);
    server.handle_client_connected(30);
    let entries = decode_snapshot(&server.server_sync_players()).unwrap();
    assert_eq!(entries.len(), 3);
    let mut ids: Vec<u64> = entries.iter().map(|e| e.0).collect();
    ids.sort();
    assert_eq!(ids, vec![10, 20, 30]);
}

#[test]
fn malformed_player_message_changes_nothing() {
    let mut server = ServerWorld::new();
    server.handle_client_connected(1);
    let before = server.players[0];
    let garbage = vec![9, 9, 9];
    assert!(!server.apply_player_message(1, &garbage));
    assert_eq!(server.players[0], before);
}

#[test]
fn unknown_identity_snapshot_entry_is_ignored() {
    let mut client = ClientWorld::new();
    let mut server = ServerWorld::new();
    let outbox = server.handle_client_connected(7);
    assert!(client.client_initalize(&outbox[0].1));
    let before = client.position_of(7);
    // Identity 99 was never announced to this client.
    let rogue = encode_snapshot(&vec![(99u64, Vec3Milli { x: 5, y: 5, z: 5 })]);
    assert!(client.client_sync_system(&rogue));
    assert_eq!(client.known_count(), 1);
    assert_eq!(client.position_of(7), before);
    assert_eq!(client.position_of(99), None);
}

#[test]
fn snapshot_application_is_idempotent() {
    let mut client = ClientWorld::new();
    let mut server = ServerWorld::new();
    for msg in server.handle_client_connected(1) {
        assert!(client.client_initalize(&msg.1));
    }
    for msg in server.handle_client_connected(2) {
        if msg.0 != 1 {
            continue;  // addressed to the newcomer, not to this client
        }
        assert!(client.client_initalize(&msg.1));
    }
    let snapshot = encode_snapshot(&vec![
        (1u64, Vec3Milli { x: 11, y: 12, z: 13 }),
        (2u64, Vec3Milli { x: 21, y: 22, z: 23 }),
    ]);
    assert!(client.client_sync_system(&snapshot));
    let once = (client.position_of(1), client.position_of(2));
    assert!(client.client_sync_system(&snapshot));
    let twice = (client.position_of(1), client.position_of(2));
    assert_eq!(once, twice);
    assert_eq!(once.0, Some(Vec3Milli { x: 11, y: 12, z: 13 }));
    assert_eq!(once.1, Some(Vec3Milli { x: 21, y: 22, z: 23 }));
}

#[test]
fn malformed_init_and_snapshot_change_nothing() {
    let mut client = ClientWorld::new();
    assert!(!client.client_initalize(&vec![1, 2, 3]));
    assert_eq!(client.known_count(), 0);
    assert!(!client.client_sync_system(&vec![1, 2, 3]));
    assert_eq!(client.known_count(), 0);
}

#[test]
fn end_to_end_single_client_tick() {
    // Server starts; client A connects; registries agree; A sends a +x move
    // intent; after one 100 ms tick the snapshot reports A advanced by
    // speed * elapsed = 400 * 0.1 = 40 units; A's mirror matches.
    let mut server = ServerWorld::new();
    let mut client = ClientWorld::new();

    let outbox = server.handle_client_connected(7);
    assert_eq!(server.lobby.len(), 1);
    for (dest, msg) in &outbox {
        assert_eq!(*dest, 7);
        assert!(client.client_initalize(msg));
    }
    assert_eq!(client.known_count(), 1);

    // Client intent travels over the ordered-reliable channel.
    let intent = move_message(1.0, 0.0, 0.0);
    assert!(server.apply_player_message(7, &intent));
    assert_eq!(server.players[0].input.direction.x, 1000);
    assert_eq!(server.players[0].input.direction.y, 0);

    // One tick: drain happened above, then integrate, then broadcast.
    server.tick_integrate(100);
    let snapshot = server.server_sync_players();
    let entries = decode_snapshot(&snapshot).unwrap();
    assert_eq!(entries, vec![(7u64, Vec3Milli { x: 40_000, y: 0, z: 0 })]);

    // The client applies the broadcast and mirrors the authoritative state.
    assert!(client.client_sync_system(&snapshot));
    assert_eq!(client.position_of(7), Some(Vec3Milli { x: 40_000, y: 0, z: 0 }));
    assert_eq!(client.position_of(7), server.position_of(7));
    assert_eq!(server.position_of(8), None);
}

#[test]
fn later_commands_in_one_drain_win() {
    // Commands within one identity's queue apply in order: the stored
    // direction after a drain is the last one received.
    let mut server = ServerWorld::new();
    server.handle_client_connected(1);
    assert!(server.apply_player_message(1, &move_message(1.0, 0.0, 0.0)));
    assert!(server.apply_player_message(1, &move_message(0.0, 1.0, 0.0)));
    assert_eq!(server.players[0].input.direction.x, 0);
    assert_eq!(server.players[0].input.direction.y, 1000);
}

#[test]
fn degenerate_intent_stops_movement() {
    let mut server = ServerWorld::new();
    server.handle_client_connected(1);
    assert!(server.apply_player_message(1, &move_message(1.0, 0.0, 0.0)));
    server.tick_integrate(100);
    let moved = server.players[0].transform;
    assert_eq!(moved, Vec3Milli { x: 40_000, y: 0, z: 0 });
    // A NaN intent means "stop": the next tick does not move the player.
    assert!(server.apply_player_message(1, &move_message(f32::NAN, 0.0, 0.0)));
    server.tick_integrate(100);
    assert_eq!(server.players[0].transform, moved);
}

#[test]
fn client_despawns_departed_entity() {
    let mut server = ServerWorld::new();
    let mut client_a = ClientWorld::new();
    for msg in server.handle_client_connected(1) {
        assert!(client_a.client_initalize(&msg.1));
    }
    for msg in server.handle_client_connected(2) {
        if msg.0 == 1 {
            assert!(client_a.client_initalize(&msg.1));
        }
    }
    assert_eq!(client_a.known_count(), 2);
    for msg in server.handle_client_disconnected(2) {
        if msg.0 == 1 {
            assert!(client_a.client_initalize(&msg.1));
        }
    }
    assert_eq!(client_a.known_count(), 1);
    assert_eq!(client_a.position_of(2), None);
    // A late snapshot entry for the departed identity is now ignored.
    let stale = encode_snapshot(&vec![(2u64, Vec3Milli { x: 9, y: 9, z: 9 })]);
    assert!(client_a.client_sync_system(&stale));
    assert_eq!(client_a.position_of(2), None);
}
