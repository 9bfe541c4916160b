use cavetown::codec::{
    decode_init_command, decode_player_command, decode_snapshot, encode_init_command,
    encode_player_command, encode_snapshot,
};
use cavetown::{InitCommand, PlayerCommand, Vec3Bits, Vec3Milli};

#[test]
fn init_command_round_trip() {
    let c = InitCommand::PlayerConnected {
        client_id: 123456789,
        position: Vec3Milli { x: 40_000, y: -2_500, z: 0 },
    };
    let bytes = encode_init_command(&c);
    assert_eq!(bytes.len(), 33);
    assert_eq!(decode_init_command(&bytes), Some(c));
}

#[test]
fn init_command_rejects_truncated_payload() {
    let c = InitCommand::PlayerConnected {
        client_id: 1,
        position: Vec3Milli { x: 0, y: 0, z: 0 },
    };
    let mut bytes = encode_init_command(&c);
    bytes.pop();
    assert_eq!(decode_init_command(&bytes), None);
    assert_eq!(decode_init_command(&Vec::new()), None);
}

#[test]
fn disconnect_command_round_trip() {
    let c = InitCommand::PlayerDisconnected { client_id: u64::MAX };
    let bytes = encode_init_command(&c);
    assert_eq!(bytes.len(), 9);
    assert_eq!(decode_init_command(&bytes), Some(c));
}

#[test]
fn disconnect_command_rejects_truncated_payload() {
    let c = InitCommand::PlayerDisconnected { client_id: 5 };
    let mut bytes = encode_init_command(&c);
    bytes.pop();
    assert_eq!(decode_init_command(&bytes), None);
}

#[test]
fn init_command_rejects_wrong_tag() {
    let c = InitCommand::PlayerConnected {
        client_id: 1,
        position: Vec3Milli { x: 0, y: 0, z: 0 },
    };
    let mut bytes = encode_init_command(&c);
    bytes[0] = 99;
    assert_eq!(decode_init_command(&bytes), None);
}

#[test]
fn player_command_round_trip() {
    let c = PlayerCommand::PlayerMove {
        direction: Vec3Bits {
            x: 1.0f32.to_bits(),
            y: (-1.0f32).to_bits(),
            z: f32::NAN.to_bits(),
        },
    };
    let bytes = encode_player_command(&c);
    assert_eq!(bytes.len(), 13);
    assert_eq!(decode_player_command(&bytes), Some(c));
}

#[test]
fn player_command_rejects_malformed_payload() {
    let c = PlayerCommand::PlayerMove { direction: Vec3Bits { x: 0, y: 0, z: 0 } };
    let mut bytes = encode_player_command(&c);
    bytes.push(0);
    assert_eq!(decode_player_command(&bytes), None);
    let mut wrong_tag = encode_player_command(&c);
    wrong_tag[0] = 1;
    assert_eq!(decode_player_command(&wrong_tag), None);
}

#[test]
fn snapshot_round_trip() {
    let entries = vec![
        (5u64, Vec3Milli { x: 1, y: 2, z: 3 }),
        (9u64, Vec3Milli { x: -40_000, y: 0, z: 7 }),
    ];
    let bytes = encode_snapshot(&entries);
    assert_eq!(bytes.len(), 64);
    assert_eq!(decode_snapshot(&bytes), Some(entries));
}

#[test]
fn empty_snapshot_round_trip() {
    let entries: Vec<(u64, Vec3Milli)> = Vec::new();
    let bytes = encode_snapshot(&entries);
    assert_eq!(bytes.len(), 0);
    assert_eq!(decode_snapshot(&bytes), Some(entries));
}

#[test]
fn snapshot_rejects_ragged_payload() {
    let entries = vec![(5u64, Vec3Milli { x: 1, y: 2, z: 3 })];
    let mut bytes = encode_snapshot(&entries);
    bytes.pop();
    assert_eq!(decode_snapshot(&bytes), None);
}
