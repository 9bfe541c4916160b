//! Verified binary codec for the wire protocol.
//!
//! Every message class has a total specification-level encoder and decoder
//! over byte sequences, an executable encoder and decoder proved equal to
//! them, and a round-trip lemma.  Multi-byte scalars are little-endian.
//! A malformed or truncated payload decodes to `None`; nothing panics.

use vstd::prelude::*;
use crate::{InitCommand, PlayerCommand, Vec3Bits, Vec3Milli};

verus! {

/// Message tag for [`InitCommand::PlayerConnected`].
pub const TAG_PLAYER_CONNECTED: u8 = 1;
/// Message tag for [`InitCommand::PlayerDisconnected`].
pub const TAG_PLAYER_DISCONNECTED: u8 = 2;
/// Message tag for [`PlayerCommand::PlayerMove`].
pub const TAG_PLAYER_MOVE: u8 = 3;

/// Encoded size of [`InitCommand::PlayerConnected`]: tag, identity, three
/// coordinates.
pub const PLAYER_CONNECTED_LEN: usize = 33;
/// Encoded size of [`InitCommand::PlayerDisconnected`]: tag and identity.
pub const PLAYER_DISCONNECTED_LEN: usize = 9;
/// Encoded size of a [`PlayerCommand`]: tag and three raw components.
pub const PLAYER_COMMAND_LEN: usize = 13;
/// Encoded size of one snapshot entry: identity and three coordinates.
pub const SNAPSHOT_ENTRY_LEN: usize = 32;

// ---------------------------------------------------------------------------
// Little-endian scalar encodings
// ---------------------------------------------------------------------------

pub open spec fn u32_le(v: u32) -> Seq<u8> {
    seq![v as u8, (v >> 8) as u8, (v >> 16) as u8, (v >> 24) as u8]
}

pub open spec fn u32_from_le(s: Seq<u8>) -> u32
    recommends
        s.len() == 4,
{
    (s[0] as u32) | (s[1] as u32) << 8 | (s[2] as u32) << 16 | (s[3] as u32) << 24
}

pub open spec fn u64_le(v: u64) -> Seq<u8> {
    seq![
        v as u8,
        (v >> 8) as u8,
        (v >> 16) as u8,
        (v >> 24) as u8,
        (v >> 32) as u8,
        (v >> 40) as u8,
        (v >> 48) as u8,
        (v >> 56) as u8,
    ]
}

pub open spec fn u64_from_le(s: Seq<u8>) -> u64
    recommends
        s.len() == 8,
{
    (s[0] as u64) | (s[1] as u64) << 8 | (s[2] as u64) << 16 | (s[3] as u64) << 24
        | (s[4] as u64) << 32 | (s[5] as u64) << 40 | (s[6] as u64) << 48 | (s[7] as u64) << 56
}

/// Signed coordinates travel as their two's-complement bit pattern.
pub open spec fn i64_le(v: i64) -> Seq<u8> {
    u64_le(v as u64)
}

pub open spec fn i64_from_le(s: Seq<u8>) -> i64
    recommends
        s.len() == 8,
{
    u64_from_le(s) as i64
}

pub proof fn lemma_u32_le_round_trip(v: u32)
    ensures
        u32_from_le(u32_le(v)) == v,
{
    assert(((v as u8) as u32) | (((v >> 8) as u8) as u32) << 8 | (((v >> 16) as u8) as u32) << 16
        | (((v >> 24) as u8) as u32) << 24 == v) by (bit_vector);
}

pub proof fn lemma_u64_le_round_trip(v: u64)
    ensures
        u64_from_le(u64_le(v)) == v,
{
    assert(((v as u8) as u64) | (((v >> 8) as u8) as u64) << 8 | (((v >> 16) as u8) as u64) << 16
        | (((v >> 24) as u8) as u64) << 24 | (((v >> 32) as u8) as u64) << 32
        | (((v >> 40) as u8) as u64) << 40 | (((v >> 48) as u8) as u64) << 48
        | (((v >> 56) as u8) as u64) << 56 == v) by (bit_vector);
}

pub proof fn lemma_i64_le_round_trip(v: i64)
    ensures
        i64_from_le(i64_le(v)) == v,
{
    lemma_u64_le_round_trip(v as u64);
    assert(((v as u64) as i64) == v) by (bit_vector);
}

fn push_u32_le(out: &mut Vec<u8>, v: u32)
    ensures
        final(out)@ == old(out)@ + u32_le(v),
{
    out.push(#[verifier::truncate] (v as u8));
    out.push(#[verifier::truncate] ((v >> 8) as u8));
    out.push(#[verifier::truncate] ((v >> 16) as u8));
    out.push(#[verifier::truncate] ((v >> 24) as u8));
    proof {
        assert(out@ =~= old(out)@ + u32_le(v));
    }
}

fn push_u64_le(out: &mut Vec<u8>, v: u64)
    ensures
        final(out)@ == old(out)@ + u64_le(v),
{
    out.push(#[verifier::truncate] (v as u8));
    out.push(#[verifier::truncate] ((v >> 8) as u8));
    out.push(#[verifier::truncate] ((v >> 16) as u8));
    out.push(#[verifier::truncate] ((v >> 24) as u8));
    out.push(#[verifier::truncate] ((v >> 32) as u8));
    out.push(#[verifier::truncate] ((v >> 40) as u8));
    out.push(#[verifier::truncate] ((v >> 48) as u8));
    out.push(#[verifier::truncate] ((v >> 56) as u8));
    proof {
        assert(out@ =~= old(out)@ + u64_le(v));
    }
}

fn push_i64_le(out: &mut Vec<u8>, v: i64)
    ensures
        final(out)@ == old(out)@ + i64_le(v),
{
    push_u64_le(out, #[verifier::truncate] (v as u64));
}

fn read_u32_le(b: &Vec<u8>, off: usize) -> (r: u32)
    requires
        off + 4 <= b@.len(),
    ensures
        r == u32_from_le(b@.subrange(off as int, off as int + 4)),
{
    let n = b.len();
    proof {
        assert(off + 4 <= n);
    }
    let r = (b[off] as u32) | (b[off + 1] as u32) << 8 | (b[off + 2] as u32) << 16
        | (b[off + 3] as u32) << 24;
    proof {
        let s = b@.subrange(off as int, off as int + 4);
        assert(s[0] == b@[off as int] && s[1] == b@[off as int + 1] && s[2] == b@[off as int + 2]
            && s[3] == b@[off as int + 3]);
    }
    r
}

fn read_u64_le(b: &Vec<u8>, off: usize) -> (r: u64)
    requires
        off + 8 <= b@.len(),
    ensures
        r == u64_from_le(b@.subrange(off as int, off as int + 8)),
{
    let n = b.len();
    proof {
        assert(off + 8 <= n);
    }
    let r = (b[off] as u64) | (b[off + 1] as u64) << 8 | (b[off + 2] as u64) << 16
        | (b[off + 3] as u64) << 24 | (b[off + 4] as u64) << 32 | (b[off + 5] as u64) << 40
        | (b[off + 6] as u64) << 48 | (b[off + 7] as u64) << 56;
    proof {
        let s = b@.subrange(off as int, off as int + 8);
        assert(s[0] == b@[off as int] && s[1] == b@[off as int + 1] && s[2] == b@[off as int + 2]
            && s[3] == b@[off as int + 3] && s[4] == b@[off as int + 4] && s[5] == b@[off as int
            + 5] && s[6] == b@[off as int + 6] && s[7] == b@[off as int + 7]);
    }
    r
}

fn read_i64_le(b: &Vec<u8>, off: usize) -> (r: i64)
    requires
        off + 8 <= b@.len(),
    ensures
        r == i64_from_le(b@.subrange(off as int, off as int + 8)),
{
    let v = read_u64_le(b, off);
    #[verifier::truncate] (v as i64)
}

// ---------------------------------------------------------------------------
// InitCommand
// ---------------------------------------------------------------------------

pub open spec fn spec_encode_init_command(c: InitCommand) -> Seq<u8> {
    match c {
        InitCommand::PlayerConnected { client_id, position } => seq![TAG_PLAYER_CONNECTED]
            + u64_le(client_id) + i64_le(position.x) + i64_le(position.y) + i64_le(position.z),
        InitCommand::PlayerDisconnected { client_id } => seq![TAG_PLAYER_DISCONNECTED] + u64_le(
            client_id,
        ),
    }
}

pub open spec fn spec_decode_init_command(b: Seq<u8>) -> Option<InitCommand> {
    if b.len() == PLAYER_CONNECTED_LEN && b[0] == TAG_PLAYER_CONNECTED {
        Some(
            InitCommand::PlayerConnected {
                client_id: u64_from_le(b.subrange(1, 9)),
                position: Vec3Milli {
                    x: i64_from_le(b.subrange(9, 17)),
                    y: i64_from_le(b.subrange(17, 25)),
                    z: i64_from_le(b.subrange(25, 33)),
                },
            },
        )
    } else if b.len() == PLAYER_DISCONNECTED_LEN && b[0] == TAG_PLAYER_DISCONNECTED {
        Some(InitCommand::PlayerDisconnected { client_id: u64_from_le(b.subrange(1, 9)) })
    } else {
        None
    }
}

/// Decoding inverts encoding: the reliable channel carries `InitCommand`s
/// byte-exactly, so both ends agree on every announced identity and position.
pub proof fn lemma_init_command_round_trip(c: InitCommand)
    ensures
        spec_decode_init_command(spec_encode_init_command(c)) == Some(c),
{
    match c {
        InitCommand::PlayerConnected { client_id, position } => {
            let b = spec_encode_init_command(c);
            assert(b.len() == PLAYER_CONNECTED_LEN);
            assert(b[0] == TAG_PLAYER_CONNECTED);
            assert(b.subrange(1, 9) =~= u64_le(client_id));
            assert(b.subrange(9, 17) =~= i64_le(position.x));
            assert(b.subrange(17, 25) =~= i64_le(position.y));
            assert(b.subrange(25, 33) =~= i64_le(position.z));
            lemma_u64_le_round_trip(client_id);
            lemma_i64_le_round_trip(position.x);
            lemma_i64_le_round_trip(position.y);
            lemma_i64_le_round_trip(position.z);
        },
        InitCommand::PlayerDisconnected { client_id } => {
            let b = spec_encode_init_command(c);
            assert(b.len() == PLAYER_DISCONNECTED_LEN);
            assert(b[0] == TAG_PLAYER_DISCONNECTED);
            assert(b.subrange(1, 9) =~= u64_le(client_id));
            lemma_u64_le_round_trip(client_id);
        },
    }
}

pub fn encode_init_command(c: &InitCommand) -> (r: Vec<u8>)
    ensures
        r@ == spec_encode_init_command(*c),
{
    let mut out: Vec<u8> = Vec::new();
    match c {
        InitCommand::PlayerConnected { client_id, position } => {
            out.push(TAG_PLAYER_CONNECTED);
            push_u64_le(&mut out, *client_id);
            push_i64_le(&mut out, position.x);
            push_i64_le(&mut out, position.y);
            push_i64_le(&mut out, position.z);
        },
        InitCommand::PlayerDisconnected { client_id } => {
            out.push(TAG_PLAYER_DISCONNECTED);
            push_u64_le(&mut out, *client_id);
        },
    }
    proof {
        assert(out@ =~= spec_encode_init_command(*c));
    }
    out
}

pub fn decode_init_command(b: &Vec<u8>) -> (r: Option<InitCommand>)
    ensures
        r == spec_decode_init_command(b@),
{
    if b.len() == PLAYER_CONNECTED_LEN && b[0] == TAG_PLAYER_CONNECTED {
        let client_id = read_u64_le(b, 1);
        let x = read_i64_le(b, 9);
        let y = read_i64_le(b, 17);
        let z = read_i64_le(b, 25);
        Some(InitCommand::PlayerConnected { client_id, position: Vec3Milli { x, y, z } })
    } else if b.len() == PLAYER_DISCONNECTED_LEN && b[0] == TAG_PLAYER_DISCONNECTED {
        let client_id = read_u64_le(b, 1);
        Some(InitCommand::PlayerDisconnected { client_id })
    } else {
        None
    }
}

// ---------------------------------------------------------------------------
// PlayerCommand
// ---------------------------------------------------------------------------

pub open spec fn spec_encode_player_command(c: PlayerCommand) -> Seq<u8> {
    match c {
        PlayerCommand::PlayerMove { direction } => seq![TAG_PLAYER_MOVE] + u32_le(direction.x)
            + u32_le(direction.y) + u32_le(direction.z),
    }
}

pub open spec fn spec_decode_player_command(b: Seq<u8>) -> Option<PlayerCommand> {
    if b.len() == PLAYER_COMMAND_LEN && b[0] == TAG_PLAYER_MOVE {
        Some(
            PlayerCommand::PlayerMove {
                direction: Vec3Bits {
                    x: u32_from_le(b.subrange(1, 5)),
                    y: u32_from_le(b.subrange(5, 9)),
                    z: u32_from_le(b.subrange(9, 13)),
                },
            },
        )
    } else {
        None
    }
}

/// Decoding inverts encoding for movement intents, raw bit patterns included.
pub proof fn lemma_player_command_round_trip(c: PlayerCommand)
    ensures
        spec_decode_player_command(spec_encode_player_command(c)) == Some(c),
{
    match c {
        PlayerCommand::PlayerMove { direction } => {
            let b = spec_encode_player_command(c);
            assert(b.len() == PLAYER_COMMAND_LEN);
            assert(b[0] == TAG_PLAYER_MOVE);
            assert(b.subrange(1, 5) =~= u32_le(direction.x));
            assert(b.subrange(5, 9) =~= u32_le(direction.y));
            assert(b.subrange(9, 13) =~= u32_le(direction.z));
            lemma_u32_le_round_trip(direction.x);
            lemma_u32_le_round_trip(direction.y);
            lemma_u32_le_round_trip(direction.z);
        },
    }
}

pub fn encode_player_command(c: &PlayerCommand) -> (r: Vec<u8>)
    ensures
        r@ == spec_encode_player_command(*c),
{
    let mut out: Vec<u8> = Vec::new();
    match c {
        PlayerCommand::PlayerMove { direction } => {
            out.push(TAG_PLAYER_MOVE);
            push_u32_le(&mut out, direction.x);
            push_u32_le(&mut out, direction.y);
            push_u32_le(&mut out, direction.z);
        },
    }
    proof {
        assert(out@ =~= spec_encode_player_command(*c));
    }
    out
}

pub fn decode_player_command(b: &Vec<u8>) -> (r: Option<PlayerCommand>)
    ensures
        r == spec_decode_player_command(b@),
{
    if b.len() != PLAYER_COMMAND_LEN || b[0] != TAG_PLAYER_MOVE {
        return None;
    }
    let x = read_u32_le(b, 1);
    let y = read_u32_le(b, 5);
    let z = read_u32_le(b, 9);
    Some(PlayerCommand::PlayerMove { direction: Vec3Bits { x, y, z } })
}

// ---------------------------------------------------------------------------
// Snapshot
// ---------------------------------------------------------------------------
//
// A snapshot is the full per-tick position table: a sequence of
// (identity, position) entries, 32 bytes each, with no header.  It travels
// over the unreliable channel; a lost snapshot is superseded by the next one.

pub open spec fn spec_encode_snapshot_entry(e: (u64, Vec3Milli)) -> Seq<u8> {
    u64_le(e.0) + i64_le(e.1.x) + i64_le(e.1.y) + i64_le(e.1.z)
}

pub open spec fn spec_decode_snapshot_entry(s: Seq<u8>) -> (u64, Vec3Milli)
    recommends
        s.len() == SNAPSHOT_ENTRY_LEN,
{
    (
        u64_from_le(s.subrange(0, 8)),
        Vec3Milli {
            x: i64_from_le(s.subrange(8, 16)),
            y: i64_from_le(s.subrange(16, 24)),
            z: i64_from_le(s.subrange(24, 32)),
        },
    )
}

pub open spec fn spec_encode_snapshot(entries: Seq<(u64, Vec3Milli)>) -> Seq<u8>
    decreases entries.len(),
{
    if entries.len() == 0 {
        Seq::empty()
    } else {
        spec_encode_snapshot(entries.drop_last()) + spec_encode_snapshot_entry(entries.last())
    }
}

pub open spec fn spec_decode_snapshot(b: Seq<u8>) -> Option<Seq<(u64, Vec3Milli)>>
    decreases b.len(),
{
    if b.len() == 0 {
        Some(Seq::empty())
    } else if b.len() >= SNAPSHOT_ENTRY_LEN {
        match spec_decode_snapshot(b.subrange(0, b.len() - SNAPSHOT_ENTRY_LEN)) {
            Some(r) => Some(
                r.push(spec_decode_snapshot_entry(b.subrange(b.len() - SNAPSHOT_ENTRY_LEN, b.len() as int))),
            ),
            None => None,
        }
    } else {
        None
    }
}

pub proof fn lemma_snapshot_entry_round_trip(e: (u64, Vec3Milli))
    ensures
        spec_decode_snapshot_entry(spec_encode_snapshot_entry(e)) == e,
{
    let s = spec_encode_snapshot_entry(e);
    assert(s.subrange(0, 8) =~= u64_le(e.0));
    assert(s.subrange(8, 16) =~= i64_le(e.1.x));
    assert(s.subrange(16, 24) =~= i64_le(e.1.y));
    assert(s.subrange(24, 32) =~= i64_le(e.1.z));
    lemma_u64_le_round_trip(e.0);
    lemma_i64_le_round_trip(e.1.x);
    lemma_i64_le_round_trip(e.1.y);
    lemma_i64_le_round_trip(e.1.z);
}

pub proof fn lemma_encode_snapshot_len(entries: Seq<(u64, Vec3Milli)>)
    ensures
        spec_encode_snapshot(entries).len() == SNAPSHOT_ENTRY_LEN * entries.len(),
    decreases entries.len(),
{
    if entries.len() > 0 {
        lemma_encode_snapshot_len(entries.drop_last());
    }
}

/// Decoding inverts encoding for whole snapshots: the position table a client
/// reads is exactly the table the server built.
pub proof fn lemma_snapshot_round_trip(entries: Seq<(u64, Vec3Milli)>)
    ensures
        spec_decode_snapshot(spec_encode_snapshot(entries)) == Some(entries),
    decreases entries.len(),
{
    let b = spec_encode_snapshot(entries);
    lemma_encode_snapshot_len(entries);
    if entries.len() == 0 {
        assert(b.len() == 0);
        assert(spec_decode_snapshot(b) == Some(Seq::<(u64, Vec3Milli)>::empty()));
        assert(entries =~= Seq::<(u64, Vec3Milli)>::empty());
    } else {
        lemma_encode_snapshot_len(entries.drop_last());
        assert(b.len() >= SNAPSHOT_ENTRY_LEN);
        assert(b.subrange(0, b.len() - SNAPSHOT_ENTRY_LEN) =~= spec_encode_snapshot(
            entries.drop_last(),
        ));
        assert(b.subrange(b.len() - SNAPSHOT_ENTRY_LEN, b.len() as int)
            =~= spec_encode_snapshot_entry(entries.last()));
        lemma_snapshot_round_trip(entries.drop_last());
        lemma_snapshot_entry_round_trip(entries.last());
        assert(entries.drop_last().push(entries.last()) =~= entries);
    }
}

pub fn encode_snapshot(entries: &Vec<(u64, Vec3Milli)>) -> (r: Vec<u8>)
    ensures
        r@ == spec_encode_snapshot(entries@),
{
    let mut out: Vec<u8> = Vec::new();
    let n = entries.len();
    for i in 0..n
        invariant
            n == entries@.len(),
            out@ == spec_encode_snapshot(entries@.take(i as int)),
    {
        let e = entries[i];
        push_u64_le(&mut out, e.0);
        push_i64_le(&mut out, e.1.x);
        push_i64_le(&mut out, e.1.y);
        push_i64_le(&mut out, e.1.z);
        proof {
            let t = entries@.take(i as int + 1);
            assert(t.drop_last() =~= entries@.take(i as int));
            assert(t.last() == entries@[i as int]);
            assert(out@ =~= spec_encode_snapshot(entries@.take(i as int))
                + spec_encode_snapshot_entry(entries@[i as int]));
        }
    }
    proof {
        assert(entries@.take(n as int) =~= entries@);
    }
    out
}

pub fn decode_snapshot(b: &Vec<u8>) -> (r: Option<Vec<(u64, Vec3Milli)>>)
    ensures
        match r {
            Some(entries) => spec_decode_snapshot(b@) == Some(entries@),
            None => spec_decode_snapshot(b@) is None,
        },
{
    let n = b.len();
    if n % SNAPSHOT_ENTRY_LEN != 0 {
        proof {
            lemma_decode_snapshot_ragged(b@);
        }
        return None;
    }
    let count = n / SNAPSHOT_ENTRY_LEN;
    let mut out: Vec<(u64, Vec3Milli)> = Vec::new();
    for i in 0..count
        invariant
            n == b@.len(),
            n == count * SNAPSHOT_ENTRY_LEN,
            i <= count,
            spec_decode_snapshot(b@.subrange(0, i as int * SNAPSHOT_ENTRY_LEN)) == Some(out@),
    {
        let off = i * SNAPSHOT_ENTRY_LEN;
        proof {
            assert(off + SNAPSHOT_ENTRY_LEN <= n) by (nonlinear_arith)
                requires
                    off == i * SNAPSHOT_ENTRY_LEN,
                    n == count * SNAPSHOT_ENTRY_LEN,
                    i < count,
            ;
        }
        let id = read_u64_le(b, off);
        let x = read_i64_le(b, off + 8);
        let y = read_i64_le(b, off + 16);
        let z = read_i64_le(b, off + 24);
        out.push((id, Vec3Milli { x, y, z }));
        proof {
            let lo = off as int;
            let hi = off as int + SNAPSHOT_ENTRY_LEN;
            let chunk = b@.subrange(lo, hi);
            assert(chunk.subrange(0, 8) =~= b@.subrange(lo, lo + 8));
            assert(chunk.subrange(8, 16) =~= b@.subrange(lo + 8, lo + 16));
            assert(chunk.subrange(16, 24) =~= b@.subrange(lo + 16, lo + 24));
            assert(chunk.subrange(24, 32) =~= b@.subrange(lo + 24, lo + 32));
            assert(spec_decode_snapshot_entry(chunk) == (id, Vec3Milli { x, y, z }));
            let big = b@.subrange(0, hi);
            assert(big.len() == hi);
            assert(hi >= SNAPSHOT_ENTRY_LEN);
            assert(big.subrange(0, hi - SNAPSHOT_ENTRY_LEN) =~= b@.subrange(0, lo));
            assert(big.subrange(hi - SNAPSHOT_ENTRY_LEN, hi) =~= chunk);
            assert((i as int + 1) * SNAPSHOT_ENTRY_LEN == hi) by (nonlinear_arith)
                requires
                    off == i * SNAPSHOT_ENTRY_LEN,
                    hi == off as int + SNAPSHOT_ENTRY_LEN,
            ;
        }
    }
    proof {
        assert(b@.subrange(0, count as int * SNAPSHOT_ENTRY_LEN) =~= b@);
    }
    Some(out)
}

/// A payload whose length is not a whole number of entries never decodes.
proof fn lemma_decode_snapshot_ragged(b: Seq<u8>)
    requires
        b.len() as int % (SNAPSHOT_ENTRY_LEN as int) != 0,
    ensures
        spec_decode_snapshot(b) is None,
    decreases b.len(),
{
    if b.len() >= SNAPSHOT_ENTRY_LEN {
        let prefix = b.subrange(0, b.len() - SNAPSHOT_ENTRY_LEN);
        assert(prefix.len() as int % (SNAPSHOT_ENTRY_LEN as int) != 0);
        lemma_decode_snapshot_ragged(prefix);
    }
}

} // verus!
