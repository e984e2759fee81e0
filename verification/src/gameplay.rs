//! The gameplay payloads that shards, the spatial service and clients publish:
//! one tag byte, then little-endian fields. Coordinates travel as the bit
//! patterns of `f32` values, which this module carries without computing on them.
use vstd::prelude::*;
use crate::wire::{self, push_u32_le, push_i32_le, read_u32, read_i32};

verus! {

pub const TAG_CLIENT_INPUT: u8 = 0x05;
pub const TAG_ENTITY_POSITION: u8 = 0x10;
pub const TAG_PLAYER_STATS: u8 = 0x11;
pub const TAG_HANDOFF_REQUEST: u8 = 0x20;
pub const TAG_HANDOFF_ACCEPT: u8 = 0x21;
pub const TAG_HANDOFF_REJECT: u8 = 0x22;
pub const TAG_GHOST_UPDATE: u8 = 0x23;
pub const TAG_HANDOFF_COMPLETE: u8 = 0x24;
pub const TAG_CROSSING_ALERT: u8 = 0x30;
pub const TAG_ENEMY_UPDATE: u8 = 0x40;
pub const TAG_ENEMY_DESPAWN: u8 = 0x41;
pub const TAG_PROJECTILE_UPDATE: u8 = 0x50;
pub const TAG_PROJECTILE_DESPAWN: u8 = 0x51;

/// The number of bytes of an entity's state blob.
pub const STATE_BYTES: usize = 64;

/// A 2D vector as the bit patterns of its two `f32` coordinates.
#[derive(Clone, Copy, Debug, PartialEq, Eq, Structural)]
pub struct Vec2Bits {
    pub x: u32,
    pub y: u32,
}

/// The eight bytes of a vector: x, then y.
pub open spec fn vec_bytes(v: Vec2Bits) -> Seq<u8> {
    wire::le32(v.x) + wire::le32(v.y)
}

/// The vector whose bytes lie at `offset` in `s`.
pub open spec fn vec_at(s: Seq<u8>, offset: int) -> Vec2Bits {
    Vec2Bits {
        x: wire::from_le32(s.subrange(offset, offset + 4)),
        y: wire::from_le32(s.subrange(offset + 4, offset + 8)),
    }
}

/// The `u32` whose bytes lie at `offset` in `s`.
pub open spec fn u32_at(s: Seq<u8>, offset: int) -> u32 {
    wire::from_le32(s.subrange(offset, offset + 4))
}

pub open spec fn position_bytes(tag: u8, id: u32, pos: Vec2Bits) -> Seq<u8> {
    seq![tag] + wire::le32(id) + vec_bytes(pos)
}

pub open spec fn id_bytes(tag: u8, id: u32) -> Seq<u8> {
    seq![tag] + wire::le32(id)
}

pub open spec fn stats_bytes(id: u32, hp: i32, score: u32, wave: u32) -> Seq<u8> {
    seq![TAG_PLAYER_STATS] + wire::le32(id) + wire::le_i32(hp) + wire::le32(score) + wire::le32(wave)
}

pub open spec fn ghost_bytes(id: u32, pos: Vec2Bits, vel: Vec2Bits) -> Seq<u8> {
    seq![TAG_GHOST_UPDATE] + wire::le32(id) + vec_bytes(pos) + vec_bytes(vel)
}

pub open spec fn handoff_request_bytes(id: u32, pos: Vec2Bits, vel: Vec2Bits, blob: Seq<u8>) -> Seq<u8> {
    seq![TAG_HANDOFF_REQUEST] + wire::le32(id) + vec_bytes(pos) + vec_bytes(vel) + blob
}

pub open spec fn crossing_alert_bytes(id: u32, owning: u32, target: u32) -> Seq<u8> {
    seq![TAG_CROSSING_ALERT] + wire::le32(id) + wire::le32(owning) + wire::le32(target)
}

/// A client's input: its id, then 16 input bytes, the two axes first and the
/// rest at their neutral value 127.
pub open spec fn client_input_bytes(id: u32, x_axis: u8, y_axis: u8) -> Seq<u8> {
    seq![TAG_CLIENT_INPUT] + wire::le32(id) + seq![x_axis, y_axis] + Seq::new(14, |i: int| 127u8)
}

fn push_vec(out: &mut Vec<u8>, v: Vec2Bits)
    ensures
        final(out)@ == old(out)@ + vec_bytes(v),
{
    push_u32_le(out, v.x);
    push_u32_le(out, v.y);
    assert(out@ =~= old(out)@ + vec_bytes(v));
}

/// The position of a player (tag 0x10) or an enemy (tag 0x40).
fn encode_position(tag: u8, id: u32, pos: Vec2Bits) -> (r: Vec<u8>)
    ensures
        r@ == position_bytes(tag, id, pos),
{
    let mut payload: Vec<u8> = Vec::new();
    payload.push(tag);
    push_u32_le(&mut payload, id);
    push_vec(&mut payload, pos);
    assert(payload@ =~= position_bytes(tag, id, pos));
    payload
}

/// What a shard publishes of a player's position.
pub fn encode_entity_position(client_id: u32, pos: Vec2Bits) -> (r: Vec<u8>)
    ensures
        r@ == position_bytes(TAG_ENTITY_POSITION, client_id, pos),
{
    encode_position(TAG_ENTITY_POSITION, client_id, pos)
}

/// What a shard publishes of an enemy's position.
pub fn encode_enemy_update(enemy_id: u32, pos: Vec2Bits) -> (r: Vec<u8>)
    ensures
        r@ == position_bytes(TAG_ENEMY_UPDATE, enemy_id, pos),
{
    encode_position(TAG_ENEMY_UPDATE, enemy_id, pos)
}

/// What a shard publishes when an enemy is gone.
pub fn encode_enemy_despawn(enemy_id: u32) -> (r: Vec<u8>)
    ensures
        r@ == id_bytes(TAG_ENEMY_DESPAWN, enemy_id),
{
    encode_handoff_ack(TAG_ENEMY_DESPAWN, enemy_id)
}

/// What a shard publishes of a player's health, score and wave.
pub fn encode_player_stats(client_id: u32, hp: i32, score: u32, wave: u32) -> (r: Vec<u8>)
    ensures
        r@ == stats_bytes(client_id, hp, score, wave),
{
    let mut payload: Vec<u8> = Vec::new();
    payload.push(TAG_PLAYER_STATS);
    push_u32_le(&mut payload, client_id);
    push_i32_le(&mut payload, hp);
    push_u32_le(&mut payload, score);
    push_u32_le(&mut payload, wave);
    assert(payload@ =~= stats_bytes(client_id, hp, score, wave));
    payload
}

/// A tag followed by an entity id: a handoff accept, reject or completion.
pub fn encode_handoff_ack(tag: u8, entity_id: u32) -> (r: Vec<u8>)
    ensures
        r@ == id_bytes(tag, entity_id),
{
    let mut payload: Vec<u8> = Vec::new();
    payload.push(tag);
    push_u32_le(&mut payload, entity_id);
    assert(payload@ =~= id_bytes(tag, entity_id));
    payload
}

pub fn encode_handoff_complete(entity_id: u32) -> (r: Vec<u8>)
    ensures
        r@ == id_bytes(TAG_HANDOFF_COMPLETE, entity_id),
{
    encode_handoff_ack(TAG_HANDOFF_COMPLETE, entity_id)
}

/// The position and velocity of an entity that another shard owns for now.
pub fn encode_ghost_update(entity_id: u32, pos: Vec2Bits, vel: Vec2Bits) -> (r: Vec<u8>)
    ensures
        r@ == ghost_bytes(entity_id, pos, vel),
{
    let mut payload: Vec<u8> = Vec::new();
    payload.push(TAG_GHOST_UPDATE);
    push_u32_le(&mut payload, entity_id);
    push_vec(&mut payload, pos);
    push_vec(&mut payload, vel);
    assert(payload@ =~= ghost_bytes(entity_id, pos, vel));
    payload
}

/// Asks the neighbouring shard to take over an entity.
pub fn encode_handoff_request(entity_id: u32, pos: Vec2Bits, vel: Vec2Bits, state_blob: &[u8; 64]) -> (r:
    Vec<u8>)
    ensures
        r@ == handoff_request_bytes(entity_id, pos, vel, state_blob@),
{
    let mut payload: Vec<u8> = Vec::new();
    payload.push(TAG_HANDOFF_REQUEST);
    push_u32_le(&mut payload, entity_id);
    push_vec(&mut payload, pos);
    push_vec(&mut payload, vel);
    let ghost head = payload@;
    let mut i: usize = 0;
    while i < 64
        invariant
            i <= 64,
            payload@ == head + state_blob@.take(i as int),
        decreases 64 - i,
    {
        payload.push(state_blob[i]);
        i += 1;
        assert(payload@ =~= head + state_blob@.take(i as int));
    }
    assert(state_blob@.take(64) =~= state_blob@);
    assert(payload@ =~= handoff_request_bytes(entity_id, pos, vel, state_blob@));
    payload
}

/// Tells the shard that owns an entity that it is close to another shard.
pub fn encode_crossing_alert(entity_id: u32, owning_shard: u32, target_shard: u32) -> (r: Vec<u8>)
    ensures
        r@ == crossing_alert_bytes(entity_id, owning_shard, target_shard),
{
    let mut payload: Vec<u8> = Vec::new();
    payload.push(TAG_CROSSING_ALERT);
    push_u32_le(&mut payload, entity_id);
    push_u32_le(&mut payload, owning_shard);
    push_u32_le(&mut payload, target_shard);
    assert(payload@ =~= crossing_alert_bytes(entity_id, owning_shard, target_shard));
    payload
}

/// What a client sends of its input, given the bytes of its two axes.
pub fn encode_client_input(client_id: u32, x_axis: u8, y_axis: u8) -> (r: Vec<u8>)
    ensures
        r@ == client_input_bytes(client_id, x_axis, y_axis),
{
    let mut payload: Vec<u8> = Vec::new();
    payload.push(TAG_CLIENT_INPUT);
    push_u32_le(&mut payload, client_id);
    let mut input = [127u8; 16];
    input[0] = x_axis;
    input[1] = y_axis;
    let ghost head = payload@;
    let mut i: usize = 0;
    while i < 16
        invariant
            i <= 16,
            input@ == seq![x_axis, y_axis] + Seq::new(14, |j: int| 127u8),
            payload@ == head + input@.take(i as int),
        decreases 16 - i,
    {
        payload.push(input[i]);
        i += 1;
        assert(payload@ =~= head + input@.take(i as int));
    }
    assert(input@.take(16) =~= input@);
    assert(payload@ =~= client_input_bytes(client_id, x_axis, y_axis));
    payload
}

/// The vector whose bytes lie at `offset` in `input`, if they all lie inside it.
pub fn read_vec(input: &[u8], offset: usize) -> (r: Option<Vec2Bits>)
    requires
        offset + 8 <= usize::MAX,
    ensures
        r == (if offset + 8 <= input@.len() {
            Some(vec_at(input@, offset as int))
        } else {
            None
        }),
{
    match (read_u32(input, offset), read_u32(input, offset + 4)) {
        (Some(x), Some(y)) => Some(Vec2Bits { x, y }),
        _ => None,
    }
}

/// A handoff request's fields, if the payload is one: tag 0x20 and at least 85 bytes.
pub open spec fn spec_decode_handoff_request(p: Seq<u8>) -> Option<(u32, Vec2Bits, Vec2Bits, Seq<u8>)> {
    if p.len() < 85 || p[0] != TAG_HANDOFF_REQUEST {
        None
    } else {
        Some((u32_at(p, 1), vec_at(p, 5), vec_at(p, 13), p.subrange(21, 85)))
    }
}

pub fn decode_handoff_request(payload: &[u8]) -> (r: Option<(u32, Vec2Bits, Vec2Bits, [u8; 64])>)
    ensures
        r is None <==> spec_decode_handoff_request(payload@) is None,
        r matches Some((id, pos, vel, blob)) ==> spec_decode_handoff_request(payload@) == Some(
            (id, pos, vel, blob@),
        ),
{
    if payload.len() < 85 || payload[0] != TAG_HANDOFF_REQUEST {
        return None;
    }
    let entity_id = match read_u32(payload, 1) {
        Some(v) => v,
        None => {
            return None;
        },
    };
    let pos = match read_vec(payload, 5) {
        Some(v) => v,
        None => {
            return None;
        },
    };
    let vel = match read_vec(payload, 13) {
        Some(v) => v,
        None => {
            return None;
        },
    };
    let mut state_blob = [0u8; 64];
    let mut i: usize = 0;
    while i < 64
        invariant
            i <= 64,
            payload@.len() >= 85,
            forall|j: int| 0 <= j < i ==> state_blob@[j] == payload@[21 + j],
        decreases 64 - i,
    {
        state_blob[i] = payload[21 + i];
        i += 1;
    }
    assert(state_blob@ =~= payload@.subrange(21, 85));
    Some((entity_id, pos, vel, state_blob))
}

/// A gameplay payload as a shard reads it.
#[derive(Clone, Copy, Debug, PartialEq, Eq)]
pub enum ShardEvent {
    /// A client's input: its id, and its 16 input bytes when the payload holds them.
    ClientInput { client_id: u32, input: Option<[u8; 16]> },
    HandoffRequest { entity_id: u32, position: Vec2Bits, velocity: Vec2Bits, state_blob: [u8; 64] },
    HandoffAccept(u32),
    HandoffReject(u32),
    GhostUpdate { entity_id: u32, position: Vec2Bits, velocity: Vec2Bits },
    HandoffComplete(u32),
    CrossingAlert { entity_id: u32, owning_shard: u32, target_shard: u32 },
    /// Nothing for the shard to do: an empty or short payload, or traffic of
    /// neighbours (positions, stats, enemies).
    Ignored,
    /// A tag that the shard does not know.
    Unknown(u8),
}

/// `e` is a client's input with this id and, when given, these input bytes.
pub open spec fn is_client_input(e: ShardEvent, id: u32, bytes: Option<Seq<u8>>) -> bool {
    match e {
        ShardEvent::ClientInput { client_id, input } => client_id == id && match (input, bytes) {
            (Some(a), Some(b)) => a@ == b,
            (None, None) => true,
            _ => false,
        },
        _ => false,
    }
}

/// `e` is how a shard reads the payload `p`.
pub open spec fn shard_reads(p: Seq<u8>, e: ShardEvent) -> bool {
    if p.len() == 0 {
        e is Ignored
    } else {
        let tag = p[0];
        if tag == TAG_CLIENT_INPUT {
            if p.len() >= 5 {
                is_client_input(
                    e,
                    u32_at(p, 1),
                    if p.len() >= 21 {
                        Some(p.subrange(5, 21))
                    } else {
                        None
                    },
                )
            } else {
                e is Ignored
            }
        } else if tag == TAG_HANDOFF_REQUEST {
            match spec_decode_handoff_request(p) {
                Some((id, pos, vel, blob)) => e matches ShardEvent::HandoffRequest {
                    entity_id,
                    position,
                    velocity,
                    state_blob,
                } && entity_id == id && position == pos && velocity == vel && state_blob@ == blob,
                None => e is Ignored,
            }
        } else if tag == TAG_HANDOFF_ACCEPT || tag == TAG_HANDOFF_REJECT || tag == TAG_HANDOFF_COMPLETE {
            if p.len() >= 5 {
                if tag == TAG_HANDOFF_ACCEPT {
                    e == ShardEvent::HandoffAccept(u32_at(p, 1))
                } else if tag == TAG_HANDOFF_REJECT {
                    e == ShardEvent::HandoffReject(u32_at(p, 1))
                } else {
                    e == ShardEvent::HandoffComplete(u32_at(p, 1))
                }
            } else {
                e is Ignored
            }
        } else if tag == TAG_GHOST_UPDATE {
            if p.len() >= 21 {
                e == ShardEvent::GhostUpdate {
                    entity_id: u32_at(p, 1),
                    position: vec_at(p, 5),
                    velocity: vec_at(p, 13),
                }
            } else {
                e is Ignored
            }
        } else if tag == TAG_CROSSING_ALERT {
            if p.len() >= 13 {
                e == ShardEvent::CrossingAlert {
                    entity_id: u32_at(p, 1),
                    owning_shard: u32_at(p, 5),
                    target_shard: u32_at(p, 9),
                }
            } else {
                e is Ignored
            }
        } else if tag == TAG_ENTITY_POSITION || tag == TAG_PLAYER_STATS || tag == TAG_ENEMY_UPDATE || tag
            == TAG_ENEMY_DESPAWN {
            e is Ignored
        } else {
            e == ShardEvent::Unknown(tag)
        }
    }
}

/// Reads a gameplay payload the way a shard does.
pub fn decode_shard_event(data: &[u8]) -> (r: ShardEvent)
    ensures
        shard_reads(data@, r),
{
    if data.len() == 0 {
        return ShardEvent::Ignored;
    }
    let tag = data[0];
    if tag == TAG_CLIENT_INPUT {
        match read_u32(data, 1) {
            Some(client_id) => {
                if data.len() >= 21 {
                    let mut input = [0u8; 16];
                    let mut i: usize = 0;
                    while i < 16
                        invariant
                            i <= 16,
                            data@.len() >= 21,
                            forall|j: int| 0 <= j < i ==> input@[j] == data@[5 + j],
                        decreases 16 - i,
                    {
                        input[i] = data[5 + i];
                        i += 1;
                    }
                    assert(input@ =~= data@.subrange(5, 21));
                    ShardEvent::ClientInput { client_id, input: Some(input) }
                } else {
                    ShardEvent::ClientInput { client_id, input: None }
                }
            },
            None => ShardEvent::Ignored,
        }
    } else if tag == TAG_HANDOFF_REQUEST {
        match decode_handoff_request(data) {
            Some((entity_id, position, velocity, state_blob)) => ShardEvent::HandoffRequest {
                entity_id,
                position,
                velocity,
                state_blob,
            },
            None => ShardEvent::Ignored,
        }
    } else if tag == TAG_HANDOFF_ACCEPT || tag == TAG_HANDOFF_REJECT || tag == TAG_HANDOFF_COMPLETE {
        match read_u32(data, 1) {
            Some(id) => {
                if tag == TAG_HANDOFF_ACCEPT {
                    ShardEvent::HandoffAccept(id)
                } else if tag == TAG_HANDOFF_REJECT {
                    ShardEvent::HandoffReject(id)
                } else {
                    ShardEvent::HandoffComplete(id)
                }
            },
            None => ShardEvent::Ignored,
        }
    } else if tag == TAG_GHOST_UPDATE {
        if data.len() >= 21 {
            match (read_u32(data, 1), read_vec(data, 5), read_vec(data, 13)) {
                (Some(entity_id), Some(position), Some(velocity)) => ShardEvent::GhostUpdate {
                    entity_id,
                    position,
                    velocity,
                },
                _ => ShardEvent::Ignored,
            }
        } else {
            ShardEvent::Ignored
        }
    } else if tag == TAG_CROSSING_ALERT {
        match (read_u32(data, 1), read_u32(data, 5), read_u32(data, 9)) {
            (Some(entity_id), Some(owning_shard), Some(target_shard)) => ShardEvent::CrossingAlert {
                entity_id,
                owning_shard,
                target_shard,
            },
            _ => ShardEvent::Ignored,
        }
    } else if tag == TAG_ENTITY_POSITION || tag == TAG_PLAYER_STATS || tag == TAG_ENEMY_UPDATE || tag
        == TAG_ENEMY_DESPAWN {
        ShardEvent::Ignored
    } else {
        ShardEvent::Unknown(tag)
    }
}

/// A gameplay payload as a client reads it.
#[derive(Clone, Copy, Debug, PartialEq, Eq, Structural)]
pub enum ClientUpdate {
    PlayerMoved { id: u32, position: Vec2Bits },
    EnemyMoved { id: u32, position: Vec2Bits },
    EnemyGone(u32),
    ProjectileMoved { id: u32, position: Vec2Bits },
    ProjectileGone(u32),
    Stats { id: u32, hp: i32, score: u32, wave: u32 },
    /// Nothing for the client: an empty or short payload or an unknown tag.
    Ignored,
}

/// How a client reads the payload `p`.
pub open spec fn client_update_of(p: Seq<u8>) -> ClientUpdate {
    if p.len() == 0 {
        ClientUpdate::Ignored
    } else {
        let tag = p[0];
        if tag == TAG_ENTITY_POSITION || tag == TAG_ENEMY_UPDATE || tag == TAG_PROJECTILE_UPDATE {
            if p.len() >= 13 {
                let id = u32_at(p, 1);
                let position = vec_at(p, 5);
                if tag == TAG_ENTITY_POSITION {
                    ClientUpdate::PlayerMoved { id, position }
                } else if tag == TAG_ENEMY_UPDATE {
                    ClientUpdate::EnemyMoved { id, position }
                } else {
                    ClientUpdate::ProjectileMoved { id, position }
                }
            } else {
                ClientUpdate::Ignored
            }
        } else if tag == TAG_ENEMY_DESPAWN || tag == TAG_PROJECTILE_DESPAWN {
            if p.len() >= 5 {
                if tag == TAG_ENEMY_DESPAWN {
                    ClientUpdate::EnemyGone(u32_at(p, 1))
                } else {
                    ClientUpdate::ProjectileGone(u32_at(p, 1))
                }
            } else {
                ClientUpdate::Ignored
            }
        } else if tag == TAG_PLAYER_STATS {
            if p.len() >= 17 {
                ClientUpdate::Stats {
                    id: u32_at(p, 1),
                    hp: wire::from_le_i32(p.subrange(5, 9)),
                    score: u32_at(p, 9),
                    wave: u32_at(p, 13),
                }
            } else {
                ClientUpdate::Ignored
            }
        } else {
            ClientUpdate::Ignored
        }
    }
}

/// Reads a gameplay payload the way a client does.
pub fn decode_client_update(data: &[u8]) -> (r: ClientUpdate)
    ensures
        r == client_update_of(data@),
{
    if data.len() == 0 {
        return ClientUpdate::Ignored;
    }
    let tag = data[0];
    if tag == TAG_ENTITY_POSITION || tag == TAG_ENEMY_UPDATE || tag == TAG_PROJECTILE_UPDATE {
        match (read_u32(data, 1), read_vec(data, 5)) {
            (Some(id), Some(position)) => {
                if tag == TAG_ENTITY_POSITION {
                    ClientUpdate::PlayerMoved { id, position }
                } else if tag == TAG_ENEMY_UPDATE {
                    ClientUpdate::EnemyMoved { id, position }
                } else {
                    ClientUpdate::ProjectileMoved { id, position }
                }
            },
            _ => ClientUpdate::Ignored,
        }
    } else if tag == TAG_ENEMY_DESPAWN || tag == TAG_PROJECTILE_DESPAWN {
        match read_u32(data, 1) {
            Some(id) => {
                if tag == TAG_ENEMY_DESPAWN {
                    ClientUpdate::EnemyGone(id)
                } else {
                    ClientUpdate::ProjectileGone(id)
                }
            },
            None => ClientUpdate::Ignored,
        }
    } else if tag == TAG_PLAYER_STATS {
        match (read_u32(data, 1), read_i32(data, 5), read_u32(data, 9), read_u32(data, 13)) {
            (Some(id), Some(hp), Some(score), Some(wave)) => ClientUpdate::Stats { id, hp, score, wave },
            _ => ClientUpdate::Ignored,
        }
    } else {
        ClientUpdate::Ignored
    }
}

/// The entity and position of a position payload as the spatial service reads
/// it: the id at byte 1 and the coordinates after it, whatever the tag.
pub open spec fn position_update_of(p: Seq<u8>) -> Option<(u32, Vec2Bits)> {
    if p.len() >= 13 {
        Some((u32_at(p, 1), vec_at(p, 5)))
    } else {
        None
    }
}

pub fn decode_position_update(data: &[u8]) -> (r: Option<(u32, Vec2Bits)>)
    ensures
        r == position_update_of(data@),
{
    match (read_u32(data, 1), read_vec(data, 5)) {
        (Some(id), Some(position)) => Some((id, position)),
        _ => None,
    }
}

/// A handoff request reads back as the entity, position, velocity and state it carried.
pub proof fn law_handoff_request_roundtrip(id: u32, pos: Vec2Bits, vel: Vec2Bits, blob: Seq<u8>)
    requires
        blob.len() == 64,
    ensures
        spec_decode_handoff_request(handoff_request_bytes(id, pos, vel, blob)) == Some((id, pos, vel, blob)),
{
    wire::lemma_le32_roundtrip(id);
    wire::lemma_le32_roundtrip(pos.x);
    wire::lemma_le32_roundtrip(pos.y);
    wire::lemma_le32_roundtrip(vel.x);
    wire::lemma_le32_roundtrip(vel.y);
    let h = handoff_request_bytes(id, pos, vel, blob);
    assert(h.subrange(1, 5) =~= wire::le32(id));
    assert(h.subrange(5, 9) =~= wire::le32(pos.x));
    assert(h.subrange(9, 13) =~= wire::le32(pos.y));
    assert(h.subrange(13, 17) =~= wire::le32(vel.x));
    assert(h.subrange(17, 21) =~= wire::le32(vel.y));
    assert(h.subrange(21, 85) =~= blob);
}

/// A handoff accept, reject or completion reads back with its entity.
pub proof fn law_handoff_acks_roundtrip(id: u32)
    ensures
        shard_reads(id_bytes(TAG_HANDOFF_ACCEPT, id), ShardEvent::HandoffAccept(id)),
        shard_reads(id_bytes(TAG_HANDOFF_REJECT, id), ShardEvent::HandoffReject(id)),
        shard_reads(id_bytes(TAG_HANDOFF_COMPLETE, id), ShardEvent::HandoffComplete(id)),
{
    wire::lemma_le32_roundtrip(id);
    assert(id_bytes(TAG_HANDOFF_ACCEPT, id).subrange(1, 5) =~= wire::le32(id));
    assert(id_bytes(TAG_HANDOFF_REJECT, id).subrange(1, 5) =~= wire::le32(id));
    assert(id_bytes(TAG_HANDOFF_COMPLETE, id).subrange(1, 5) =~= wire::le32(id));
}

/// A ghost update reads back with its entity, position and velocity.
pub proof fn law_ghost_update_roundtrip(id: u32, pos: Vec2Bits, vel: Vec2Bits)
    ensures
        shard_reads(
            ghost_bytes(id, pos, vel),
            ShardEvent::GhostUpdate { entity_id: id, position: pos, velocity: vel },
        ),
{
    wire::lemma_le32_roundtrip(id);
    wire::lemma_le32_roundtrip(pos.x);
    wire::lemma_le32_roundtrip(pos.y);
    wire::lemma_le32_roundtrip(vel.x);
    wire::lemma_le32_roundtrip(vel.y);
    let g = ghost_bytes(id, pos, vel);
    assert(g.subrange(1, 5) =~= wire::le32(id));
    assert(g.subrange(5, 9) =~= wire::le32(pos.x));
    assert(g.subrange(9, 13) =~= wire::le32(pos.y));
    assert(g.subrange(13, 17) =~= wire::le32(vel.x));
    assert(g.subrange(17, 21) =~= wire::le32(vel.y));
}

/// A crossing alert reads back with its entity and shards.
pub proof fn law_crossing_alert_roundtrip(id: u32, owning: u32, target: u32)
    ensures
        shard_reads(
            crossing_alert_bytes(id, owning, target),
            ShardEvent::CrossingAlert { entity_id: id, owning_shard: owning, target_shard: target },
        ),
{
    wire::lemma_le32_roundtrip(id);
    wire::lemma_le32_roundtrip(owning);
    wire::lemma_le32_roundtrip(target);
    let x = crossing_alert_bytes(id, owning, target);
    assert(x.len() == 13 && x[0] == TAG_CROSSING_ALERT);
    assert(x.subrange(1, 5) =~= wire::le32(id));
    assert(x.subrange(5, 9) =~= wire::le32(owning));
    assert(x.subrange(9, 13) =~= wire::le32(target));
}

/// A client's input reads back with its id and its 16 input bytes.
pub proof fn law_client_input_roundtrip(id: u32, x_axis: u8, y_axis: u8, e: ShardEvent)
    requires
        shard_reads(client_input_bytes(id, x_axis, y_axis), e),
    ensures
        is_client_input(e, id, Some(seq![x_axis, y_axis] + Seq::new(14, |i: int| 127u8))),
{
    wire::lemma_le32_roundtrip(id);
    let ci = client_input_bytes(id, x_axis, y_axis);
    assert(ci.subrange(1, 5) =~= wire::le32(id));
    assert(ci.subrange(5, 21) =~= seq![x_axis, y_axis] + Seq::new(14, |i: int| 127u8));
}

/// A client reads what a shard publishes as it was written.
pub proof fn law_client_payloads_roundtrip(id: u32, pos: Vec2Bits, hp: i32, score: u32, wave: u32)
    ensures
        client_update_of(position_bytes(TAG_ENTITY_POSITION, id, pos)) == (ClientUpdate::PlayerMoved {
            id,
            position: pos,
        }),
        client_update_of(position_bytes(TAG_ENEMY_UPDATE, id, pos)) == (ClientUpdate::EnemyMoved {
            id,
            position: pos,
        }),
        client_update_of(id_bytes(TAG_ENEMY_DESPAWN, id)) == ClientUpdate::EnemyGone(id),
        client_update_of(stats_bytes(id, hp, score, wave)) == (ClientUpdate::Stats { id, hp, score, wave }),
        position_update_of(position_bytes(TAG_ENTITY_POSITION, id, pos)) == Some((id, pos)),
{
    wire::lemma_le32_roundtrip(id);
    wire::lemma_le32_roundtrip(pos.x);
    wire::lemma_le32_roundtrip(pos.y);
    wire::lemma_le_i32_roundtrip(hp);
    wire::lemma_le32_roundtrip(score);
    wire::lemma_le32_roundtrip(wave);
    let p = position_bytes(TAG_ENTITY_POSITION, id, pos);
    assert(p.subrange(1, 5) =~= wire::le32(id));
    assert(p.subrange(5, 9) =~= wire::le32(pos.x));
    assert(p.subrange(9, 13) =~= wire::le32(pos.y));
    let e = position_bytes(TAG_ENEMY_UPDATE, id, pos);
    assert(e.subrange(1, 5) =~= wire::le32(id));
    assert(e.subrange(5, 9) =~= wire::le32(pos.x));
    assert(e.subrange(9, 13) =~= wire::le32(pos.y));
    let d = id_bytes(TAG_ENEMY_DESPAWN, id);
    assert(d.subrange(1, 5) =~= wire::le32(id));
    let s = stats_bytes(id, hp, score, wave);
    assert(s.subrange(1, 5) =~= wire::le32(id));
    assert(s.subrange(5, 9) =~= wire::le_i32(hp));
    assert(s.subrange(9, 13) =~= wire::le32(score));
    assert(s.subrange(13, 17) =~= wire::le32(wave));
}

} // verus!
