//! The rules of a shard: who has authority over a player, how a player is
//! handed to a neighbouring shard, waves, enemy spawning and combat.
//!
//! Positions and velocities are carried as the bit patterns of `f32` values;
//! moving and measuring is left to the caller, which hands the rules the facts
//! that they decide on.
use vstd::prelude::*;
use std::collections::HashMap;
use crate::gameplay::{self, Vec2Bits, encode_entity_position, encode_ghost_update, encode_handoff_ack,
    encode_handoff_complete, encode_handoff_request, encode_enemy_despawn, encode_player_stats};
use crate::wire::{self, u32_le_bytes};

verus! {

broadcast use vstd::std_specs::hash::group_hash_axioms;

pub const PLAYER_MAX_HP: i32 = 100;
pub const ENEMY_BASE_HP: i32 = 3;
pub const ENEMY_CONTACT_DAMAGE: i32 = 6;
pub const PLAYER_DAMAGE_COOLDOWN: u8 = 12;
pub const ATTACK_COOLDOWN: u8 = 6;
pub const ATTACK_DAMAGE: i32 = 1;
pub const SPAWN_INTERVAL_TICKS: u32 = 20;
pub const SPAWN_BATCH: usize = 8;
pub const MAX_ENEMIES: usize = 200;
pub const WAVE_INTERVAL_TICKS: u32 = 300;
/// A pending handoff that lasts longer than this many ticks is given up.
pub const HANDOFF_TIMEOUT_TICKS: u8 = 30;

/// Who decides where a player is.
#[derive(Clone, Copy, Debug, PartialEq, Eq, Structural)]
pub enum AuthorityState {
    /// This shard simulates the player.
    Owned,
    /// This shard simulates the player and has asked a neighbour to take it.
    PendingHandoff,
    /// A neighbour simulates the player; this shard mirrors it.
    Ghosted,
}

pub open spec fn authority_code(a: AuthorityState) -> u8 {
    match a {
        AuthorityState::Owned => 0,
        AuthorityState::PendingHandoff => 1,
        AuthorityState::Ghosted => 2,
    }
}

/// A player as a shard holds it.
#[derive(Clone, Copy)]
pub struct PlayerState {
    pub position: Vec2Bits,
    pub velocity: Vec2Bits,
    pub authority: AuthorityState,
    pub handoff_target: Option<u32>,
    pub handoff_ticks: u8,
    pub state_blob: [u8; 64],
    pub bounce: bool,
    pub hp: i32,
    pub score: u32,
    pub attack_cd: u8,
    pub damage_cd: u8,
}

/// A player, abstractly.
pub struct PlayerModel {
    pub position: Vec2Bits,
    pub velocity: Vec2Bits,
    pub authority: AuthorityState,
    pub handoff_target: Option<u32>,
    pub handoff_ticks: u8,
    pub state_blob: Seq<u8>,
    pub bounce: bool,
    pub hp: i32,
    pub score: u32,
    pub attack_cd: u8,
    pub damage_cd: u8,
}

impl View for PlayerState {
    type V = PlayerModel;

    open spec fn view(&self) -> PlayerModel {
        PlayerModel {
            position: self.position,
            velocity: self.velocity,
            authority: self.authority,
            handoff_target: self.handoff_target,
            handoff_ticks: self.handoff_ticks,
            state_blob: self.state_blob@,
            bounce: self.bounce,
            hp: self.hp,
            score: self.score,
            attack_cd: self.attack_cd,
            damage_cd: self.damage_cd,
        }
    }
}

/// The 64 bytes that summarise a player for its neighbours: the authority code,
/// the handoff target (zeros when none), the position, the velocity, then zeros.
pub open spec fn state_blob_bytes(
    authority: AuthorityState,
    target: Option<u32>,
    position: Vec2Bits,
    velocity: Vec2Bits,
) -> Seq<u8> {
    seq![authority_code(authority)] + (match target {
        Some(t) => wire::le32(t),
        None => seq![0u8, 0u8, 0u8, 0u8],
    }) + gameplay::vec_bytes(position) + gameplay::vec_bytes(velocity) + Seq::new(43, |i: int| 0u8)
}

/// The state blob of a player, as its fields are now.
pub open spec fn blob_of(p: PlayerModel) -> Seq<u8> {
    state_blob_bytes(p.authority, p.handoff_target, p.position, p.velocity)
}

/// The player with its state blob brought up to date.
pub open spec fn with_fresh_blob(p: PlayerModel) -> PlayerModel {
    PlayerModel { state_blob: blob_of(p), ..p }
}

/// A new player that the shard owns, at full health, with a zero state blob.
pub open spec fn fresh_model(position: Vec2Bits, velocity: Vec2Bits, bounce: bool) -> PlayerModel {
    PlayerModel {
        position,
        velocity,
        authority: AuthorityState::Owned,
        handoff_target: None,
        handoff_ticks: 0,
        state_blob: Seq::new(64, |i: int| 0u8),
        bounce,
        hp: PLAYER_MAX_HP,
        score: 0,
        attack_cd: 0,
        damage_cd: 0,
    }
}

/// The bits of `-v`: the sign bit flipped.
pub open spec fn neg_bits(b: u32) -> u32 {
    b ^ 0x8000_0000
}

/// An `f32` with these bits compares greater than zero: positive, not zero, not NaN.
pub open spec fn bits_positive(b: u32) -> bool {
    1 <= b <= 0x7F80_0000
}

/// An `f32` with these bits compares less than zero: negative, not zero, not NaN.
pub open spec fn bits_negative(b: u32) -> bool {
    0x8000_0001 <= b <= 0xFF80_0000
}

pub fn build_state_blob(entity: &PlayerState) -> (r: [u8; 64])
    ensures
        r@ == blob_of(entity@),
{
    let mut blob = [0u8; 64];
    blob[0] = match entity.authority {
        AuthorityState::Owned => 0,
        AuthorityState::PendingHandoff => 1,
        AuthorityState::Ghosted => 2,
    };
    if let Some(target) = entity.handoff_target {
        let b = u32_le_bytes(target);
        blob[1] = b[0];
        blob[2] = b[1];
        blob[3] = b[2];
        blob[4] = b[3];
    }
    let px = u32_le_bytes(entity.position.x);
    let py = u32_le_bytes(entity.position.y);
    let vx = u32_le_bytes(entity.velocity.x);
    let vy = u32_le_bytes(entity.velocity.y);
    let mut i: usize = 0;
    while i < 4
        invariant
            i <= 4,
            blob@.len() == 64,
            forall|j: int| 0 <= j < i ==> blob@[5 + j] == px@[j] && blob@[9 + j] == py@[j] && blob@[13 + j]
                == vx@[j] && blob@[17 + j] == vy@[j],
            forall|j: int| 21 <= j < 64 ==> blob@[j] == 0u8,
            blob@[0] == authority_code(entity.authority),
            forall|j: int| 1 <= j < 5 ==> blob@[j] == (match entity.handoff_target {
                Some(t) => wire::le32(t),
                None => seq![0u8, 0u8, 0u8, 0u8],
            })[j - 1],
        decreases 4 - i,
    {
        blob[5 + i] = px[i];
        blob[9 + i] = py[i];
        blob[13 + i] = vx[i];
        blob[17 + i] = vy[i];
        i += 1;
    }
    assert(blob@ =~= blob_of(entity@));
    blob
}

impl PlayerState {
    /// A new player that this shard owns, at full health.
    pub fn fresh(position: Vec2Bits, velocity: Vec2Bits, bounce: bool) -> (r: Self)
        ensures
            r@ == fresh_model(position, velocity, bounce),
    {
        let r = Self {
            position,
            velocity,
            authority: AuthorityState::Owned,
            handoff_target: None,
            handoff_ticks: 0,
            state_blob: [0u8; 64],
            bounce,
            hp: PLAYER_MAX_HP,
            score: 0,
            attack_cd: 0,
            damage_cd: 0,
        };
        assert(r.state_blob@ =~= Seq::new(64, |i: int| 0u8));
        r
    }

    /// Brings the state blob up to date with the player's fields.
    pub fn refresh_blob(&mut self)
        ensures
            final(self)@ == with_fresh_blob(old(self)@),
    {
        self.state_blob = build_state_blob(self);
    }
}

/// Where a player should go: the shard on the left when it is within the left
/// margin and there is one, else the shard on the right when it is within the
/// right margin and there is one.
pub open spec fn spec_position_target_shard(near_left: bool, near_right: bool, current: u32, count: u32) -> Option<
    u32,
> {
    if near_left && current > 0 {
        Some((current - 1) as u32)
    } else if near_right && current + 1 < count {
        Some((current + 1) as u32)
    } else {
        None
    }
}

pub fn position_target_shard(near_left: bool, near_right: bool, current_shard: u32, shard_count: u32) -> (r:
    Option<u32>)
    ensures
        r == spec_position_target_shard(near_left, near_right, current_shard, shard_count),
{
    if near_left && current_shard > 0 {
        Some(current_shard - 1)
    } else if near_right && current_shard < u32::MAX && current_shard + 1 < shard_count {
        Some(current_shard + 1)
    } else {
        None
    }
}

/// Whether a velocity (by the bits of its x) heads toward the target shard:
/// rightward for a shard to the right, leftward otherwise.
pub open spec fn spec_moving_toward(velocity_x: u32, current: u32, target: u32) -> bool {
    if target > current {
        bits_positive(velocity_x)
    } else {
        bits_negative(velocity_x)
    }
}

pub fn moving_toward(velocity: Vec2Bits, current_shard: u32, target_shard: u32) -> (r: bool)
    ensures
        r == spec_moving_toward(velocity.x, current_shard, target_shard),
{
    if target_shard > current_shard {
        1 <= velocity.x && velocity.x <= 0x7F80_0000
    } else {
        0x8000_0001 <= velocity.x && velocity.x <= 0xFF80_0000
    }
}

/// The shard that a handed-off player comes from, given where it arrived.
pub open spec fn spec_source_shard(near_left: bool, near_right: bool, shard_id: u32) -> u32 {
    if near_left {
        if shard_id > 0 {
            (shard_id - 1) as u32
        } else {
            0
        }
    } else if near_right {
        (shard_id + 1) as u32
    } else {
        shard_id
    }
}

pub fn source_shard(near_left: bool, near_right: bool, shard_id: u32) -> (r: u32)
    requires
        near_right && !near_left ==> shard_id < u32::MAX,
    ensures
        r == spec_source_shard(near_left, near_right, shard_id),
{
    if near_left {
        shard_id.saturating_sub(1)
    } else if near_right {
        shard_id + 1
    } else {
        shard_id
    }
}

/// The players of a shard, by client id.
pub struct PlayerRegistry {
    pub players: HashMap<u32, PlayerState>,
}

impl View for PlayerRegistry {
    type V = Map<u32, PlayerModel>;

    open spec fn view(&self) -> Map<u32, PlayerModel> {
        self.players@.map_values(|p: PlayerState| p@)
    }
}

impl PlayerRegistry {
    pub fn new() -> (r: Self)
        ensures
            r@ == Map::<u32, PlayerModel>::empty(),
    {
        let r = PlayerRegistry { players: HashMap::new() };
        assert(r@ =~= Map::<u32, PlayerModel>::empty());
        r
    }

    /// Puts a player in, in place of any earlier one with that id.
    pub fn insert(&mut self, id: u32, player: PlayerState)
        ensures
            final(self)@ == old(self)@.insert(id, player@),
    {
        self.players.insert(id, player);
        assert(self@ =~= old(self)@.insert(id, player@));
    }

    /// Takes a player out.
    pub fn take(&mut self, id: u32) -> (r: Option<PlayerState>)
        ensures
            final(self)@ == old(self)@.remove(id),
            r is Some <==> old(self)@.contains_key(id),
            r matches Some(p) ==> p@ == old(self)@[id],
    {
        let r = self.players.remove(&id);
        assert(self@ =~= old(self)@.remove(id));
        r
    }

    /// Makes sure a player exists; a new one is owned, at rest, at the given spawn position.
    pub fn ensure_player(&mut self, client_id: u32, spawn_position: Vec2Bits)
        ensures
            final(self)@ == (if old(self)@.contains_key(client_id) {
                old(self)@
            } else {
                old(self)@.insert(
                    client_id,
                    fresh_model(spawn_position, Vec2Bits { x: 0, y: 0 }, false),
                )
            }),
    {
        if !self.players.contains_key(&client_id) {
            let p = PlayerState::fresh(spawn_position, Vec2Bits { x: 0, y: 0 }, false);
            self.insert(client_id, p);
        }
    }
}

/// A neighbour accepted the handoff: the pending handoff's clock restarts.
pub open spec fn accepted(p: PlayerModel) -> PlayerModel {
    if p.authority == AuthorityState::PendingHandoff {
        PlayerModel { handoff_ticks: 0, ..p }
    } else {
        p
    }
}

/// A neighbour rejected the handoff: the shard owns the player again and turns it back.
pub open spec fn rejected(p: PlayerModel) -> PlayerModel {
    with_fresh_blob(
        PlayerModel {
            authority: AuthorityState::Owned,
            handoff_target: None,
            handoff_ticks: 0,
            velocity: Vec2Bits { x: neg_bits(p.velocity.x), y: neg_bits(p.velocity.y) },
            ..p
        },
    )
}

/// A neighbour reported where a player that it simulates is.
pub open spec fn ghost_updated(p: PlayerModel, position: Vec2Bits, velocity: Vec2Bits) -> PlayerModel {
    if p.authority == AuthorityState::Ghosted || p.authority == AuthorityState::PendingHandoff {
        with_fresh_blob(PlayerModel { position, velocity, ..p })
    } else {
        p
    }
}

/// The handoff completed: the shard owns the player.
pub open spec fn completed(p: PlayerModel) -> PlayerModel {
    with_fresh_blob(
        PlayerModel { authority: AuthorityState::Owned, handoff_target: None, handoff_ticks: 0, ..p },
    )
}

/// The registry after applying `f` to the player `id`, if there is one.
pub open spec fn update_player(
    m: Map<u32, PlayerModel>,
    id: u32,
    f: spec_fn(PlayerModel) -> PlayerModel,
) -> Map<u32, PlayerModel> {
    if m.contains_key(id) {
        m.insert(id, f(m[id]))
    } else {
        m
    }
}

pub fn handle_handoff_accept(registry: &mut PlayerRegistry, entity_id: u32)
    ensures
        final(registry)@ == update_player(old(registry)@, entity_id, |p: PlayerModel| accepted(p)),
{
    if let Some(mut entity) = registry.take(entity_id) {
        if entity.authority == AuthorityState::PendingHandoff {
            entity.handoff_ticks = 0;
        }
        registry.insert(entity_id, entity);
        assert(old(registry)@.remove(entity_id).insert(entity_id, entity@) =~= old(registry)@.insert(
            entity_id,
            entity@,
        ));
    }
}

pub fn handle_handoff_reject(registry: &mut PlayerRegistry, entity_id: u32)
    ensures
        final(registry)@ == update_player(old(registry)@, entity_id, |p: PlayerModel| rejected(p)),
{
    if let Some(mut entity) = registry.take(entity_id) {
        entity.authority = AuthorityState::Owned;
        entity.handoff_target = None;
        entity.handoff_ticks = 0;
        entity.velocity = Vec2Bits { x: entity.velocity.x ^ 0x8000_0000, y: entity.velocity.y ^ 0x8000_0000 };
        entity.refresh_blob();
        registry.insert(entity_id, entity);
        assert(old(registry)@.remove(entity_id).insert(entity_id, entity@) =~= old(registry)@.insert(
            entity_id,
            entity@,
        ));
    }
}

pub fn handle_ghost_update(registry: &mut PlayerRegistry, entity_id: u32, position: Vec2Bits, velocity: Vec2Bits)
    ensures
        final(registry)@ == update_player(
            old(registry)@,
            entity_id,
            |p: PlayerModel| ghost_updated(p, position, velocity),
        ),
{
    if let Some(mut entity) = registry.take(entity_id) {
        if entity.authority == AuthorityState::Ghosted || entity.authority == AuthorityState::PendingHandoff {
            entity.position = position;
            entity.velocity = velocity;
            entity.refresh_blob();
        }
        registry.insert(entity_id, entity);
        assert(old(registry)@.remove(entity_id).insert(entity_id, entity@) =~= old(registry)@.insert(
            entity_id,
            entity@,
        ));
    }
}

pub fn handle_handoff_complete(registry: &mut PlayerRegistry, entity_id: u32)
    ensures
        final(registry)@ == update_player(old(registry)@, entity_id, |p: PlayerModel| completed(p)),
{
    if let Some(mut entity) = registry.take(entity_id) {
        entity.authority = AuthorityState::Owned;
        entity.handoff_target = None;
        entity.handoff_ticks = 0;
        entity.refresh_blob();
        registry.insert(entity_id, entity);
        assert(old(registry)@.remove(entity_id).insert(entity_id, entity@) =~= old(registry)@.insert(
            entity_id,
            entity@,
        ));
    }
}

/// A neighbour hands a player over: this shard mirrors it as a ghost of the
/// shard it came from, and answers with an accept.
pub open spec fn handed_over(
    p: PlayerModel,
    position: Vec2Bits,
    velocity: Vec2Bits,
    state_blob: Seq<u8>,
    source: u32,
) -> PlayerModel {
    PlayerModel {
        position,
        velocity,
        authority: AuthorityState::Ghosted,
        handoff_target: Some(source),
        handoff_ticks: 0,
        state_blob,
        ..p
    }
}

/// Takes in a handed-over player; `near_left` and `near_right` tell whether its
/// position lies within the left or right margin of this shard. The answer to
/// publish is an accept.
pub fn handle_handoff_request(
    registry: &mut PlayerRegistry,
    shard_id: u32,
    entity_id: u32,
    position: Vec2Bits,
    velocity: Vec2Bits,
    state_blob: [u8; 64],
    near_left: bool,
    near_right: bool,
) -> (r: Vec<u8>)
    requires
        near_right && !near_left ==> shard_id < u32::MAX,
    ensures
        ({
            let base = if old(registry)@.contains_key(entity_id) {
                old(registry)@[entity_id]
            } else {
                fresh_model(position, velocity, true)
            };
            final(registry)@ == old(registry)@.insert(
                entity_id,
                handed_over(
                    base,
                    position,
                    velocity,
                    state_blob@,
                    spec_source_shard(near_left, near_right, shard_id),
                ),
            )
        }),
        r@ == gameplay::id_bytes(gameplay::TAG_HANDOFF_ACCEPT, entity_id),
{
    let source = source_shard(near_left, near_right, shard_id);
    let mut entity = match registry.take(entity_id) {
        Some(e) => e,
        None => PlayerState::fresh(position, velocity, true),
    };
    entity.position = position;
    entity.velocity = velocity;
    entity.authority = AuthorityState::Ghosted;
    entity.handoff_target = Some(source);
    entity.handoff_ticks = 0;
    entity.state_blob = state_blob;
    registry.insert(entity_id, entity);
    assert(final(registry)@ =~= old(registry)@.insert(entity_id, entity@)) by {
        assert(old(registry)@.remove(entity_id).insert(entity_id, entity@) =~= old(registry)@.insert(
            entity_id,
            entity@,
        ));
    }
    encode_handoff_ack(gameplay::TAG_HANDOFF_ACCEPT, entity_id)
}

/// A player starts a handoff toward a shard.
pub open spec fn handoff_started(p: PlayerModel, target: u32) -> PlayerModel {
    with_fresh_blob(
        PlayerModel {
            authority: AuthorityState::PendingHandoff,
            handoff_target: Some(target),
            handoff_ticks: 0,
            ..p
        },
    )
}

/// The spatial service warns that a player nears another shard. When this shard
/// owns the player and it heads toward that shard, the handoff starts and the
/// request to publish is returned.
pub fn handle_crossing_alert(
    registry: &mut PlayerRegistry,
    shard_id: u32,
    entity_id: u32,
    owning_shard: u32,
    target_shard: u32,
) -> (r: Option<Vec<u8>>)
    ensures
        ({
            let m = old(registry)@;
            if owning_shard == shard_id && m.contains_key(entity_id) && m[entity_id].authority
                == AuthorityState::Owned && spec_moving_toward(
                m[entity_id].velocity.x,
                owning_shard,
                target_shard,
            ) {
                let q = handoff_started(m[entity_id], target_shard);
                &&& final(registry)@ == m.insert(entity_id, q)
                &&& r matches Some(bytes) && bytes@ == gameplay::handoff_request_bytes(
                    entity_id,
                    q.position,
                    q.velocity,
                    q.state_blob,
                )
            } else {
                final(registry)@ == m && r is None
            }
        }),
{
    if owning_shard != shard_id {
        return None;
    }
    let mut entity = match registry.take(entity_id) {
        Some(e) => e,
        None => {
            assert(old(registry)@.remove(entity_id) =~= old(registry)@);
            return None;
        },
    };
    if entity.authority == AuthorityState::Owned && moving_toward(entity.velocity, owning_shard, target_shard) {
        entity.authority = AuthorityState::PendingHandoff;
        entity.handoff_target = Some(target_shard);
        entity.handoff_ticks = 0;
        entity.refresh_blob();
        let request = encode_handoff_request(entity_id, entity.position, entity.velocity, &entity.state_blob);
        registry.insert(entity_id, entity);
        assert(old(registry)@.remove(entity_id).insert(entity_id, entity@) =~= old(registry)@.insert(
            entity_id,
            entity@,
        ));
        Some(request)
    } else {
        registry.insert(entity_id, entity);
        assert(old(registry)@.remove(entity_id).insert(entity_id, entity@) =~= old(registry)@);
        None
    }
}

/// The payloads of a list of payloads, as byte sequences.
pub open spec fn payloads(v: Seq<Vec<u8>>) -> Seq<Seq<u8>> {
    v.map_values(|b: Vec<u8>| b@)
}

/// One tick of an owned player, after the caller moved it. `near_left` and
/// `near_right` tell whether it lies within the left or right handoff margin.
/// When it should go to a neighbour and heads there, the handoff starts and its
/// request is published first; its position is published last.
pub open spec fn owned_step(
    p: PlayerModel,
    client_id: u32,
    shard_id: u32,
    shard_count: u32,
    near_left: bool,
    near_right: bool,
) -> (PlayerModel, Seq<Seq<u8>>) {
    match spec_position_target_shard(near_left, near_right, shard_id, shard_count) {
        Some(target) => if spec_moving_toward(p.velocity.x, shard_id, target) {
            let q = handoff_started(p, target);
            (
                q,
                seq![
                    gameplay::handoff_request_bytes(client_id, q.position, q.velocity, q.state_blob),
                    gameplay::position_bytes(gameplay::TAG_ENTITY_POSITION, client_id, q.position),
                ],
            )
        } else {
            (p, seq![gameplay::position_bytes(gameplay::TAG_ENTITY_POSITION, client_id, p.position)])
        },
        None => (p, seq![gameplay::position_bytes(gameplay::TAG_ENTITY_POSITION, client_id, p.position)]),
    }
}

/// Appends a payload to a list of payloads.
fn push_payload(out: &mut Vec<Vec<u8>>, v: Vec<u8>)
    ensures
        payloads(final(out)@) == payloads(old(out)@).push(v@),
{
    let ghost vv = v@;
    out.push(v);
    assert(payloads(out@) =~= payloads(old(out)@).push(vv));
}

pub fn owned_tick(
    p: &mut PlayerState,
    client_id: u32,
    shard_id: u32,
    shard_count: u32,
    near_left: bool,
    near_right: bool,
) -> (r: Vec<Vec<u8>>)
    ensures
        (final(p)@, payloads(r@)) == owned_step(old(p)@, client_id, shard_id, shard_count, near_left, near_right),
{
    let mut out: Vec<Vec<u8>> = Vec::new();
    assert(payloads(out@) =~= Seq::<Seq<u8>>::empty());
    if let Some(target) = position_target_shard(near_left, near_right, shard_id, shard_count) {
        if moving_toward(p.velocity, shard_id, target) {
            p.authority = AuthorityState::PendingHandoff;
            p.handoff_target = Some(target);
            p.handoff_ticks = 0;
            p.refresh_blob();
            push_payload(&mut out, encode_handoff_request(client_id, p.position, p.velocity, &p.state_blob));
        }
    }
    push_payload(&mut out, encode_entity_position(client_id, p.position));
    assert(payloads(out@) =~= owned_step(old(p)@, client_id, shard_id, shard_count, near_left, near_right).1);
    out
}

/// The clock of a pending handoff advances (saturating) and the blob is brought
/// up to date.
pub open spec fn pending_ticked(p: PlayerModel) -> PlayerModel {
    with_fresh_blob(
        PlayerModel {
            handoff_ticks: if p.handoff_ticks == 255 {
                255
            } else {
                (p.handoff_ticks + 1) as u8
            },
            ..p
        },
    )
}

/// One tick of a player with a pending handoff, after the caller moved it.
/// `reached_right` and `reached_left` tell whether it is within two units of
/// the right or left edge of the shard. A ghost update goes out; the handoff
/// completes when the player reached the edge toward its target, and is given
/// up (the player turning back) when it lasted longer than the timeout.
pub open spec fn pending_step(
    p: PlayerModel,
    client_id: u32,
    shard_id: u32,
    reached_right: bool,
    reached_left: bool,
) -> (PlayerModel, Seq<Seq<u8>>) {
    let a = pending_ticked(p);
    match a.handoff_target {
        Some(target) => {
            let ghost_msg = gameplay::ghost_bytes(client_id, a.position, a.velocity);
            let done = (target > shard_id && reached_right) || (target < shard_id && reached_left);
            let b = if done {
                PlayerModel { authority: AuthorityState::Ghosted, handoff_ticks: 0, ..a }
            } else {
                a
            };
            let sent1 = if done {
                seq![ghost_msg, gameplay::id_bytes(gameplay::TAG_HANDOFF_COMPLETE, client_id)]
            } else {
                seq![ghost_msg]
            };
            let timed_out = b.handoff_ticks > HANDOFF_TIMEOUT_TICKS;
            let c = if timed_out {
                PlayerModel {
                    authority: AuthorityState::Owned,
                    handoff_target: None,
                    handoff_ticks: 0,
                    velocity: Vec2Bits { x: neg_bits(b.velocity.x), y: b.velocity.y },
                    ..b
                }
            } else {
                b
            };
            let sent2 = if timed_out {
                sent1.push(gameplay::id_bytes(gameplay::TAG_HANDOFF_REJECT, client_id))
            } else {
                sent1
            };
            let sent3 = if c.authority != AuthorityState::Ghosted {
                sent2.push(gameplay::position_bytes(gameplay::TAG_ENTITY_POSITION, client_id, c.position))
            } else {
                sent2
            };
            (c, sent3)
        },
        None => (a, seq![gameplay::position_bytes(gameplay::TAG_ENTITY_POSITION, client_id, a.position)]),
    }
}

pub fn pending_tick(
    p: &mut PlayerState,
    client_id: u32,
    shard_id: u32,
    reached_right: bool,
    reached_left: bool,
) -> (r: Vec<Vec<u8>>)
    ensures
        (final(p)@, payloads(r@)) == pending_step(old(p)@, client_id, shard_id, reached_right, reached_left),
{
    let mut out: Vec<Vec<u8>> = Vec::new();
    let ghost a = pending_ticked(old(p)@);
    p.handoff_ticks = p.handoff_ticks.saturating_add(1);
    p.refresh_blob();
    assert(p@ == a);
    assert(payloads(out@) =~= Seq::<Seq<u8>>::empty());
    if let Some(target) = p.handoff_target {
        push_payload(&mut out, encode_ghost_update(client_id, p.position, p.velocity));
        let ghost ghost_msg = gameplay::ghost_bytes(client_id, a.position, a.velocity);
        assert(payloads(out@) == seq![ghost_msg]);
        let done = (target > shard_id && reached_right) || (target < shard_id && reached_left);
        if done {
            push_payload(&mut out, encode_handoff_complete(client_id));
            p.authority = AuthorityState::Ghosted;
            p.handoff_ticks = 0;
        }
        let ghost b = if done {
            PlayerModel { authority: AuthorityState::Ghosted, handoff_ticks: 0, ..a }
        } else {
            a
        };
        let ghost sent1 = if done {
            seq![ghost_msg, gameplay::id_bytes(gameplay::TAG_HANDOFF_COMPLETE, client_id)]
        } else {
            seq![ghost_msg]
        };
        assert(p@ == b);
        assert(payloads(out@) =~= sent1);
        if p.handoff_ticks > HANDOFF_TIMEOUT_TICKS {
            push_payload(&mut out, encode_handoff_ack(gameplay::TAG_HANDOFF_REJECT, client_id));
            p.authority = AuthorityState::Owned;
            p.handoff_target = None;
            p.handoff_ticks = 0;
            p.velocity = Vec2Bits { x: p.velocity.x ^ 0x8000_0000, y: p.velocity.y };
        }
        let ghost timed_out = b.handoff_ticks > HANDOFF_TIMEOUT_TICKS;
        let ghost c = if timed_out {
            PlayerModel {
                authority: AuthorityState::Owned,
                handoff_target: None,
                handoff_ticks: 0,
                velocity: Vec2Bits { x: neg_bits(b.velocity.x), y: b.velocity.y },
                ..b
            }
        } else {
            b
        };
        let ghost sent2 = if timed_out {
            sent1.push(gameplay::id_bytes(gameplay::TAG_HANDOFF_REJECT, client_id))
        } else {
            sent1
        };
        assert(p@ == c);
        assert(payloads(out@) == sent2);
        if p.authority != AuthorityState::Ghosted {
            push_payload(&mut out, encode_entity_position(client_id, p.position));
        }
        assert(payloads(out@) == pending_step(old(p)@, client_id, shard_id, reached_right, reached_left).1);
    } else {
        push_payload(&mut out, encode_entity_position(client_id, p.position));
        assert(payloads(out@) =~= pending_step(old(p)@, client_id, shard_id, reached_right, reached_left).1);
    }
    assert(payloads(out@) =~= pending_step(old(p)@, client_id, shard_id, reached_right, reached_left).1);
    out
}

/// A pending player `n` ticks on, never reaching the edge of the shard.
pub open spec fn pending_run(p: PlayerModel, client_id: u32, shard_id: u32, n: nat) -> PlayerModel
    decreases n,
{
    if n == 0 {
        p
    } else {
        pending_step(pending_run(p, client_id, shard_id, (n - 1) as nat), client_id, shard_id, false, false).0
    }
}

proof fn lemma_pending_run(p: PlayerModel, client_id: u32, shard_id: u32, n: nat)
    requires
        p.authority == AuthorityState::PendingHandoff,
        p.handoff_target is Some,
        p.handoff_ticks + n <= HANDOFF_TIMEOUT_TICKS,
    ensures
        pending_run(p, client_id, shard_id, n).authority == AuthorityState::PendingHandoff,
        pending_run(p, client_id, shard_id, n).handoff_target == p.handoff_target,
        pending_run(p, client_id, shard_id, n).handoff_ticks == p.handoff_ticks + n,
        pending_run(p, client_id, shard_id, n).velocity == p.velocity,
        pending_run(p, client_id, shard_id, n).position == p.position,
    decreases n,
{
    if n > 0 {
        lemma_pending_run(p, client_id, shard_id, (n - 1) as nat);
    }
}

/// A player whose handoff is pending with `k` ticks on its clock, that never
/// reaches the edge toward its target, stays pending for `30 - k` more ticks;
/// on the tick after, the handoff is given up: the shard owns the player again,
/// its horizontal velocity is reversed, and a reject is published between the
/// ghost update and its position.
pub proof fn law_pending_handoff_gives_up(p: PlayerModel, client_id: u32, shard_id: u32)
    requires
        p.authority == AuthorityState::PendingHandoff,
        p.handoff_target is Some,
        p.handoff_ticks <= HANDOFF_TIMEOUT_TICKS,
    ensures
        ({
            let q = pending_run(p, client_id, shard_id, (HANDOFF_TIMEOUT_TICKS - p.handoff_ticks) as nat);
            let (r, msgs) = pending_step(q, client_id, shard_id, false, false);
            &&& q.authority == AuthorityState::PendingHandoff
            &&& r.authority == AuthorityState::Owned
            &&& r.handoff_target is None
            &&& r.handoff_ticks == 0
            &&& r.velocity.x == neg_bits(p.velocity.x)
            &&& r.velocity.y == p.velocity.y
            &&& msgs == seq![
                gameplay::ghost_bytes(client_id, p.position, p.velocity),
                gameplay::id_bytes(gameplay::TAG_HANDOFF_REJECT, client_id),
                gameplay::position_bytes(gameplay::TAG_ENTITY_POSITION, client_id, p.position),
            ]
        }),
{
    lemma_pending_run(p, client_id, shard_id, (HANDOFF_TIMEOUT_TICKS - p.handoff_ticks) as nat);
}

/// One tick of a ghosted player: its blob is brought up to date; nothing is published.
pub fn ghost_tick(p: &mut PlayerState)
    ensures
        final(p)@ == with_fresh_blob(old(p)@),
{
    p.refresh_blob();
}

/// The shard's progress through waves of enemies.
pub struct GameState {
    pub wave: u32,
    pub wave_clock: u32,
}

impl Default for GameState {
    fn default() -> (r: Self)
        ensures
            r.wave == 0 && r.wave_clock == 0,
    {
        GameState { wave: 0, wave_clock: 0 }
    }
}

/// One tick of the wave clock: the clock goes up, and when it reaches
/// `WAVE_INTERVAL_TICKS` (or more) it restarts and the wave goes up.
pub open spec fn wave_step(g: GameState) -> GameState {
    if g.wave_clock + 1 >= WAVE_INTERVAL_TICKS {
        GameState { wave: (g.wave + 1) as u32, wave_clock: 0 }
    } else {
        GameState { wave: g.wave, wave_clock: (g.wave_clock + 1) as u32 }
    }
}

/// The wave state after `n` ticks.
pub open spec fn waves_after(g: GameState, n: nat) -> GameState
    decreases n,
{
    if n == 0 {
        g
    } else {
        wave_step(waves_after(g, (n - 1) as nat))
    }
}

/// After `n` ticks from a clock below the interval, the wave has gone up once
/// per completed interval and the clock shows the ticks since.
pub proof fn law_waves_count_ticks(g: GameState, n: nat)
    requires
        g.wave_clock < WAVE_INTERVAL_TICKS,
        g.wave + (g.wave_clock + n) / (WAVE_INTERVAL_TICKS as int) <= u32::MAX,
    ensures
        waves_after(g, n).wave == g.wave + (g.wave_clock + n) / (WAVE_INTERVAL_TICKS as int),
        waves_after(g, n).wave_clock == (g.wave_clock + n) % (WAVE_INTERVAL_TICKS as int),
    decreases n,
{
    if n > 0 {
        let m = (n - 1) as nat;
        let c = g.wave_clock as int;
        assert(g.wave + (c + m) / 300 <= g.wave + (c + n) / 300) by (nonlinear_arith)
            requires
                m + 1 == n,
                c >= 0,
        ;
        law_waves_count_ticks(g, m);
        let q = (c + m) / 300;
        let r = (c + m) % 300;
        assert(c + m == 300 * q + r && 0 <= r < 300);
        if r + 1 >= 300 {
            assert(c + n == 300 * (q + 1) + 0);
            assert((c + n) / 300 == q + 1 && (c + n) % 300 == 0) by (nonlinear_arith)
                requires
                    c + n == 300 * (q + 1),
            ;
        } else {
            assert(c + n == 300 * q + (r + 1));
            assert((c + n) / 300 == q && (c + n) % 300 == r + 1) by (nonlinear_arith)
                requires
                    c + n == 300 * q + (r + 1),
                    0 <= r + 1 < 300,
            ;
        }
    }
}

pub fn advance_waves(game: &mut GameState)
    requires
        old(game).wave_clock < u32::MAX,
        old(game).wave_clock + 1 >= WAVE_INTERVAL_TICKS ==> old(game).wave < u32::MAX,
    ensures
        *final(game) == wave_step(*old(game)),
{
    game.wave_clock += 1;
    if game.wave_clock >= WAVE_INTERVAL_TICKS {
        game.wave_clock = 0;
        game.wave += 1;
    }
}

/// One step of the xorshift generator (shifts 13, 17, 5).
pub open spec fn xorshift32(x: u32) -> u32 {
    let a = x ^ (x << 13u32);
    let b = a ^ (a >> 17u32);
    b ^ (b << 5u32)
}

/// Advances the generator and returns its new state.
pub fn next_rand(state: &mut u32) -> (r: u32)
    ensures
        r == xorshift32(*old(state)),
        *final(state) == r,
{
    let mut x = *state;
    x ^= x << 13u32;
    x ^= x >> 17u32;
    x ^= x << 5u32;
    *state = x;
    x
}

/// The generator never reaches zero from a state that is not zero.
pub proof fn law_xorshift_keeps_nonzero(x: u32)
    requires
        x != 0,
    ensures
        xorshift32(x) != 0,
{
    assert(x != 0 ==> ((x ^ (x << 13u32)) ^ ((x ^ (x << 13u32)) >> 17u32)) ^ (((x ^ (x << 13u32)) ^ ((x ^ (x
        << 13u32)) >> 17u32)) << 5u32) != 0) by (bit_vector);
}

/// An enemy of a shard.
#[derive(Clone, Copy, Debug, PartialEq, Eq, Structural)]
pub struct Enemy {
    pub position: Vec2Bits,
    pub velocity: Vec2Bits,
    pub target: Option<u32>,
    pub hp: i32,
}

/// The enemies of a shard, the next id to give, the spawn clock and the generator.
pub struct EnemyRegistry {
    pub enemies: HashMap<u32, Enemy>,
    pub next_id: u32,
    pub spawn_clock: u32,
    pub rng: u32,
}

impl Default for EnemyRegistry {
    fn default() -> (r: Self)
        ensures
            r.enemies@ == Map::<u32, Enemy>::empty(),
            r.next_id == 1,
            r.spawn_clock == 0,
            r.rng == 0x9E37_79B9,
    {
        EnemyRegistry { enemies: HashMap::new(), next_id: 1, spawn_clock: 0, rng: 0x9E37_79B9 }
    }
}

/// The health of the enemies of a wave: `3 + (wave as i32) / 2`, the division
/// rounding toward zero.
pub open spec fn enemy_hp_for_wave(wave: u32) -> i32 {
    let w = wave as i32;
    let half: int = if w >= 0 {
        w / 2
    } else {
        -((-w) / 2)
    };
    (ENEMY_BASE_HP + half) as i32
}

pub fn enemy_hp(wave: u32) -> (r: i32)
    ensures
        r == enemy_hp_for_wave(wave),
{
    let w = wave as i32 as i64;
    let half: i64 = if w >= 0 {
        w / 2
    } else {
        -((-w) / 2)
    };
    (3 + half) as i32
}

/// How many enemies a spawn adds: `SPAWN_BATCH` more with each wave, up to the cap.
pub open spec fn batch_size(wave: u32, current: nat) -> nat {
    let want = SPAWN_BATCH + wave;
    let room = MAX_ENEMIES - current;
    if want < room {
        want as nat
    } else {
        room as nat
    }
}

/// The enemies after adding one per position, at rest, chasing `target`, with
/// health `hp`, under consecutive ids from `first` on.
pub open spec fn spawned(m: Map<u32, Enemy>, first: u32, positions: Seq<Vec2Bits>, target: u32, hp: i32) -> Map<
    u32,
    Enemy,
>
    decreases positions.len(),
{
    if positions.len() == 0 {
        m
    } else {
        spawned(m, first, positions.drop_last(), target, hp).insert(
            (first + positions.len() - 1) as u32,
            Enemy { position: positions.last(), velocity: Vec2Bits { x: 0, y: 0 }, target: Some(target), hp },
        )
    }
}

/// The enemies are at most `MAX_ENEMIES`, all under ids below `next_id`.
pub open spec fn enemies_bounded(m: Map<u32, Enemy>, next_id: u32) -> bool {
    &&& m.dom().finite()
    &&& m.len() <= MAX_ENEMIES
    &&& forall|k: u32| #[trigger] m.contains_key(k) ==> k < next_id
}

proof fn lemma_spawned(m: Map<u32, Enemy>, first: u32, positions: Seq<Vec2Bits>, target: u32, hp: i32)
    requires
        m.dom().finite(),
        forall|k: u32| #[trigger] m.contains_key(k) ==> k < first,
        first + positions.len() <= u32::MAX,
    ensures
        spawned(m, first, positions, target, hp).dom().finite(),
        spawned(m, first, positions, target, hp).len() == m.len() + positions.len(),
        forall|k: u32| #[trigger]
            spawned(m, first, positions, target, hp).contains_key(k) ==> k < first + positions.len(),
    decreases positions.len(),
{
    if positions.len() > 0 {
        let ps = positions.drop_last();
        lemma_spawned(m, first, ps, target, hp);
        let prev = spawned(m, first, ps, target, hp);
        let id = (first + positions.len() - 1) as u32;
        assert(!prev.contains_key(id));
        assert(prev.insert(id, Enemy { position: positions.last(), velocity: Vec2Bits { x: 0, y: 0 }, target: Some(target), hp }).dom() =~= prev.dom().insert(id));
    }
}

/// Spawning what a spawn tick allows keeps the enemies at most
/// `MAX_ENEMIES`, under ids below `next_id`; so does culling.
pub proof fn law_spawning_keeps_bounds(
    m: Map<u32, Enemy>,
    next_id: u32,
    wave: u32,
    positions: Seq<Vec2Bits>,
    target: u32,
    hp: i32,
    culled: Set<u32>,
)
    requires
        enemies_bounded(m, next_id),
        m.len() < MAX_ENEMIES,
        positions.len() <= batch_size(wave, m.len()),
        next_id + positions.len() <= u32::MAX,
    ensures
        enemies_bounded(spawned(m, next_id, positions, target, hp), (next_id + positions.len()) as u32),
        enemies_bounded(m.remove_keys(culled), next_id),
{
    lemma_spawned(m, next_id, positions, target, hp);
    let r = m.remove_keys(culled);
    assert(r.dom() =~= m.dom().difference(culled));
    vstd::set_lib::lemma_len_subset(r.dom(), m.dom());
}

impl EnemyRegistry {
    /// One tick of the spawn clock. Every `SPAWN_INTERVAL_TICKS` ticks the clock
    /// restarts and, below the cap, the number of enemies to spawn is returned; else 0.
    pub fn spawn_tick(&mut self, wave: u32) -> (r: usize)
        requires
            old(self).spawn_clock < u32::MAX,
        ensures
            final(self).enemies@ == old(self).enemies@,
            final(self).next_id == old(self).next_id,
            final(self).rng == old(self).rng,
            old(self).spawn_clock + 1 < SPAWN_INTERVAL_TICKS ==> final(self).spawn_clock == old(self).spawn_clock + 1
                && r == 0,
            old(self).spawn_clock + 1 >= SPAWN_INTERVAL_TICKS ==> final(self).spawn_clock == 0 && r == (if old(
                self,
            ).enemies@.len() >= MAX_ENEMIES {
                0
            } else {
                batch_size(wave, old(self).enemies@.len())
            }),
    {
        self.spawn_clock += 1;
        if self.spawn_clock < SPAWN_INTERVAL_TICKS {
            return 0;
        }
        self.spawn_clock = 0;
        let len = self.enemies.len();
        if len >= MAX_ENEMIES {
            return 0;
        }
        let room = MAX_ENEMIES - len;
        if (wave as u64) + 8 < room as u64 {
            8 + wave as usize
        } else {
            room
        }
    }

    /// Adds an enemy at rest with the next id, chasing `target`; returns its id.
    pub fn spawn_enemy(&mut self, position: Vec2Bits, target: u32, hp: i32) -> (r: u32)
        requires
            old(self).next_id < u32::MAX,
        ensures
            r == old(self).next_id,
            final(self).next_id == old(self).next_id + 1,
            final(self).enemies@ == old(self).enemies@.insert(
                r,
                Enemy { position, velocity: Vec2Bits { x: 0, y: 0 }, target: Some(target), hp },
            ),
            final(self).spawn_clock == old(self).spawn_clock,
            final(self).rng == old(self).rng,
    {
        let id = self.next_id;
        self.next_id += 1;
        self.enemies.insert(id, Enemy { position, velocity: Vec2Bits { x: 0, y: 0 }, target: Some(target), hp });
        id
    }

    /// Adds one enemy per position, at rest, chasing `target`, with health
    /// `hp`, under consecutive ids from `next_id` on; returns the ids in order.
    pub fn spawn_batch(&mut self, positions: &Vec<Vec2Bits>, target: u32, hp: i32) -> (ids: Vec<u32>)
        requires
            old(self).next_id + positions@.len() <= u32::MAX,
        ensures
            ids@ == Seq::new(positions@.len(), |i: int| (old(self).next_id + i) as u32),
            final(self).next_id == old(self).next_id + positions@.len(),
            final(self).enemies@ == spawned(old(self).enemies@, old(self).next_id, positions@, target, hp),
            final(self).spawn_clock == old(self).spawn_clock,
            final(self).rng == old(self).rng,
    {
        let ghost first = self.next_id;
        let mut ids: Vec<u32> = Vec::new();
        let mut i: usize = 0;
        while i < positions.len()
            invariant
                i <= positions@.len(),
                first == old(self).next_id,
                first + positions@.len() <= u32::MAX,
                self.next_id == first + i,
                ids@ == Seq::new(i as nat, |j: int| (first + j) as u32),
                self.enemies@ == spawned(old(self).enemies@, first, positions@.take(i as int), target, hp),
                self.spawn_clock == old(self).spawn_clock,
                self.rng == old(self).rng,
            decreases positions@.len() - i,
        {
            let id = self.spawn_enemy(positions[i], target, hp);
            ids.push(id);
            i += 1;
            proof {
                let t = positions@.take(i as int);
                assert(t.drop_last() =~= positions@.take(i - 1));
                assert(t.last() == positions@[i - 1]);
                assert(ids@ =~= Seq::new(i as nat, |j: int| (first + j) as u32));
            }
        }
        assert(positions@.take(positions@.len() as int) =~= positions@);
        ids
    }

    /// Removes the enemies with these ids; a despawn goes out for each.
    pub fn cull(&mut self, ids: &Vec<u32>) -> (r: Vec<Vec<u8>>)
        ensures
            final(self).enemies@ == old(self).enemies@.remove_keys(ids@.to_set()),
            final(self).next_id == old(self).next_id,
            final(self).spawn_clock == old(self).spawn_clock,
            final(self).rng == old(self).rng,
            payloads(r@) == ids@.map_values(|id: u32| gameplay::id_bytes(gameplay::TAG_ENEMY_DESPAWN, id)),
    {
        let mut out: Vec<Vec<u8>> = Vec::new();
        assert(payloads(out@) =~= Seq::<Seq<u8>>::empty());
        assert(ids@.take(0).map_values(|id: u32| gameplay::id_bytes(gameplay::TAG_ENEMY_DESPAWN, id))
            =~= Seq::<Seq<u8>>::empty());
        assert(old(self).enemies@.remove_keys(ids@.take(0).to_set()) =~= old(self).enemies@);
        let mut i: usize = 0;
        while i < ids.len()
            invariant
                i <= ids@.len(),
                self.enemies@ == old(self).enemies@.remove_keys(ids@.take(i as int).to_set()),
                self.next_id == old(self).next_id,
                self.spawn_clock == old(self).spawn_clock,
                self.rng == old(self).rng,
                payloads(out@) == ids@.take(i as int).map_values(
                    |id: u32| gameplay::id_bytes(gameplay::TAG_ENEMY_DESPAWN, id),
                ),
            decreases ids@.len() - i,
        {
            let id = ids[i];
            self.enemies.remove(&id);
            push_payload(&mut out, encode_enemy_despawn(id));
            i += 1;
            proof {
                assert(ids@.take(i as int).to_set() =~= ids@.take(i - 1).to_set().insert(id)) by {
                    assert(ids@.take(i as int) =~= ids@.take(i - 1).push(id));
                    ids@.take(i - 1).lemma_push_to_set_commute(id);
                }
                assert(self.enemies@ =~= old(self).enemies@.remove_keys(ids@.take(i as int).to_set()));
                assert(ids@.take(i as int).map_values(|id: u32| gameplay::id_bytes(gameplay::TAG_ENEMY_DESPAWN, id))
                    =~= ids@.take(i - 1).map_values(|id: u32| gameplay::id_bytes(gameplay::TAG_ENEMY_DESPAWN, id)).push(
                    gameplay::id_bytes(gameplay::TAG_ENEMY_DESPAWN, id),
                ));
            }
        }
        assert(ids@.take(ids@.len() as int) =~= ids@);
        out
    }
}

/// What a round of combat does to one player and to the enemies: the
/// player's cooldowns tick down; when its attack is ready and an enemy is
/// within range (`nearest`), that enemy takes a hit and the attack cools down,
/// a killed enemy going away and scoring a point; when the player can be hurt
/// and an enemy still there touches it (`touching`), it takes contact damage
/// and becomes safe for a while. A player at no health respawns with full
/// health and no score. A player that the shard does not own is left alone.
pub open spec fn combat_step(
    p: PlayerModel,
    enemies: Map<u32, Enemy>,
    nearest: Option<u32>,
    touching: Seq<u32>,
    player_id: u32,
    wave: u32,
) -> (PlayerModel, Map<u32, Enemy>, Seq<Seq<u8>>) {
    if p.authority != AuthorityState::Owned {
        (p, enemies, Seq::empty())
    } else {
        let atk0: u8 = if p.attack_cd == 0 {
            0
        } else {
            (p.attack_cd - 1) as u8
        };
        let dmg0: u8 = if p.damage_cd == 0 {
            0
        } else {
            (p.damage_cd - 1) as u8
        };
        let (atk1, enemies1, killed) = strike_step(enemies, atk0, nearest);
        let eid = nearest.unwrap_or(0);
        let touched = dmg0 == 0 && any_listed(enemies1, touching);
        let dmg1 = if touched {
            PLAYER_DAMAGE_COOLDOWN
        } else {
            dmg0
        };
        let score = p.score + (if killed { 1int } else { 0 });
        let hp = p.hp - (if touched { ENEMY_CONTACT_DAMAGE as int } else { 0 });
        let respawn = hp <= 0;
        let hp2: i32 = if respawn { PLAYER_MAX_HP } else { hp as i32 };
        let score2: u32 = if respawn { 0 } else { score as u32 };
        let q = PlayerModel { attack_cd: atk1, damage_cd: dmg1, hp: hp2, score: score2, ..p };
        let killed_msgs = if killed {
            seq![gameplay::id_bytes(gameplay::TAG_ENEMY_DESPAWN, eid)]
        } else {
            Seq::empty()
        };
        (q, enemies1, killed_msgs.push(gameplay::stats_bytes(player_id, hp2, score2, (wave + 1) as u32)))
    }
}

/// An attack that is ready (`atk0 == 0`) strikes the nearest enemy in range,
/// if any, and cools down; the enemy loses health and goes when it has none
/// left. Gives the attack cooldown, the enemies, and whether one was killed.
pub open spec fn strike_step(enemies: Map<u32, Enemy>, atk0: u8, nearest: Option<u32>) -> (u8, Map<u32, Enemy>, bool) {
    let strikes = atk0 == 0 && nearest is Some;
    let eid = nearest.unwrap_or(0);
    let hit = strikes && enemies.contains_key(eid);
    let hp_left = enemies[eid].hp - ATTACK_DAMAGE;
    let killed = hit && hp_left <= 0;
    let atk1 = if strikes {
        ATTACK_COOLDOWN
    } else {
        atk0
    };
    let enemies1 = if killed {
        enemies.remove(eid)
    } else if hit {
        enemies.insert(eid, Enemy { hp: hp_left as i32, ..enemies[eid] })
    } else {
        enemies
    };
    (atk1, enemies1, killed)
}

/// A cooldown one tick later: it goes down by one, and stays at zero.
pub open spec fn cooled(cd: u8) -> u8 {
    if cd == 0 {
        0
    } else {
        (cd - 1) as u8
    }
}

/// A ready attack would strike an enemy whose health cannot go lower.
pub open spec fn strikes_at_min(enemies: Map<u32, Enemy>, atk0: u8, nearest: Option<u32>) -> bool {
    atk0 == 0 && nearest is Some && enemies.contains_key(nearest.unwrap()) && enemies[nearest.unwrap()].hp
        == i32::MIN
}

fn strike(enemies: &mut HashMap<u32, Enemy>, atk0: u8, nearest: Option<u32>) -> (r: (u8, bool))
    requires
        strikes_at_min(old(enemies)@, atk0, nearest) == false,
    ensures
        (r.0, final(enemies)@, r.1) == strike_step(old(enemies)@, atk0, nearest),
{
    if atk0 == 0 {
        if let Some(eid) = nearest {
            if let Some(mut e) = enemies.remove(&eid) {
                e.hp -= ATTACK_DAMAGE;
                if e.hp <= 0 {
                    return (ATTACK_COOLDOWN, true);
                } else {
                    enemies.insert(eid, e);
                    assert(enemies@ =~= old(enemies)@.insert(eid, e));
                    return (ATTACK_COOLDOWN, false);
                }
            }
            assert(enemies@ =~= old(enemies)@);
            return (ATTACK_COOLDOWN, false);
        }
    }
    (atk0, false)
}

/// Some enemy of the list is in the map.
pub open spec fn any_listed(enemies: Map<u32, Enemy>, ids: Seq<u32>) -> bool {
    exists|i: int| 0 <= i < ids.len() && #[trigger] enemies.contains_key(ids[i])
}

/// Whether any of the listed enemies is still there.
fn any_present(enemies: &HashMap<u32, Enemy>, ids: &Vec<u32>) -> (r: bool)
    ensures
        r == any_listed(enemies@, ids@),
{
    let mut i: usize = 0;
    while i < ids.len()
        invariant
            i <= ids@.len(),
            forall|j: int| 0 <= j < i ==> !#[trigger] enemies@.contains_key(ids@[j]),
        decreases ids@.len() - i,
    {
        if enemies.contains_key(&ids[i]) {
            return true;
        }
        i += 1;
    }
    false
}

/// A round of combat stays within the counters: the wave can be shown one
/// higher, a struck enemy's health can go down, a kill can be scored, and a
/// hit can be taken.
pub open spec fn combat_fits(
    p: PlayerModel,
    enemies: Map<u32, Enemy>,
    nearest: Option<u32>,
    touching: Seq<u32>,
    wave: u32,
) -> bool {
    p.authority == AuthorityState::Owned ==> {
        let atk0 = cooled(p.attack_cd);
        let (atk1, enemies1, killed) = strike_step(enemies, atk0, nearest);
        &&& wave < u32::MAX
        &&& !strikes_at_min(enemies, atk0, nearest)
        &&& killed ==> p.score < u32::MAX
        &&& cooled(p.damage_cd) == 0 && any_listed(enemies1, touching) ==> p.hp >= i32::MIN
            + ENEMY_CONTACT_DAMAGE
    }
}

/// Whether a round of combat stays within the counters (see `combat_fits`).
pub fn combat_in_bounds(
    p: &PlayerState,
    enemies: &EnemyRegistry,
    nearest_in_range: Option<u32>,
    touching: &Vec<u32>,
    wave: u32,
) -> (r: bool)
    ensures
        r == combat_fits(p@, enemies.enemies@, nearest_in_range, touching@, wave),
{
    if p.authority != AuthorityState::Owned {
        return true;
    }
    if wave == u32::MAX {
        return false;
    }
    let atk0 = p.attack_cd.saturating_sub(1);
    let mut killed_id: Option<u32> = None;
    if atk0 == 0 {
        if let Some(eid) = nearest_in_range {
            if let Some(e) = enemies.enemies.get(&eid) {
                if e.hp == i32::MIN {
                    return false;
                }
                if e.hp - ATTACK_DAMAGE <= 0 {
                    if p.score == u32::MAX {
                        return false;
                    }
                    killed_id = Some(eid);
                }
            }
        }
    }
    let ghost e1 = strike_step(enemies.enemies@, atk0, nearest_in_range).1;
    if p.damage_cd.saturating_sub(1) == 0 && p.hp < i32::MIN + ENEMY_CONTACT_DAMAGE {
        let mut i: usize = 0;
        while i < touching.len()
            invariant
                i <= touching@.len(),
                forall|j: int| 0 <= j < i ==> !#[trigger] e1.contains_key(touching@[j]),
                e1 == strike_step(enemies.enemies@, atk0, nearest_in_range).1,
                killed_id is Some ==> e1 == enemies.enemies@.remove(killed_id.unwrap()),
                killed_id is None ==> e1.dom() == enemies.enemies@.dom(),
                p.authority == AuthorityState::Owned,
                cooled(p.damage_cd) == 0,
                p.hp < i32::MIN + ENEMY_CONTACT_DAMAGE,
                atk0 == cooled(p.attack_cd),
            decreases touching@.len() - i,
        {
            let id = touching[i];
            let gone = match killed_id {
                Some(k) => k == id,
                None => false,
            };
            if !gone && enemies.enemies.contains_key(&id) {
                assert(e1.contains_key(touching@[i as int]));
                return false;
            }
            i += 1;
        }
    }
    true
}

/// One round of combat for one player (see `combat_step`). The caller tells
/// which enemy is the nearest within attack range and which enemies touch the
/// player. The despawn of a killed enemy and the player's stats are published.
#[verifier::rlimit(40)]
pub fn combat_round(
    player_id: u32,
    p: &mut PlayerState,
    enemies: &mut EnemyRegistry,
    nearest_in_range: Option<u32>,
    touching: &Vec<u32>,
    wave: u32,
) -> (r: Vec<Vec<u8>>)
    requires
        combat_fits(old(p)@, old(enemies).enemies@, nearest_in_range, touching@, wave),
    ensures
        ({
            let (q, e, msgs) = combat_step(old(p)@, old(enemies).enemies@, nearest_in_range, touching@, player_id, wave);
            &&& final(p)@ == q
            &&& final(enemies).enemies@ == e
            &&& payloads(r@) == msgs
        }),
        final(enemies).next_id == old(enemies).next_id,
        final(enemies).spawn_clock == old(enemies).spawn_clock,
        final(enemies).rng == old(enemies).rng,
{
    let mut out: Vec<Vec<u8>> = Vec::new();
    assert(payloads(out@) =~= Seq::<Seq<u8>>::empty());
    if p.authority != AuthorityState::Owned {
        return out;
    }
    let atk0 = p.attack_cd.saturating_sub(1);
    let dmg0 = p.damage_cd.saturating_sub(1);
    let mut dmg = dmg0;
    let (atk, killed) = strike(&mut enemies.enemies, atk0, nearest_in_range);
    if killed {
        let eid = match nearest_in_range {
            Some(e) => e,
            None => 0,
        };
        push_payload(&mut out, encode_enemy_despawn(eid));
    }
    let mut hp_delta: i32 = 0;
    let ghost touched = dmg0 == 0 && any_listed(enemies.enemies@, touching@);
    if dmg == 0 {
        if any_present(&enemies.enemies, touching) {
            hp_delta = -ENEMY_CONTACT_DAMAGE;
            dmg = PLAYER_DAMAGE_COOLDOWN;
        }
    }
    p.attack_cd = atk;
    p.damage_cd = dmg;
    if killed {
        p.score += 1;
    }
    p.hp += hp_delta;
    if p.hp <= 0 {
        p.hp = PLAYER_MAX_HP;
        p.score = 0;
    }
    push_payload(&mut out, encode_player_stats(player_id, p.hp, p.score, wave + 1));
    proof {
        let (q, e, msgs) = combat_step(old(p)@, old(enemies).enemies@, nearest_in_range, touching@, player_id, wave);
        let o = old(p)@;
        assert(atk0 == (if o.attack_cd == 0 { 0u8 } else { (o.attack_cd - 1) as u8 }));
        let (atk1, e1, k1) = strike_step(old(enemies).enemies@, atk0, nearest_in_range);
        assert(atk == atk1 && killed == k1 && enemies.enemies@ == e1);
        assert(q.attack_cd == atk);
        assert(dmg0 == (if o.damage_cd == 0 { 0u8 } else { (o.damage_cd - 1) as u8 }));
        assert(dmg == (if touched { PLAYER_DAMAGE_COOLDOWN } else { dmg0 }));
        assert(q.damage_cd == dmg);
        assert(q.hp == p.hp);
        assert(q.score == p.score);
        assert(enemies.enemies@ =~= e);
        assert(payloads(out@) =~= msgs);
        assert(p@ == q);
    }
    out
}

/// A ready attack (its cooldown at most one tick away) on an enemy that is
/// there wears it down by exactly `ATTACK_DAMAGE` when it survives and
/// removes it when it does not, leaves every other enemy as it was, and
/// cools the attack down whether or not the enemy dies.
pub proof fn law_strike_wears_down_enemy(
    p: PlayerModel,
    enemies: Map<u32, Enemy>,
    a: u32,
    touching: Seq<u32>,
    player_id: u32,
    wave: u32,
    k: u32,
)
    requires
        p.authority == AuthorityState::Owned,
        p.attack_cd <= 1,
        enemies.contains_key(a),
    ensures
        ({
            let (q, after, msgs) = combat_step(p, enemies, Some(a), touching, player_id, wave);
            &&& q.attack_cd == ATTACK_COOLDOWN
            &&& enemies[a].hp > ATTACK_DAMAGE ==> after.contains_key(a) && after[a] == (Enemy {
                hp: (enemies[a].hp - ATTACK_DAMAGE) as i32,
                ..enemies[a]
            })
            &&& enemies[a].hp <= ATTACK_DAMAGE ==> !after.contains_key(a)
            &&& k != a ==> (after.contains_key(k) <==> enemies.contains_key(k))
            &&& k != a && enemies.contains_key(k) ==> after[k] == enemies[k]
        }),
{
}

/// Any ready attack with an enemy picked in range cools down, even when the
/// enemy is gone already; an attack that is not ready only ticks down.
pub proof fn law_attack_cools_down(
    p: PlayerModel,
    enemies: Map<u32, Enemy>,
    nearest: Option<u32>,
    touching: Seq<u32>,
    player_id: u32,
    wave: u32,
)
    requires
        p.authority == AuthorityState::Owned,
    ensures
        ({
            let (q, after, msgs) = combat_step(p, enemies, nearest, touching, player_id, wave);
            &&& p.attack_cd <= 1 && nearest is Some ==> q.attack_cd == ATTACK_COOLDOWN
            &&& p.attack_cd > 1 ==> q.attack_cd == p.attack_cd - 1 && after == enemies
        }),
{
}

/// An enemy killed by the round's strike deals no contact damage in that
/// round: when every touching enemy is the one killed, the player's health is
/// untouched, its damage cooldown only ticks down, and it scores the kill.
pub proof fn law_killed_enemy_does_not_hurt(
    p: PlayerModel,
    enemies: Map<u32, Enemy>,
    a: u32,
    touching: Seq<u32>,
    player_id: u32,
    wave: u32,
)
    requires
        p.authority == AuthorityState::Owned,
        p.attack_cd <= 1,
        enemies.contains_key(a),
        enemies[a].hp <= ATTACK_DAMAGE,
        forall|i: int| 0 <= i < touching.len() ==> touching[i] == a,
        p.hp > 0,
        p.score < u32::MAX,
    ensures
        ({
            let (q, after, msgs) = combat_step(p, enemies, Some(a), touching, player_id, wave);
            &&& q.hp == p.hp
            &&& q.damage_cd == (if p.damage_cd == 0 {
                0
            } else {
                p.damage_cd - 1
            })
            &&& q.score == p.score + 1
            &&& !after.contains_key(a)
        }),
{
    let (atk1, e1, killed) = strike_step(enemies, cooled(p.attack_cd), Some(a));
    assert(!any_listed(e1, touching));
}

/// An enemy that is there and touching deals contact damage when the
/// player can be hurt and the round does not kill that enemy.
pub proof fn law_touching_enemy_hurts(
    p: PlayerModel,
    enemies: Map<u32, Enemy>,
    nearest: Option<u32>,
    b: u32,
    touching: Seq<u32>,
    player_id: u32,
    wave: u32,
)
    requires
        p.authority == AuthorityState::Owned,
        p.damage_cd <= 1,
        enemies.contains_key(b),
        touching.contains(b),
        nearest != Some(b),
        p.hp > ENEMY_CONTACT_DAMAGE,
    ensures
        ({
            let (q, after, msgs) = combat_step(p, enemies, nearest, touching, player_id, wave);
            &&& q.hp == p.hp - ENEMY_CONTACT_DAMAGE
            &&& q.damage_cd == PLAYER_DAMAGE_COOLDOWN
        }),
{
    let (atk1, e1, killed) = strike_step(enemies, cooled(p.attack_cd), nearest);
    let i = choose|i: int| 0 <= i < touching.len() && touching[i] == b;
    assert(e1.contains_key(touching[i]));
}

/// A ghost update sets the position and velocity of a ghosted player or one
/// whose handoff is pending, keeps its authority and handoff, and brings its
/// blob up to date; an owned player, and every other player, is left alone.
pub proof fn law_ghost_update_moves_mirror(
    m: Map<u32, PlayerModel>,
    id: u32,
    position: Vec2Bits,
    velocity: Vec2Bits,
    other: u32,
)
    requires
        m.contains_key(id),
    ensures
        ({
            let after = update_player(m, id, |p: PlayerModel| ghost_updated(p, position, velocity));
            &&& after.contains_key(id)
            &&& (m[id].authority == AuthorityState::Ghosted || m[id].authority == AuthorityState::PendingHandoff)
                ==> {
                &&& after[id].position == position
                &&& after[id].velocity == velocity
                &&& after[id].authority == m[id].authority
                &&& after[id].handoff_target == m[id].handoff_target
                &&& after[id].state_blob == state_blob_bytes(m[id].authority, m[id].handoff_target, position, velocity)
            }
            &&& m[id].authority == AuthorityState::Owned ==> after[id] == m[id]
            &&& other != id ==> (after.contains_key(other) <==> m.contains_key(other))
            &&& other != id && m.contains_key(other) ==> after[other] == m[other]
        }),
{
}

/// A pending handoff completes when the player reaches the edge toward its
/// target, on either side: the player becomes a ghost with its clock at zero,
/// and the ghost update then the completion are published.
pub proof fn law_handoff_completes_at_edge(
    p: PlayerModel,
    client_id: u32,
    shard_id: u32,
    reached_right: bool,
    reached_left: bool,
)
    requires
        p.authority == AuthorityState::PendingHandoff,
        p.handoff_target is Some,
        (p.handoff_target.unwrap() < shard_id && reached_left) || (p.handoff_target.unwrap() > shard_id
            && reached_right),
    ensures
        ({
            let (q, msgs) = pending_step(p, client_id, shard_id, reached_right, reached_left);
            &&& q.authority == AuthorityState::Ghosted
            &&& q.handoff_ticks == 0
            &&& q.handoff_target == p.handoff_target
            &&& q.position == p.position
            &&& q.velocity == p.velocity
            &&& msgs == seq![
                gameplay::ghost_bytes(client_id, p.position, p.velocity),
                gameplay::id_bytes(gameplay::TAG_HANDOFF_COMPLETE, client_id),
            ]
        }),
{
}

} // verus!
