//! What a client knows of the world: where the players, enemies and
//! projectiles that the shards publish are, and its own player's stats.
use vstd::prelude::*;
use std::collections::HashMap;
use crate::collections::map_keys;
use crate::gameplay::{self, decode_client_update, ClientUpdate, Vec2Bits};

verus! {

broadcast use vstd::std_specs::hash::group_hash_axioms;

/// The local player's health, score and wave.
#[derive(Clone, Copy, Debug, PartialEq, Eq, Structural)]
pub struct PlayerStats {
    pub hp: i32,
    pub score: u32,
    pub wave: u32,
}

/// The positions that a client last heard of, by entity id.
pub struct WorldView {
    pub players: HashMap<u32, Vec2Bits>,
    pub enemies: HashMap<u32, Vec2Bits>,
    pub projectiles: HashMap<u32, Vec2Bits>,
}

/// A world view, abstractly.
pub struct ViewModel {
    pub players: Map<u32, Vec2Bits>,
    pub enemies: Map<u32, Vec2Bits>,
    pub projectiles: Map<u32, Vec2Bits>,
}

impl View for WorldView {
    type V = ViewModel;

    open spec fn view(&self) -> ViewModel {
        ViewModel { players: self.players@, enemies: self.enemies@, projectiles: self.projectiles@ }
    }
}

/// The view after an update: a position is recorded, a despawn forgets the
/// entity; stats leave the view alone.
pub open spec fn updated_view(v: ViewModel, u: ClientUpdate) -> ViewModel {
    match u {
        ClientUpdate::PlayerMoved { id, position } => ViewModel { players: v.players.insert(id, position), ..v },
        ClientUpdate::EnemyMoved { id, position } => ViewModel { enemies: v.enemies.insert(id, position), ..v },
        ClientUpdate::EnemyGone(id) => ViewModel { enemies: v.enemies.remove(id), ..v },
        ClientUpdate::ProjectileMoved { id, position } => ViewModel {
            projectiles: v.projectiles.insert(id, position),
            ..v
        },
        ClientUpdate::ProjectileGone(id) => ViewModel { projectiles: v.projectiles.remove(id), ..v },
        _ => v,
    }
}

/// The stats after an update: those of the local player are taken; others are ignored.
pub open spec fn updated_stats(s: PlayerStats, local_id: u32, u: ClientUpdate) -> PlayerStats {
    match u {
        ClientUpdate::Stats { id, hp, score, wave } => if id == local_id {
            PlayerStats { hp, score, wave }
        } else {
            s
        },
        _ => s,
    }
}

impl PlayerStats {
    pub fn new() -> (r: Self)
        ensures
            r == (PlayerStats { hp: 0, score: 0, wave: 0 }),
    {
        PlayerStats { hp: 0, score: 0, wave: 0 }
    }
}

impl WorldView {
    pub fn new() -> (r: Self)
        ensures
            r@.players == Map::<u32, Vec2Bits>::empty(),
            r@.enemies == Map::<u32, Vec2Bits>::empty(),
            r@.projectiles == Map::<u32, Vec2Bits>::empty(),
    {
        WorldView { players: HashMap::new(), enemies: HashMap::new(), projectiles: HashMap::new() }
    }

    /// Forgets everything, as when the connection is lost.
    pub fn clear(&mut self)
        ensures
            final(self)@.players == Map::<u32, Vec2Bits>::empty(),
            final(self)@.enemies == Map::<u32, Vec2Bits>::empty(),
            final(self)@.projectiles == Map::<u32, Vec2Bits>::empty(),
    {
        self.players.clear();
        self.enemies.clear();
        self.projectiles.clear();
    }

    /// Applies an update to the view and to the local player's stats.
    pub fn apply(&mut self, stats: &mut PlayerStats, local_id: u32, update: ClientUpdate)
        ensures
            final(self)@ == updated_view(old(self)@, update),
            *final(stats) == updated_stats(*old(stats), local_id, update),
    {
        match update {
            ClientUpdate::PlayerMoved { id, position } => {
                self.players.insert(id, position);
            },
            ClientUpdate::EnemyMoved { id, position } => {
                self.enemies.insert(id, position);
            },
            ClientUpdate::EnemyGone(id) => {
                self.enemies.remove(&id);
            },
            ClientUpdate::ProjectileMoved { id, position } => {
                self.projectiles.insert(id, position);
            },
            ClientUpdate::ProjectileGone(id) => {
                self.projectiles.remove(&id);
            },
            ClientUpdate::Stats { id, hp, score, wave } => {
                if id == local_id {
                    *stats = PlayerStats { hp, score, wave };
                }
            },
            ClientUpdate::Ignored => {},
        }
    }

    /// Reads a gameplay payload and applies it.
    pub fn apply_payload(&mut self, stats: &mut PlayerStats, local_id: u32, data: &[u8])
        ensures
            final(self)@ == updated_view(old(self)@, gameplay::client_update_of(data@)),
            *final(stats) == updated_stats(*old(stats), local_id, gameplay::client_update_of(data@)),
    {
        let update = decode_client_update(data);
        self.apply(stats, local_id, update);
    }
}

/// A position that a client records is what it shows until the entity moves
/// again or goes: a later update about another entity leaves it in place.
pub proof fn law_position_kept_until_changed(v: ViewModel, id: u32, position: Vec2Bits, u: ClientUpdate)
    requires
        match u {
            ClientUpdate::PlayerMoved { id: other, .. } => other != id,
            _ => true,
        },
    ensures
        updated_view(updated_view(v, ClientUpdate::PlayerMoved { id, position }), u).players[id] == position,
        updated_view(updated_view(v, ClientUpdate::PlayerMoved { id, position }), u).players.contains_key(id),
{
}

/// The kinds of entity that a client draws.
#[derive(Clone, Copy, Debug, PartialEq, Eq, Structural)]
pub enum EntityKind {
    Player,
    Enemy,
    Projectile,
}

/// The drawing layer of an entity: the local player above other players,
/// players above enemies, projectiles on top.
pub open spec fn layer_of(kind: EntityKind, id: u32, local_id: u32) -> u8 {
    match kind {
        EntityKind::Player => if id == local_id {
            2
        } else {
            1
        },
        EntityKind::Enemy => 0,
        EntityKind::Projectile => 3,
    }
}

pub fn sprite_layer(kind: EntityKind, id: u32, local_id: u32) -> (r: u8)
    ensures
        r == layer_of(kind, id, local_id),
{
    match kind {
        EntityKind::Player => if id == local_id {
            2
        } else {
            1
        },
        EntityKind::Enemy => 0,
        EntityKind::Projectile => 3,
    }
}

/// What the drawing must change to match the view: the entities shown that
/// have no sprite yet, and the sprites whose entity is no longer shown.
pub struct SpritePlan {
    pub spawn: Vec<u32>,
    pub despawn: Vec<u32>,
}

fn listed(ids: &Vec<u32>, id: u32) -> (r: bool)
    ensures
        r == ids@.contains(id),
{
    let mut i: usize = 0;
    while i < ids.len()
        invariant
            i <= ids@.len(),
            forall|j: int| 0 <= j < i ==> ids@[j] != id,
        decreases ids@.len() - i,
    {
        if ids[i] == id {
            return true;
        }
        i += 1;
    }
    false
}

/// The plan that brings the sprites of `indexed` in line with the entities of `shown`.
pub fn sprite_plan(indexed: &Vec<u32>, shown: &HashMap<u32, Vec2Bits>) -> (r: SpritePlan)
    requires
        indexed@.no_duplicates(),
    ensures
        forall|id: u32| #[trigger] r.spawn@.contains(id) <==> shown@.contains_key(id) && !indexed@.contains(id),
        forall|id: u32| #[trigger] r.despawn@.contains(id) <==> indexed@.contains(id) && !shown@.contains_key(id),
        r.spawn@.no_duplicates(),
        r.despawn@.no_duplicates(),
{
    let keys = map_keys(shown);
    let mut spawn: Vec<u32> = Vec::new();
    let mut i: usize = 0;
    while i < keys.len()
        invariant
            i <= keys@.len(),
            keys@.no_duplicates(),
            keys@.to_set() == shown@.dom(),
            spawn@.no_duplicates(),
            forall|id: u32| #[trigger] spawn@.contains(id) <==> (exists|j: int| 0 <= j < i && keys@[j] == id)
                && !indexed@.contains(id),
        decreases keys@.len() - i,
    {
        let k = keys[i];
        if !listed(indexed, k) {
            proof {
                assert forall|j: int| 0 <= j < spawn@.len() implies spawn@[j] != k by {
                    assert(spawn@.contains(spawn@[j]));
                    let a = choose|a: int| 0 <= a < i && keys@[a] == spawn@[j];
                }
            }
            let ghost before = spawn@;
            spawn.push(k);
            proof {
                assert forall|id: u32| #[trigger] spawn@.contains(id) <==> (exists|j: int| 0 <= j < i + 1 && keys@[j] == id)
                    && !indexed@.contains(id) by {
                    if spawn@.contains(id) {
                        let a = choose|a: int| 0 <= a < spawn@.len() && spawn@[a] == id;
                        if a < before.len() {
                            assert(before.contains(id));
                        }
                    }
                    if (exists|j: int| 0 <= j < i + 1 && keys@[j] == id) && !indexed@.contains(id) {
                        if id == k {
                            assert(spawn@[before.len() as int] == id);
                        } else {
                            let j = choose|j: int| 0 <= j < i + 1 && keys@[j] == id;
                            assert(j < i);
                            assert(before.contains(id));
                            let a = choose|a: int| 0 <= a < before.len() && before[a] == id;
                            assert(spawn@[a] == id);
                        }
                    }
                }
            }
        } else {
            assert forall|id: u32| #[trigger] spawn@.contains(id) <==> (exists|j: int| 0 <= j < i + 1 && keys@[j] == id)
                && !indexed@.contains(id) by {
                if (exists|j: int| 0 <= j < i + 1 && keys@[j] == id) && !indexed@.contains(id) {
                    let j = choose|j: int| 0 <= j < i + 1 && keys@[j] == id;
                    assert(j < i);
                }
            }
        }
        i += 1;
    }
    proof {
        assert forall|id: u32| #[trigger] spawn@.contains(id) <==> shown@.contains_key(id) && !indexed@.contains(id) by {
            if shown@.contains_key(id) {
                assert(keys@.to_set().contains(id));
            }
            if exists|j: int| 0 <= j < keys@.len() && keys@[j] == id {
                let j = choose|j: int| 0 <= j < keys@.len() && keys@[j] == id;
                assert(keys@.to_set().contains(keys@[j]));
            }
        }
    }
    let mut despawn: Vec<u32> = Vec::new();
    let mut i: usize = 0;
    while i < indexed.len()
        invariant
            i <= indexed@.len(),
            indexed@.no_duplicates(),
            despawn@.no_duplicates(),
            forall|id: u32| #[trigger] despawn@.contains(id) <==> (exists|j: int| 0 <= j < i && indexed@[j] == id)
                && !shown@.contains_key(id),
        decreases indexed@.len() - i,
    {
        let k = indexed[i];
        if !shown.contains_key(&k) {
            proof {
                assert forall|j: int| 0 <= j < despawn@.len() implies despawn@[j] != k by {
                    assert(despawn@.contains(despawn@[j]));
                    let a = choose|a: int| 0 <= a < i && indexed@[a] == despawn@[j];
                }
            }
            let ghost before = despawn@;
            despawn.push(k);
            proof {
                assert forall|id: u32| #[trigger] despawn@.contains(id) <==> (exists|j: int| 0 <= j < i + 1 && indexed@[j] == id)
                    && !shown@.contains_key(id) by {
                    if despawn@.contains(id) {
                        let a = choose|a: int| 0 <= a < despawn@.len() && despawn@[a] == id;
                        if a < before.len() {
                            assert(before.contains(id));
                        }
                    }
                    if (exists|j: int| 0 <= j < i + 1 && indexed@[j] == id) && !shown@.contains_key(id) {
                        if id == k {
                            assert(despawn@[before.len() as int] == id);
                        } else {
                            let j = choose|j: int| 0 <= j < i + 1 && indexed@[j] == id;
                            assert(j < i);
                            assert(before.contains(id));
                            let a = choose|a: int| 0 <= a < before.len() && before[a] == id;
                            assert(despawn@[a] == id);
                        }
                    }
                }
            }
        } else {
            assert forall|id: u32| #[trigger] despawn@.contains(id) <==> (exists|j: int| 0 <= j < i + 1 && indexed@[j] == id)
                && !shown@.contains_key(id) by {
                if (exists|j: int| 0 <= j < i + 1 && indexed@[j] == id) && !shown@.contains_key(id) {
                    let j = choose|j: int| 0 <= j < i + 1 && indexed@[j] == id;
                    assert(j < i);
                }
            }
        }
        i += 1;
    }
    SpritePlan { spawn, despawn }
}

} // verus!
