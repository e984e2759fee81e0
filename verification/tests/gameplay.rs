use std::collections::HashMap;
use shardnet::client_view::{sprite_layer, sprite_plan, EntityKind, PlayerStats, WorldView};
use shardnet::gameplay::{
    decode_client_update, decode_handoff_request, decode_position_update, decode_shard_event, encode_client_input,
    encode_crossing_alert, encode_enemy_despawn, encode_enemy_update, encode_entity_position, encode_ghost_update,
    encode_handoff_ack, encode_handoff_complete, encode_handoff_request, encode_player_stats, read_vec, ClientUpdate,
    ShardEvent, Vec2Bits,
};

fn v(x: f32, y: f32) -> Vec2Bits {
    Vec2Bits { x: x.to_bits(), y: y.to_bits() }
}

#[test]
fn entity_position_layout() {
    let p = encode_entity_position(0x01020304, v(1.0, -2.0));
    let mut want = vec![0x10u8, 4, 3, 2, 1];
    want.extend_from_slice(&1.0f32.to_le_bytes());
    want.extend_from_slice(&(-2.0f32).to_le_bytes());
    assert_eq!(p, want);
    assert_eq!(encode_enemy_update(7, v(0.5, 0.25))[0], 0x40);
    assert_eq!(encode_enemy_despawn(7), vec![0x41, 7, 0, 0, 0]);
    assert_eq!(encode_handoff_complete(9), vec![0x24, 9, 0, 0, 0]);
    assert_eq!(encode_handoff_ack(0x21, 258), vec![0x21, 2, 1, 0, 0]);
}

#[test]
fn player_stats_layout() {
    let p = encode_player_stats(1, -5, 3, 2);
    assert_eq!(p, vec![0x11, 1, 0, 0, 0, 0xFB, 0xFF, 0xFF, 0xFF, 3, 0, 0, 0, 2, 0, 0, 0]);
    assert_eq!(decode_client_update(&p), ClientUpdate::Stats { id: 1, hp: -5, score: 3, wave: 2 });
}

#[test]
fn client_reads_its_payloads() {
    assert_eq!(
        decode_client_update(&encode_entity_position(3, v(1.0, 2.0))),
        ClientUpdate::PlayerMoved { id: 3, position: v(1.0, 2.0) }
    );
    assert_eq!(
        decode_client_update(&encode_enemy_update(4, v(3.0, 4.0))),
        ClientUpdate::EnemyMoved { id: 4, position: v(3.0, 4.0) }
    );
    assert_eq!(decode_client_update(&encode_enemy_despawn(4)), ClientUpdate::EnemyGone(4));
    assert_eq!(decode_client_update(&[0x51, 8, 0, 0, 0]), ClientUpdate::ProjectileGone(8));
    let mut proj = vec![0x50u8, 6, 0, 0, 0];
    proj.extend_from_slice(&[0; 8]);
    assert_eq!(decode_client_update(&proj), ClientUpdate::ProjectileMoved { id: 6, position: Vec2Bits { x: 0, y: 0 } });
    assert_eq!(decode_client_update(&[]), ClientUpdate::Ignored);
    assert_eq!(decode_client_update(&[0x10, 1, 2]), ClientUpdate::Ignored);
    assert_eq!(decode_client_update(&[0x99, 1, 2, 3, 4]), ClientUpdate::Ignored);
}

#[test]
fn ghost_update_and_crossing_alert_read_back() {
    let g = encode_ghost_update(12, v(10.0, 20.0), v(-1.0, 0.0));
    assert_eq!(g.len(), 21);
    assert_eq!(
        decode_shard_event(&g),
        ShardEvent::GhostUpdate { entity_id: 12, position: v(10.0, 20.0), velocity: v(-1.0, 0.0) }
    );
    let a = encode_crossing_alert(5, 1, 2);
    assert_eq!(a, vec![0x30, 5, 0, 0, 0, 1, 0, 0, 0, 2, 0, 0, 0]);
    assert_eq!(decode_shard_event(&a), ShardEvent::CrossingAlert { entity_id: 5, owning_shard: 1, target_shard: 2 });
}

#[test]
fn handoff_request_reads_back() {
    let mut blob = [0u8; 64];
    for (i, b) in blob.iter_mut().enumerate() {
        *b = i as u8;
    }
    let r = encode_handoff_request(77, v(250.0, 40.0), v(6.0, 0.0), &blob);
    assert_eq!(r.len(), 1 + 4 + 16 + 64);
    let (id, pos, vel, back) = decode_handoff_request(&r).unwrap();
    assert_eq!(id, 77);
    assert_eq!(pos, v(250.0, 40.0));
    assert_eq!(vel, v(6.0, 0.0));
    assert_eq!(back, blob);
    match decode_shard_event(&r) {
        ShardEvent::HandoffRequest { entity_id, position, velocity, state_blob } => {
            assert_eq!(entity_id, 77);
            assert_eq!(position, v(250.0, 40.0));
            assert_eq!(velocity, v(6.0, 0.0));
            assert_eq!(state_blob, blob);
        }
        other => panic!("unexpected {:?}", other),
    }
    // one byte short, or a wrong tag
    assert!(decode_handoff_request(&r[..r.len() - 1]).is_none());
    let mut wrong = r.clone();
    wrong[0] = 0x21;
    assert!(decode_handoff_request(&wrong).is_none());
}

#[test]
fn client_input_reads_back() {
    let p = encode_client_input(9, 255, 0);
    assert_eq!(p.len(), 21);
    assert_eq!(&p[..7], &[0x05, 9, 0, 0, 0, 255, 0]);
    assert!(p[7..].iter().all(|b| *b == 127));
    let mut want = [127u8; 16];
    want[0] = 255;
    want[1] = 0;
    assert_eq!(decode_shard_event(&p), ShardEvent::ClientInput { client_id: 9, input: Some(want) });
    assert_eq!(decode_shard_event(&p[..5]), ShardEvent::ClientInput { client_id: 9, input: None });
}

#[test]
fn shard_events_of_short_and_other_payloads() {
    assert_eq!(decode_shard_event(&[]), ShardEvent::Ignored);
    assert_eq!(decode_shard_event(&[0x05, 1, 2]), ShardEvent::Ignored);
    assert_eq!(decode_shard_event(&[0x21, 3, 0, 0, 0]), ShardEvent::HandoffAccept(3));
    assert_eq!(decode_shard_event(&[0x22, 3, 0, 0, 0]), ShardEvent::HandoffReject(3));
    assert_eq!(decode_shard_event(&[0x24, 3, 0, 0, 0]), ShardEvent::HandoffComplete(3));
    assert_eq!(decode_shard_event(&[0x23, 3, 0, 0, 0]), ShardEvent::Ignored);
    assert_eq!(decode_shard_event(&[0x10, 3, 0, 0, 0]), ShardEvent::Ignored);
    assert_eq!(decode_shard_event(&[0x41, 3, 0, 0, 0]), ShardEvent::Ignored);
    assert_eq!(decode_shard_event(&[0x77]), ShardEvent::Unknown(0x77));
}

#[test]
fn position_updates_for_the_spatial_service() {
    let p = encode_entity_position(11, v(300.0, 5.0));
    assert_eq!(decode_position_update(&p), Some((11, v(300.0, 5.0))));
    assert_eq!(decode_position_update(&p[..12]), None);
    assert_eq!(read_vec(&p, 5), Some(v(300.0, 5.0)));
    assert_eq!(read_vec(&p, 6), None);
}

#[test]
fn client_view_follows_payloads() {
    let mut view = WorldView::new();
    let mut stats = PlayerStats::new();
    view.apply_payload(&mut stats, 1, &encode_entity_position(1, v(1.0, 2.0)));
    view.apply_payload(&mut stats, 1, &encode_enemy_update(5, v(3.0, 4.0)));
    view.apply_payload(&mut stats, 1, &[0x50, 6, 0, 0, 0, 0, 0, 0, 0, 0, 0, 0, 0]);
    assert_eq!(view.players.get(&1), Some(&v(1.0, 2.0)));
    assert_eq!(view.enemies.get(&5), Some(&v(3.0, 4.0)));
    assert!(view.projectiles.contains_key(&6));
    view.apply_payload(&mut stats, 1, &encode_enemy_despawn(5));
    view.apply_payload(&mut stats, 1, &[0x51, 6, 0, 0, 0]);
    assert!(view.enemies.is_empty());
    assert!(view.projectiles.is_empty());
    // stats of another player are ignored, the local player's are taken
    view.apply_payload(&mut stats, 1, &encode_player_stats(2, 50, 1, 1));
    assert_eq!(stats, PlayerStats::new());
    view.apply_payload(&mut stats, 1, &encode_player_stats(1, 94, 3, 2));
    assert_eq!(stats, PlayerStats { hp: 94, score: 3, wave: 2 });
    // garbage changes nothing
    view.apply_payload(&mut stats, 1, &[0x10, 1]);
    assert_eq!(view.players.len(), 1);
    view.clear();
    assert!(view.players.is_empty());
}

#[test]
fn sprite_plans_follow_the_view() {
    let mut shown: HashMap<u32, Vec2Bits> = HashMap::new();
    shown.insert(1, v(0.0, 0.0));
    shown.insert(2, v(1.0, 1.0));
    let plan = sprite_plan(&vec![2, 3], &shown);
    assert_eq!(plan.spawn, vec![1]);
    assert_eq!(plan.despawn, vec![3]);
    let plan = sprite_plan(&vec![], &HashMap::new());
    assert!(plan.spawn.is_empty() && plan.despawn.is_empty());
    assert_eq!(sprite_layer(EntityKind::Player, 5, 5), 2);
    assert_eq!(sprite_layer(EntityKind::Player, 4, 5), 1);
    assert_eq!(sprite_layer(EntityKind::Enemy, 5, 5), 0);
    assert_eq!(sprite_layer(EntityKind::Projectile, 5, 5), 3);
}
