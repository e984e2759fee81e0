use shardnet::gameplay::{encode_ghost_update, encode_handoff_request, encode_entity_position, Vec2Bits};
use shardnet::shard::{
    advance_waves, build_state_blob, combat_in_bounds, combat_round, enemy_hp, ghost_tick, handle_crossing_alert, handle_ghost_update,
    handle_handoff_accept, handle_handoff_complete, handle_handoff_reject, handle_handoff_request, moving_toward,
    next_rand, owned_tick, pending_tick, position_target_shard, source_shard, AuthorityState, Enemy, EnemyRegistry,
    GameState, PlayerRegistry, PlayerState, HANDOFF_TIMEOUT_TICKS,
};

fn v(x: f32, y: f32) -> Vec2Bits {
    Vec2Bits { x: x.to_bits(), y: y.to_bits() }
}

fn owned(x: f32, vx: f32) -> PlayerState {
    PlayerState::fresh(v(x, 50.0), v(vx, 0.0), false)
}

#[test]
fn fresh_player_is_owned_at_full_health() {
    let p = owned(10.0, 0.0);
    assert_eq!(p.authority, AuthorityState::Owned);
    assert_eq!(p.handoff_target, None);
    assert_eq!(p.hp, 100);
    assert_eq!(p.score, 0);
    assert_eq!(p.state_blob, [0u8; 64]);
}

#[test]
fn state_blob_layout() {
    let mut p = owned(1.0, 2.0);
    p.authority = AuthorityState::PendingHandoff;
    p.handoff_target = Some(3);
    let blob = build_state_blob(&p);
    assert_eq!(blob[0], 1);
    assert_eq!(&blob[1..5], &[3, 0, 0, 0]);
    assert_eq!(&blob[5..9], &1.0f32.to_le_bytes());
    assert_eq!(&blob[9..13], &50.0f32.to_le_bytes());
    assert_eq!(&blob[13..17], &2.0f32.to_le_bytes());
    assert_eq!(&blob[17..21], &0.0f32.to_le_bytes());
    assert!(blob[21..].iter().all(|b| *b == 0));
    p.refresh_blob();
    assert_eq!(p.state_blob, blob);
    p.authority = AuthorityState::Ghosted;
    p.handoff_target = None;
    let blob = build_state_blob(&p);
    assert_eq!(blob[0], 2);
    assert_eq!(&blob[1..5], &[0, 0, 0, 0]);
}

#[test]
fn target_shard_by_margins() {
    assert_eq!(position_target_shard(true, false, 2, 4), Some(1));
    assert_eq!(position_target_shard(true, false, 0, 4), None);
    assert_eq!(position_target_shard(false, true, 2, 4), Some(3));
    assert_eq!(position_target_shard(false, true, 3, 4), None);
    assert_eq!(position_target_shard(false, false, 2, 4), None);
    assert!(moving_toward(v(1.0, 0.0), 1, 2));
    assert!(!moving_toward(v(-1.0, 0.0), 1, 2));
    assert!(moving_toward(v(-1.0, 0.0), 1, 0));
    assert!(!moving_toward(v(0.0, 0.0), 1, 0));
    assert!(!moving_toward(v(-0.0, 0.0), 1, 0));
    assert!(!moving_toward(v(f32::NAN, 0.0), 1, 2));
    assert_eq!(source_shard(true, false, 0), 0);
    assert_eq!(source_shard(true, false, 3), 2);
    assert_eq!(source_shard(false, true, 3), 4);
    assert_eq!(source_shard(false, false, 3), 3);
}

#[test]
fn registry_insert_take_and_ensure() {
    let mut r = PlayerRegistry::new();
    r.ensure_player(5, v(128.0, 32.0));
    assert_eq!(r.players.get(&5).unwrap().position, v(128.0, 32.0));
    r.players.get_mut(&5).unwrap().hp = 7;
    r.ensure_player(5, v(0.0, 0.0));
    assert_eq!(r.players.get(&5).unwrap().hp, 7);
    let p = r.take(5).unwrap();
    assert_eq!(p.hp, 7);
    assert!(r.take(5).is_none());
    r.insert(6, p);
    assert!(r.players.contains_key(&6));
}

#[test]
fn handoff_request_ghosts_the_player_and_accepts() {
    let mut r = PlayerRegistry::new();
    let blob = [9u8; 64];
    let accept = handle_handoff_request(&mut r, 2, 40, v(515.0, 10.0), v(-6.0, 0.0), blob, true, false);
    assert_eq!(accept, vec![0x21, 40, 0, 0, 0]);
    let p = r.players.get(&40).unwrap();
    assert_eq!(p.authority, AuthorityState::Ghosted);
    assert_eq!(p.handoff_target, Some(1));
    assert_eq!(p.position, v(515.0, 10.0));
    assert_eq!(p.velocity, v(-6.0, 0.0));
    assert_eq!(p.state_blob, blob);
    assert!(p.bounce);
    assert_eq!(p.hp, 100);
}

#[test]
fn handoff_replies_update_the_player() {
    let mut r = PlayerRegistry::new();
    let mut p = owned(250.0, 6.0);
    p.authority = AuthorityState::PendingHandoff;
    p.handoff_target = Some(1);
    p.handoff_ticks = 5;
    r.insert(1, p);
    handle_handoff_accept(&mut r, 1);
    assert_eq!(r.players.get(&1).unwrap().handoff_ticks, 0);
    handle_ghost_update(&mut r, 1, v(251.0, 50.0), v(6.0, 0.0));
    assert_eq!(r.players.get(&1).unwrap().position, v(251.0, 50.0));
    handle_handoff_reject(&mut r, 1);
    let q = r.players.get(&1).unwrap();
    assert_eq!(q.authority, AuthorityState::Owned);
    assert_eq!(q.handoff_target, None);
    assert_eq!(q.velocity, v(-6.0, -0.0));
    assert_eq!(q.state_blob, build_state_blob(q));
    // a ghost update of an owned player changes nothing
    handle_ghost_update(&mut r, 1, v(0.0, 0.0), v(0.0, 0.0));
    assert_eq!(r.players.get(&1).unwrap().position, v(251.0, 50.0));
    // completion makes a ghost owned
    r.players.get_mut(&1).unwrap().authority = AuthorityState::Ghosted;
    handle_handoff_complete(&mut r, 1);
    assert_eq!(r.players.get(&1).unwrap().authority, AuthorityState::Owned);
    // replies about unknown players are ignored
    handle_handoff_accept(&mut r, 99);
    handle_handoff_complete(&mut r, 99);
    assert!(!r.players.contains_key(&99));
}

#[test]
fn crossing_alert_starts_handoff_when_heading_there() {
    let mut r = PlayerRegistry::new();
    r.insert(3, owned(250.0, 6.0));
    assert!(handle_crossing_alert(&mut r, 1, 3, 0, 2).is_none());
    assert!(handle_crossing_alert(&mut r, 0, 3, 0, 1).is_some());
    let p = r.players.get(&3).unwrap();
    assert_eq!(p.authority, AuthorityState::PendingHandoff);
    assert_eq!(p.handoff_target, Some(1));
    // already pending: nothing more
    assert!(handle_crossing_alert(&mut r, 0, 3, 0, 1).is_none());
    // heading away: nothing
    r.insert(4, owned(250.0, -6.0));
    assert!(handle_crossing_alert(&mut r, 0, 4, 0, 1).is_none());
    assert_eq!(r.players.get(&4).unwrap().authority, AuthorityState::Owned);
}

#[test]
fn owned_tick_publishes_request_then_position() {
    let mut p = owned(250.0, 6.0);
    let out = owned_tick(&mut p, 8, 0, 2, false, true);
    assert_eq!(p.authority, AuthorityState::PendingHandoff);
    assert_eq!(p.handoff_target, Some(1));
    assert_eq!(out.len(), 2);
    assert_eq!(out[0], encode_handoff_request(8, p.position, p.velocity, &p.state_blob));
    assert_eq!(out[1], encode_entity_position(8, p.position));

    let mut q = owned(100.0, 6.0);
    let out = owned_tick(&mut q, 8, 0, 2, false, false);
    assert_eq!(q.authority, AuthorityState::Owned);
    assert_eq!(out, vec![encode_entity_position(8, q.position)]);
}

#[test]
fn pending_tick_completes_at_the_edge() {
    let mut p = owned(255.0, 6.0);
    p.authority = AuthorityState::PendingHandoff;
    p.handoff_target = Some(1);
    let out = pending_tick(&mut p, 8, 0, true, false);
    assert_eq!(p.authority, AuthorityState::Ghosted);
    assert_eq!(out, vec![encode_ghost_update(8, p.position, p.velocity), vec![0x24, 8, 0, 0, 0]]);
}

#[test]
fn pending_tick_gives_up_after_timeout() {
    let mut p = owned(240.0, 6.0);
    p.authority = AuthorityState::PendingHandoff;
    p.handoff_target = Some(1);
    p.handoff_ticks = HANDOFF_TIMEOUT_TICKS;
    let out = pending_tick(&mut p, 8, 0, false, false);
    assert_eq!(p.authority, AuthorityState::Owned);
    assert_eq!(p.handoff_target, None);
    assert_eq!(p.velocity.x, (-6.0f32).to_bits());
    assert_eq!(out.len(), 3);
    assert_eq!(out[1], vec![0x22, 8, 0, 0, 0]);
    assert_eq!(out[2], encode_entity_position(8, p.position));
}

#[test]
fn ghost_tick_refreshes_blob() {
    let mut p = owned(1.0, 1.0);
    p.authority = AuthorityState::Ghosted;
    ghost_tick(&mut p);
    assert_eq!(p.state_blob, build_state_blob(&p));
}

#[test]
fn waves_advance_every_interval() {
    let mut g = GameState::default();
    for _ in 0..299 {
        advance_waves(&mut g);
    }
    assert_eq!(g.wave, 0);
    assert_eq!(g.wave_clock, 299);
    advance_waves(&mut g);
    assert_eq!(g.wave, 1);
    assert_eq!(g.wave_clock, 0);
}

#[test]
fn xorshift_matches_reference_step() {
    let mut s: u32 = 1;
    assert_eq!(next_rand(&mut s), 270369);
    assert_eq!(s, 270369);
    let mut z: u32 = 0;
    assert_eq!(next_rand(&mut z), 0);
}

#[test]
fn enemy_health_grows_with_waves() {
    assert_eq!(enemy_hp(0), 3);
    assert_eq!(enemy_hp(1), 3);
    assert_eq!(enemy_hp(5), 5);
    assert_eq!(enemy_hp(u32::MAX), 3);
    assert_eq!(enemy_hp(u32::MAX - 2), 2);
}

#[test]
fn spawning_every_twenty_ticks_up_to_the_cap() {
    let mut e = EnemyRegistry::default();
    for _ in 0..19 {
        assert_eq!(e.spawn_tick(0), 0);
    }
    assert_eq!(e.spawn_tick(2), 10);
    assert_eq!(e.spawn_clock, 0);
    let id = e.spawn_enemy(v(1.0, 1.0), 3, 4);
    assert_eq!(id, 1);
    assert_eq!(e.next_id, 2);
    assert_eq!(
        *e.enemies.get(&1).unwrap(),
        Enemy { position: v(1.0, 1.0), velocity: Vec2Bits { x: 0, y: 0 }, target: Some(3), hp: 4 }
    );
    for _ in 0..195 {
        e.spawn_enemy(v(0.0, 0.0), 3, 1);
    }
    for _ in 0..19 {
        e.spawn_tick(0);
    }
    assert_eq!(e.spawn_tick(10), 4);
}

#[test]
fn cull_removes_and_despawns() {
    let mut e = EnemyRegistry::default();
    e.spawn_enemy(v(0.0, 0.0), 1, 1);
    e.spawn_enemy(v(0.0, 0.0), 1, 1);
    let out = e.cull(&vec![1, 7]);
    assert_eq!(out, vec![vec![0x41, 1, 0, 0, 0], vec![0x41, 7, 0, 0, 0]]);
    assert!(!e.enemies.contains_key(&1));
    assert!(e.enemies.contains_key(&2));
}

#[test]
fn combat_kills_scores_and_takes_damage() {
    let mut e = EnemyRegistry::default();
    let a = e.spawn_enemy(v(0.0, 0.0), 1, 1);
    let b = e.spawn_enemy(v(0.0, 0.0), 1, 5);
    let mut p = owned(0.0, 0.0);
    let out = combat_round(1, &mut p, &mut e, Some(a), &vec![b], 2);
    assert!(!e.enemies.contains_key(&a));
    assert_eq!(p.score, 1);
    assert_eq!(p.attack_cd, 6);
    assert_eq!(p.hp, 94);
    assert_eq!(p.damage_cd, 12);
    assert_eq!(out[0], vec![0x41, a as u8, 0, 0, 0]);
    assert_eq!(out[1][0], 0x11);
    assert_eq!(&out[1][13..17], &[3, 0, 0, 0]);
    // cooling down: no strike, no damage
    let out = combat_round(1, &mut p, &mut e, Some(b), &vec![b], 2);
    assert_eq!(out.len(), 1);
    assert_eq!(e.enemies.get(&b).unwrap().hp, 5);
    assert_eq!(p.hp, 94);
}

#[test]
fn combat_respawns_a_dead_player() {
    let mut e = EnemyRegistry::default();
    let b = e.spawn_enemy(v(0.0, 0.0), 1, 5);
    let mut p = owned(0.0, 0.0);
    p.hp = 6;
    p.score = 9;
    combat_round(1, &mut p, &mut e, None, &vec![b], 0);
    assert_eq!(p.hp, 100);
    assert_eq!(p.score, 0);
}

#[test]
fn combat_leaves_ghosts_alone() {
    let mut e = EnemyRegistry::default();
    let b = e.spawn_enemy(v(0.0, 0.0), 1, 5);
    let mut p = owned(0.0, 0.0);
    p.authority = AuthorityState::Ghosted;
    assert!(combat_round(1, &mut p, &mut e, Some(b), &vec![b], 0).is_empty());
    assert_eq!(p.hp, 100);
}

#[test]
fn spawn_clock_past_the_interval_restarts() {
    let mut e = EnemyRegistry::default();
    e.spawn_clock = 25;
    assert_eq!(e.spawn_tick(0), 8);
    assert_eq!(e.spawn_clock, 0);
}

#[test]
fn spawn_batch_gives_consecutive_ids() {
    let mut e = EnemyRegistry::default();
    e.spawn_enemy(v(0.0, 0.0), 1, 1);
    let ids = e.spawn_batch(&vec![v(1.0, 1.0), v(2.0, 2.0), v(3.0, 3.0)], 7, 4);
    assert_eq!(ids, vec![2, 3, 4]);
    assert_eq!(e.next_id, 5);
    assert_eq!(
        *e.enemies.get(&3).unwrap(),
        Enemy { position: v(2.0, 2.0), velocity: Vec2Bits { x: 0, y: 0 }, target: Some(7), hp: 4 }
    );
    assert_eq!(e.enemies.len(), 4);
    assert!(e.spawn_batch(&vec![], 7, 4).is_empty());
    assert_eq!(e.next_id, 5);
}

#[test]
fn wave_clock_past_the_interval_restarts() {
    let mut g = GameState { wave: 4, wave_clock: 1000 };
    advance_waves(&mut g);
    assert_eq!(g.wave, 5);
    assert_eq!(g.wave_clock, 0);
    let mut g = GameState::default();
    for _ in 0..750 {
        advance_waves(&mut g);
    }
    assert_eq!(g.wave, 2);
    assert_eq!(g.wave_clock, 150);
}

#[test]
fn combat_bounds_only_matter_when_counters_move() {
    let mut e = EnemyRegistry::default();
    let a = e.spawn_enemy(v(0.0, 0.0), 1, 1);
    let mut p = owned(0.0, 0.0);
    p.score = u32::MAX;
    // no kill: the score cannot overflow
    assert!(combat_in_bounds(&p, &e, None, &vec![], 0));
    // a kill would overflow the score
    assert!(!combat_in_bounds(&p, &e, Some(a), &vec![], 0));
    p.score = 0;
    p.hp = i32::MIN;
    assert!(combat_in_bounds(&p, &e, Some(a), &vec![a], 0));
    assert!(!combat_in_bounds(&p, &e, None, &vec![a], 0));
    assert!(!combat_in_bounds(&owned(0.0, 0.0), &e, None, &vec![], u32::MAX));
    p.authority = AuthorityState::Ghosted;
    assert!(combat_in_bounds(&p, &e, None, &vec![a], u32::MAX));
}

#[test]
fn pending_handoff_gives_up_after_the_timeout() {
    let mut p = owned(200.0, 6.0);
    p.authority = AuthorityState::PendingHandoff;
    p.handoff_target = Some(1);
    p.handoff_ticks = 25;
    for _ in 0..5 {
        pending_tick(&mut p, 8, 0, false, false);
        assert_eq!(p.authority, AuthorityState::PendingHandoff);
    }
    let out = pending_tick(&mut p, 8, 0, false, false);
    assert_eq!(p.authority, AuthorityState::Owned);
    assert_eq!(p.velocity.x, (-6.0f32).to_bits());
    assert_eq!(out[1], vec![0x22, 8, 0, 0, 0]);
}
