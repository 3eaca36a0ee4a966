use std::collections::HashSet;
use std::time::Duration;

use thecurse::action_controller::{ActionAnnouncement, ActionPlayer};
use thecurse::character_controller::action_hooks::{
    ActionHook, ActionHookAction, ActionHookCondition,
};
use thecurse::character_controller::actions::aerial::{AerialState, AerialUpdate, VerticalMotion};
use thecurse::character_controller::actions::attack::{
    AttackChange, AttackState, AttackType, InterruptAction, ATTACK_DURATION_NANOS,
};
use thecurse::character_controller::actions::movement::{
    HalfSteps, MovementDecision, MovementKeys, MovementState,
};
use thecurse::character_controller::actions::CharacterActions;
use thecurse::character_controller::PlayerAnimation;
use thecurse::creatures::ai::{AiCandidate, CreatureAiState, CreatureFaction, TargetStatus};
use thecurse::spells::{VoidEffects, VoidSpell};
use thecurse::creatures::goblin::{
    GoblinBehavior, GoblinBehaviorState, RetryMoveToTarget, TargetDistance,
};
use thecurse::creatures::player::actions::attack::{
    AttackEffects, AttackState as PlayerAttackState, AttackType as PlayerAttackType,
};
use thecurse::items::{
    Item, ItemEffect, ItemKillAllGoblins, ItemSpawnGoblin, ItemSpawnGoblinsRandom,
    ItemSpawnTwoGoblins, ItemSystem,
};
use thecurse::networking::io_util::{frame_len_prefix, frame_payload_len, prepare_buffer};
use thecurse::shared::collision_layer::GameLayer;
use thecurse::utils::timer::OnceTimer;

const MS: u64 = 1_000_000;

fn keys(w: bool, a: bool, s: bool, d: bool) -> MovementKeys {
    MovementKeys { w, a, s, d }
}

#[test]
fn once_timer_finishes_once() {
    let mut t = OnceTimer::new(500 * MS);
    assert!(!t.tick(200 * MS));
    assert_eq!(t.elapsed_nanos, 200 * MS);
    assert!(!t.is_finished());
    assert!(t.tick(400 * MS));
    assert_eq!(t.elapsed_nanos, 500 * MS);
    assert!(t.is_finished());
    assert!(!t.tick(1));
    assert_eq!(t.elapsed_nanos, 500 * MS);
}

#[test]
fn once_timer_split_ticks_match_one_tick() {
    let mut a = OnceTimer::new(500 * MS);
    let f1 = a.tick(300 * MS);
    let f2 = a.tick(250 * MS);
    let mut b = OnceTimer::new(500 * MS);
    let f3 = b.tick(550 * MS);
    assert_eq!(a, b);
    assert_eq!(f1 || f2, f3);
}

#[test]
fn grounded_character_starts_attacks_by_key() {
    let mut s = AttackState::Idle;
    s.update(AerialState::Grounded, true, true, 16 * MS);
    assert_eq!(
        s,
        AttackState::Attacking { timer: OnceTimer::new(ATTACK_DURATION_NANOS), ty: AttackType::Normal }
    );
    let mut s = AttackState::Idle;
    s.update(AerialState::Grounded, false, true, 16 * MS);
    assert_eq!(
        s,
        AttackState::Attacking {
            timer: OnceTimer::new(ATTACK_DURATION_NANOS),
            ty: AttackType::SwingBottom
        }
    );
    let mut s = AttackState::Idle;
    s.update(AerialState::Grounded, false, false, 16 * MS);
    assert_eq!(s, AttackState::Idle);
}

#[test]
fn airborne_character_does_not_attack() {
    for aerial in [AerialState::Jumping, AerialState::Falling] {
        let mut s = AttackState::Idle;
        s.update(aerial, true, true, 16 * MS);
        assert_eq!(s, AttackState::Idle);
    }
}

#[test]
fn attack_ends_after_500_ms() {
    let mut s = AttackState::Idle;
    s.update(AerialState::Grounded, true, false, 0);
    s.update(AerialState::Grounded, false, false, 499 * MS);
    assert!(matches!(s, AttackState::Attacking { .. }));
    s.update(AerialState::Grounded, false, false, MS);
    assert_eq!(s, AttackState::Idle);
}

#[test]
fn jump_interrupts_attack() {
    let mut s = AttackState::Idle;
    s.update(AerialState::Grounded, true, false, 0);
    s.interrupt(InterruptAction::PlayerJumped);
    assert_eq!(s, AttackState::Idle);
}

#[test]
fn attack_changes_pick_collider_and_animation() {
    assert_eq!(AttackState::Idle.change(), AttackChange::Ended(PlayerAnimation::Idle));
    let mut s = AttackState::Idle;
    s.update(AerialState::Grounded, false, true, 0);
    assert_eq!(s.change(), AttackChange::Started(PlayerAnimation::AttackSwingBottom));
    let mut s = AttackState::Idle;
    s.update(AerialState::Grounded, true, false, 0);
    assert_eq!(s.change(), AttackChange::Started(PlayerAnimation::Attack));
    s.update(AerialState::Grounded, false, false, 10 * MS);
    assert_eq!(s.change(), AttackChange::Unchanged);
}

#[test]
fn aerial_states_pick_animations() {
    assert_eq!(AerialState::Grounded.animation(), PlayerAnimation::Idle);
    assert_eq!(AerialState::Jumping.animation(), PlayerAnimation::Jumping);
    assert_eq!(AerialState::Falling.animation(), PlayerAnimation::Falling);
}

#[test]
fn aerial_state_jumps_falls_and_lands() {
    let mut a = CharacterActions::default().aerial;
    assert_eq!(a, AerialState::Grounded);
    assert_eq!(a.update(VerticalMotion::Resting, true), AerialUpdate { jump: true, stop: true });
    assert_eq!(a, AerialState::Jumping);
    assert_eq!(a.update(VerticalMotion::Moving, false), AerialUpdate { jump: false, stop: false });
    assert_eq!(a, AerialState::Jumping);
    assert_eq!(a.update(VerticalMotion::Falling, false), AerialUpdate { jump: false, stop: true });
    assert_eq!(a, AerialState::Falling);
    assert_eq!(a.update(VerticalMotion::Falling, false), AerialUpdate { jump: false, stop: false });
    assert_eq!(a.update(VerticalMotion::Resting, false), AerialUpdate { jump: false, stop: true });
    assert_eq!(a, AerialState::Grounded);
}

#[test]
fn movement_keys_steer_the_character() {
    let mut m = MovementState::default();
    let idle = AttackState::Idle;
    assert_eq!(
        m.update(keys(true, false, false, true), AerialState::Grounded, &idle),
        MovementDecision::Moving { turned: true, airborne: false }
    );
    assert_eq!(m.direction, HalfSteps { x: 2, z: -2 });
    assert_eq!(
        m.update(keys(true, false, false, true), AerialState::Grounded, &idle),
        MovementDecision::Moving { turned: false, airborne: false }
    );
    assert_eq!(
        m.update(keys(false, true, false, false), AerialState::Jumping, &idle),
        MovementDecision::Moving { turned: true, airborne: true }
    );
    assert_eq!(m.direction, HalfSteps { x: -1, z: 0 });
    assert_eq!(
        m.update(keys(false, false, false, false), AerialState::Grounded, &idle),
        MovementDecision::Released { was_moving: true }
    );
    assert_eq!(m.direction, HalfSteps { x: 0, z: 0 });
    assert_eq!(
        m.update(keys(false, false, false, false), AerialState::Grounded, &idle),
        MovementDecision::Released { was_moving: false }
    );
}

#[test]
fn movement_halts_when_keys_cancel_or_attacking() {
    let mut m = MovementState::default();
    let idle = AttackState::Idle;
    m.update(keys(false, false, true, false), AerialState::Grounded, &idle);
    assert_eq!(
        m.update(keys(true, false, true, false), AerialState::Grounded, &idle),
        MovementDecision::Halted
    );
    assert_eq!(m.direction, HalfSteps { x: 0, z: 0 });
    let mut attacking = AttackState::Idle;
    attacking.update(AerialState::Grounded, true, false, 0);
    assert_eq!(
        m.update(keys(false, false, false, true), AerialState::Grounded, &attacking),
        MovementDecision::Halted
    );
}

#[test]
fn movement_animation_on_the_ground() {
    let mut m = MovementState::default();
    let idle = AttackState::Idle;
    assert_eq!(m.animation(AerialState::Grounded, &idle), Some(PlayerAnimation::Idle));
    m.update(keys(true, false, false, false), AerialState::Grounded, &idle);
    assert_eq!(m.animation(AerialState::Grounded, &idle), Some(PlayerAnimation::Running));
    assert_eq!(m.animation(AerialState::Falling, &idle), None);
    let mut attacking = AttackState::Idle;
    attacking.update(AerialState::Grounded, true, false, 0);
    assert_eq!(m.animation(AerialState::Grounded, &attacking), None);
}

#[test]
fn player_attack_arms_then_disarms() {
    assert_eq!(PlayerAttackType::Normal.duration(), Duration::from_millis(500));
    assert_eq!(PlayerAttackType::SwingBottom.duration(), Duration::from_millis(500));
    assert_eq!(PlayerAttackType::CastVoid.duration(), Duration::from_millis(200));
    let mut s = PlayerAttackState::Attacking {
        timer: OnceTimer::new(500 * MS),
        ty: PlayerAttackType::Normal,
    };
    assert_eq!(s.advance(100 * MS), AttackEffects { arm: true, disarm: false });
    assert_eq!(s.advance(100 * MS), AttackEffects { arm: false, disarm: false });
    assert_eq!(s.advance(300 * MS), AttackEffects { arm: false, disarm: true });
    assert_eq!(s, PlayerAttackState::Idle);
    assert_eq!(s.advance(100 * MS), AttackEffects { arm: false, disarm: false });
}

#[test]
fn casting_the_void_arms_nothing() {
    let mut s = PlayerAttackState::Attacking {
        timer: OnceTimer::new(200 * MS),
        ty: PlayerAttackType::CastVoid,
    };
    assert_eq!(s.advance(300 * MS), AttackEffects { arm: false, disarm: true });
    assert_eq!(s, PlayerAttackState::Idle);
}

#[test]
fn goblin_behavior_follows_target_distance() {
    let mut g = GoblinBehavior::new(GoblinBehaviorState::Idle);
    g.update(Some(TargetDistance::BeyondReach), false);
    assert_eq!(g.current, GoblinBehaviorState::MovingForwards);
    assert_eq!(g.last, GoblinBehaviorState::Idle);
    g.update(Some(TargetDistance::TooClose), false);
    assert_eq!(g.current, GoblinBehaviorState::MovingBackwards);
    assert_eq!(g.last, GoblinBehaviorState::MovingForwards);
    g.update(Some(TargetDistance::TooClose), true);
    assert_eq!(g.current, GoblinBehaviorState::Idle);
    g.update(None, false);
    assert_eq!(g.current, GoblinBehaviorState::Idle);
    assert_eq!(g.last, GoblinBehaviorState::MovingBackwards);
    assert!(g.action_interruptable);
}

#[test]
fn goblin_finishes_its_attack() {
    let mut g = GoblinBehavior::new(GoblinBehaviorState::MovingForwards);
    g.update(Some(TargetDistance::InReach), false);
    assert_eq!(g.current, GoblinBehaviorState::Attacking);
    assert!(!g.action_interruptable);
    g.update(None, false);
    assert_eq!(g.current, GoblinBehaviorState::Attacking);
    assert_eq!(g.last, GoblinBehaviorState::MovingForwards);
}

#[test]
fn action_player_life_cycle() {
    let mut p = ActionPlayer::new(7u8);
    assert!(!p.is_active());
    assert_eq!(p.announce(), ActionAnnouncement { start: false, stop: false, change: false });
    p.start();
    assert_eq!(p.announce(), ActionAnnouncement { start: true, stop: false, change: false });
    p.apply_start();
    assert!(p.is_active());
    p.run_change_callback();
    assert_eq!(p.announce(), ActionAnnouncement { start: false, stop: false, change: true });
    p.apply_change();
    p.stop();
    assert_eq!(p.announce(), ActionAnnouncement { start: false, stop: true, change: false });
    assert!(!p.is_active());
    p.apply_stop();
    assert!(p.is_active());
    assert_eq!(p.action, 7);
    let d: ActionPlayer<u8> = ActionPlayer::default();
    assert_eq!(d.action, 0);
    assert!(!d.is_active());
}

#[test]
fn action_hooks_apply_in_order_when_condition_holds() {
    let mut active: HashSet<usize> = HashSet::new();
    active.insert(1);
    let hook = ActionHook {
        condition: ActionHookCondition::IsRunning(1),
        actions: vec![
            ActionHookAction::Insert(2),
            ActionHookAction::Remove(1),
            ActionHookAction::Insert(1),
            ActionHookAction::Remove(2),
        ],
    };
    hook.apply(&mut active);
    assert_eq!(active, HashSet::from([1]));
    let hook = ActionHook {
        condition: ActionHookCondition::IsNotRunning(1),
        actions: vec![ActionHookAction::Insert(3)],
    };
    hook.apply(&mut active);
    assert_eq!(active, HashSet::from([1]));
    let hook = ActionHook {
        condition: ActionHookCondition::Unconditional,
        actions: vec![ActionHookAction::Insert(3), ActionHookAction::Remove(1)],
    };
    hook.apply(&mut active);
    assert_eq!(active, HashSet::from([3]));
    assert!(ActionHookCondition::IsNotRunning(1).check_condition(&active));
    assert!(!ActionHookCondition::IsRunning(1).check_condition(&active));
}

#[test]
fn items_queue_their_systems() {
    let mut commands = Vec::new();
    ItemKillAllGoblins.use_effect(&mut commands);
    ItemSpawnGoblin.use_effect(&mut commands);
    ItemSpawnTwoGoblins.use_effect(&mut commands);
    ItemSpawnGoblinsRandom.use_effect(&mut commands);
    Item::SpawnTwoGoblins(ItemSpawnTwoGoblins).use_effect(&mut commands);
    assert_eq!(
        commands,
        vec![
            ItemSystem::KillAllGoblins,
            ItemSystem::SpawnGoblin,
            ItemSystem::SpawnGoblin,
            ItemSystem::SpawnGoblin,
            ItemSystem::RandomSpawnGoblins,
            ItemSystem::SpawnGoblin,
            ItemSystem::SpawnGoblin,
        ]
    );
}

#[test]
fn game_layers_combine_as_bits() {
    assert_eq!(GameLayer::all_bits(), 127);
    let creature = GameLayer::from_bits_retain(GameLayer::PLAYER)
        .union(GameLayer::from_bits_retain(GameLayer::GOBLIN));
    assert_eq!(creature.bits(), GameLayer::CREATURE);
    assert!(GameLayer::all().contains(creature));
    assert!(!creature.contains(GameLayer::from_bits_retain(GameLayer::ITEM)));
    assert_eq!(
        GameLayer::all_bits() & !GameLayer::from_bits_retain(GameLayer::CREATURE).to_bits(),
        31
    );
}

#[test]
fn creature_factions_combine_as_bits() {
    let none = CreatureFaction::empty();
    assert!(none.is_empty());
    let both = CreatureFaction::from_bits_retain(CreatureFaction::PLAYER)
        .union(CreatureFaction::from_bits_retain(CreatureFaction::GOBLIN));
    assert_eq!(both.bits(), 3);
    assert!(both.contains(CreatureFaction::GOBLIN));
    assert!(!none.contains(CreatureFaction::PLAYER));
}

#[test]
fn tcp_frames_carry_their_length() {
    assert_eq!(frame_len_prefix(0x0102), [2, 1, 0, 0]);
    assert_eq!(frame_payload_len(&[2, 1, 0, 0]), 0x0102);
    assert_eq!(frame_payload_len(&frame_len_prefix(70000)), 70000);
    let mut buf = vec![9u8, 9];
    prepare_buffer(&mut buf, 5);
    assert_eq!(buf, vec![9, 9, 0, 0, 0]);
    prepare_buffer(&mut buf, 3);
    assert_eq!(buf.len(), 5);
}

#[test]
fn goblin_retries_after_one_second() {
    let mut r = RetryMoveToTarget::new();
    assert!(!r.tick(600 * MS));
    assert!(r.tick(400 * MS));
    assert!(!r.tick(400 * MS));
}

#[test]
fn starting_action_cancels_listed_actions() {
    let mut started = ActionPlayer::new(1u8);
    started.start();
    let mut running = ActionPlayer::new(2u8);
    running.start();
    running.apply_start();
    let mut unlisted = ActionPlayer::new(3u8);
    unlisted.start();
    unlisted.apply_start();
    let mut idle = ActionPlayer::new(4u8);
    let cancels = [20u64, 40];
    started.apply_start();
    running.apply_cancel(20, &cancels);
    unlisted.apply_cancel(30, &cancels);
    idle.apply_cancel(40, &cancels);
    assert!(started.is_active());
    assert_eq!(running.announce(), ActionAnnouncement { start: false, stop: true, change: false });
    assert!(unlisted.is_active());
    assert_eq!(idle.announce(), ActionAnnouncement { start: false, stop: false, change: false });
}

#[test]
fn void_spell_hits_after_four_fifths_and_vanishes() {
    let mut v = VoidSpell::new(1000 * MS, 7);
    assert_eq!(v.step(800 * MS), VoidEffects { despawn: false, spawn_hitbox: false });
    assert_eq!(v.step(MS), VoidEffects { despawn: false, spawn_hitbox: true });
    assert_eq!(v.step(MS), VoidEffects { despawn: false, spawn_hitbox: true });
    assert_eq!(v.step(500 * MS), VoidEffects { despawn: true, spawn_hitbox: true });
    assert_eq!(v.step(MS), VoidEffects { despawn: false, spawn_hitbox: true });
    assert_eq!(v.caster, 7);
}

#[test]
fn creature_ai_picks_first_hostile_candidate_and_loses_it() {
    let goblins_only = CreatureFaction::from_bits_retain(CreatureFaction::GOBLIN);
    let candidates = vec![
        AiCandidate { id: 1, faction: CreatureFaction::PLAYER, in_range: true, position: (0, 0) },
        AiCandidate { id: 2, faction: CreatureFaction::GOBLIN, in_range: false, position: (1, 1) },
        AiCandidate { id: 3, faction: CreatureFaction::GOBLIN, in_range: true, position: (2, 2) },
    ];
    let mut s: CreatureAiState<(i32, i32)> = CreatureAiState::Idle;
    s.update(CreatureFaction::empty(), &candidates, None);
    assert!(matches!(s, CreatureAiState::Idle));
    s.update(goblins_only, &candidates, None);
    assert!(matches!(s, CreatureAiState::Aggro { target: 3, position: (2, 2) }));
    s.update(goblins_only, &candidates, Some(TargetStatus { within_aggro_range: true, position: (5, 5) }));
    assert!(matches!(s, CreatureAiState::Aggro { target: 3, position: (5, 5) }));
    s.update(goblins_only, &candidates, Some(TargetStatus { within_aggro_range: false, position: (9, 9) }));
    assert!(matches!(s, CreatureAiState::Idle));
    let both = goblins_only.union(CreatureFaction::from_bits_retain(CreatureFaction::PLAYER));
    s.update(both, &candidates, None);
    assert!(matches!(s, CreatureAiState::Aggro { target: 1, .. }));
    s.update(both, &candidates, None);
    assert!(matches!(s, CreatureAiState::Idle));
}
