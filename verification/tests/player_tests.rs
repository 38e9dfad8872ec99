use simcore::components::{CollisionEvent, Grounded, Player, PlayerState, Velocity};
use simcore::fsm::StateMachine;
use simcore::math::Vec3;
use simcore::player::{
    check_global_transitions, grounded_system, player_movement_system, player_state_system,
    PlayerCtx, DASH_DURATION, LANDING_DURATION, PLAYER_RUN_SPEED, PLAYER_WALK_SPEED, JUMP_IMPULSE,
};
use simcore::world::{Body, World};

fn ctx(moving: bool, sprinting: bool, jump_held: bool, grounded: bool, vy: i64) -> PlayerCtx {
    PlayerCtx {
        moving,
        sprinting,
        jump_held,
        grounded,
        velocity: Vec3::new(0, vy, 0),
        dt: 16_667,
    }
}

#[test]
fn locomotion_transitions() {
    assert_eq!(
        PlayerState::Idle.next(&ctx(true, false, false, true, 0)),
        Some(PlayerState::Walking)
    );
    assert_eq!(PlayerState::Idle.next(&ctx(false, false, false, true, 0)), None);
    assert_eq!(
        PlayerState::Walking.next(&ctx(true, true, false, true, 0)),
        Some(PlayerState::Running)
    );
    assert_eq!(
        PlayerState::Walking.next(&ctx(false, false, false, true, 0)),
        Some(PlayerState::Idle)
    );
    assert_eq!(
        PlayerState::Running.next(&ctx(true, false, false, true, 0)),
        Some(PlayerState::Walking)
    );
}

#[test]
fn timed_states_expire() {
    let dashing = PlayerState::Dashing {
        direction: Vec3::new(1000, 0, 0),
        timer: DASH_DURATION,
        cooldown_remaining: 0,
    };
    assert_eq!(dashing.next(&ctx(false, false, false, false, 0)), Some(PlayerState::Falling));
    let landing = PlayerState::Landing { timer: LANDING_DURATION };
    assert_eq!(landing.next(&ctx(false, false, false, true, 0)), Some(PlayerState::Idle));
    let landing_short = PlayerState::Landing { timer: LANDING_DURATION - 1 };
    assert_eq!(landing_short.next(&ctx(false, false, false, true, 0)), None);
}

#[test]
fn jump_cut_and_fall() {
    let jumping = PlayerState::Jumping { has_released_jump: false };
    // Velocity turned non-positive: fall.
    assert_eq!(jumping.next(&ctx(false, false, true, false, 0)), Some(PlayerState::Falling));
    // Key released early: fall even while ascending.
    assert_eq!(jumping.next(&ctx(false, false, false, false, 3000)), Some(PlayerState::Falling));
    // Still ascending with the key held: stay.
    assert_eq!(jumping.next(&ctx(false, false, true, false, 3000)), None);
    // Falling ends on ground contact, entering Landing.
    assert_eq!(
        PlayerState::Falling.next(&ctx(false, false, false, true, 0)),
        Some(PlayerState::Landing { timer: 0 })
    );
}

#[test]
fn move_speed_and_jump_permission() {
    assert_eq!(PlayerState::Idle.move_speed(), Some(0));
    assert_eq!(PlayerState::Walking.move_speed(), Some(PLAYER_WALK_SPEED));
    assert_eq!(PlayerState::Running.move_speed(), Some(PLAYER_RUN_SPEED));
    assert_eq!(PlayerState::Falling.move_speed(), None);
    assert_eq!(PlayerState::Landing { timer: 0 }.move_speed(), None);
    assert!(PlayerState::Idle.can_jump());
    assert!(PlayerState::Landing { timer: 0 }.can_jump());
    assert!(!PlayerState::Falling.can_jump());
    assert!(PlayerState::Jumping { has_released_jump: false }.is_airborne());
    assert!(PlayerState::Falling.is_airborne());
    assert!(!PlayerState::Running.is_airborne());
}

#[test]
fn global_transitions() {
    // Grounded with jump held: jump, from any jump-permitting state.
    assert_eq!(
        check_global_transitions(&PlayerState::Idle, true, true),
        Some(PlayerState::Jumping { has_released_jump: false })
    );
    // Walked off a ledge: locomotion states fall.
    assert_eq!(
        check_global_transitions(&PlayerState::Walking, false, false),
        Some(PlayerState::Falling)
    );
    // Airborne states are not re-triggered.
    assert_eq!(check_global_transitions(&PlayerState::Falling, false, false), None);
}

#[test]
fn state_machine_container() {
    let mut fsm = StateMachine::new(PlayerState::Idle);
    assert!(fsm.just_entered());
    fsm.tick(10_000);
    assert!(!fsm.just_entered());
    assert_eq!(fsm.elapsed, 10_000);
    fsm.go(PlayerState::Walking);
    assert!(fsm.just_entered());
    assert_eq!(fsm.elapsed, 0);
    assert!(matches!(fsm.previous, PlayerState::Idle));
    // Same-variant go is a no-op.
    fsm.tick(5_000);
    fsm.go(PlayerState::Walking);
    assert_eq!(fsm.elapsed, 5_000);
    // force_go always transitions.
    fsm.force_go(PlayerState::Walking);
    assert_eq!(fsm.elapsed, 0);
}

#[test]
fn jump_applies_impulse() {
    let mut w = World::new();
    let mut b = Body::new(Vec3::new(0, 0, 0));
    b.velocity = Some(Velocity(Vec3::new(500, 0, 0)));
    b.player = Some(Player);
    b.grounded = Some(Grounded);
    let p = w.spawn(b);
    let mut fsm = StateMachine::new(PlayerState::Idle);
    player_state_system(&mut w, p, &mut fsm, false, false, true, 16_667);
    assert!(matches!(fsm.state, PlayerState::Jumping { .. }));
    let v = w.bodies[p].velocity.unwrap().0;
    assert_eq!(v.y, JUMP_IMPULSE);
    assert_eq!(v.x, 500);
}

#[test]
fn ground_movement_overrides_horizontal_velocity() {
    let mut w = World::new();
    let mut b = Body::new(Vec3::new(0, 0, 0));
    b.velocity = Some(Velocity(Vec3::new(0, -100, 0)));
    b.player = Some(Player);
    let p = w.spawn(b);
    let fsm = StateMachine::new(PlayerState::Running);
    player_movement_system(&mut w, p, &fsm, Vec3::new(1000, 0, 0), None, 1000, 16_667);
    let v = w.bodies[p].velocity.unwrap().0;
    assert_eq!(v.x, PLAYER_RUN_SPEED);
    assert_eq!(v.y, -100);
    assert_eq!(v.z, 0);
}

#[test]
fn locked_states_keep_momentum() {
    let mut w = World::new();
    let mut b = Body::new(Vec3::new(0, 0, 0));
    b.velocity = Some(Velocity(Vec3::new(4000, 0, 0)));
    b.player = Some(Player);
    let p = w.spawn(b);
    let fsm = StateMachine::new(PlayerState::Landing { timer: 0 });
    player_movement_system(&mut w, p, &fsm, Vec3::new(0, 0, 1000), None, 1000, 16_667);
    let v = w.bodies[p].velocity.unwrap().0;
    assert_eq!(v, Vec3::new(4000, 0, 0));
}

#[test]
fn grounded_persists_when_no_tick_ran() {
    let mut w = World::new();
    let mut b = Body::new(Vec3::new(0, 0, 0));
    b.player = Some(Player);
    b.grounded = Some(Grounded);
    let p = w.spawn(b);
    let events: Vec<CollisionEvent> = Vec::new();
    // Zero physics ticks: the marker must survive even with no events.
    grounded_system(&mut w, &events, 0);
    assert!(w.bodies[p].grounded.is_some());
    // A tick ran with no contacts: the marker is cleared.
    grounded_system(&mut w, &events, 1);
    assert!(w.bodies[p].grounded.is_none());
}

#[test]
fn grounded_requires_upward_normal() {
    let mut w = World::new();
    let mut b = Body::new(Vec3::new(0, 0, 0));
    b.player = Some(Player);
    let p = w.spawn(b);
    // Contact normal pointing down from the player toward the ground:
    // an upward support, so the player is grounded.
    let ground_contact = CollisionEvent {
        entity_a: p,
        entity_b: p,
        contact_normal: Vec3::new(0, -1000, 0),
        penetration_depth: 10,
    };
    grounded_system(&mut w, &vec![ground_contact], 1);
    assert!(w.bodies[p].grounded.is_some());
    // A sideways contact does not ground.
    let wall_contact = CollisionEvent {
        entity_a: p,
        entity_b: p,
        contact_normal: Vec3::new(1000, 0, 0),
        penetration_depth: 10,
    };
    grounded_system(&mut w, &vec![wall_contact], 1);
    assert!(w.bodies[p].grounded.is_none());
}
