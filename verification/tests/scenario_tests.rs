use simcore::components::{Collider, GravityAffected, Grounded, Player, PlayerState, Static, Velocity};
use simcore::fsm::StateMachine;
use simcore::math::Vec3;
use simcore::physics::{physics_system, PHYSICS_DT_US};
use simcore::player::{grounded_system, player_state_system};
use simcore::world::{Body, World};

/// Player capsule (radius 0.3, height 2.4) spawned at y = 10 above a ground
/// plane at y = 0: free fall closes the gap, the locomotion machine runs
/// Falling -> Landing -> Idle, the player becomes grounded, and the capsule
/// comes to rest exactly on the plane.
#[test]
fn falling_player_lands_and_idles() {
    let mut w = World::new();
    let mut ground = Body::new(Vec3::new(0, 0, 0));
    ground.collider = Some(Collider::Plane { normal: Vec3::new(0, 1000, 0), offset: 0 });
    ground.static_body = Some(Static);
    w.spawn(ground);
    let mut player = Body::new(Vec3::new(0, 10_000, 0));
    player.collider = Some(Collider::Capsule { radius: 300, height: 2_400 });
    player.velocity = Some(Velocity(Vec3::new(0, 0, 0)));
    player.gravity = Some(GravityAffected);
    player.player = Some(Player);
    let p = w.spawn(player);

    let mut fsm = StateMachine::new(PlayerState::Falling);
    let mut acc: u64 = 0;
    let mut saw_landing = false;
    for _ in 0..600 {
        let (events, alpha, ticks) = physics_system(&mut w, &mut acc, PHYSICS_DT_US);
        grounded_system(&mut w, &events, ticks);
        player_state_system(&mut w, p, &mut fsm, false, false, false, PHYSICS_DT_US);
        w.transform_propagation_system(alpha);
        if matches!(fsm.state, PlayerState::Landing { .. }) {
            saw_landing = true;
        }
    }
    assert!(saw_landing);
    assert!(matches!(fsm.state, PlayerState::Idle));
    assert!(w.bodies[p].grounded.is_some());
    // At rest the lower hemisphere cap touches the plane: the capsule center
    // sits at half height plus radius, within half the radius of exact.
    let y = w.bodies[p].local.position.y;
    assert!((y - 1_500).abs() <= 150, "resting y = {}", y);
    assert!(w.bodies[p].velocity.unwrap().0.y.abs() < 500);
}

/// Jump from idle: the impulse carries the player up, the machine runs
/// Jumping -> Falling -> Landing -> Idle, and ground is re-acquired.
#[test]
fn jump_cycle_returns_to_idle() {
    let mut w = World::new();
    let mut ground = Body::new(Vec3::new(0, 0, 0));
    ground.collider = Some(Collider::Plane { normal: Vec3::new(0, 1000, 0), offset: 0 });
    ground.static_body = Some(Static);
    w.spawn(ground);
    let mut player = Body::new(Vec3::new(0, 1_500, 0));
    player.collider = Some(Collider::Capsule { radius: 300, height: 2_400 });
    player.velocity = Some(Velocity(Vec3::new(0, 0, 0)));
    player.gravity = Some(GravityAffected);
    player.player = Some(Player);
    player.grounded = Some(Grounded);
    let p = w.spawn(player);

    let mut fsm = StateMachine::new(PlayerState::Idle);
    let mut acc: u64 = 0;
    let mut max_y = 0i64;
    let mut saw_jumping = false;
    let mut saw_falling = false;
    for frame in 0..600 {
        // Hold the jump key only on the first frame and release it after,
        // exercising the jump-cut transition.
        let jump_held = frame == 0;
        player_state_system(&mut w, p, &mut fsm, false, false, jump_held, PHYSICS_DT_US);
        let (events, alpha, ticks) = physics_system(&mut w, &mut acc, PHYSICS_DT_US);
        grounded_system(&mut w, &events, ticks);
        w.transform_propagation_system(alpha);
        if matches!(fsm.state, PlayerState::Jumping { .. }) {
            saw_jumping = true;
        }
        if matches!(fsm.state, PlayerState::Falling) {
            saw_falling = true;
        }
        max_y = max_y.max(w.bodies[p].local.position.y);
    }
    assert!(saw_jumping);
    assert!(saw_falling);
    assert!(max_y > 1_600, "jump apex = {}", max_y);
    assert!(matches!(fsm.state, PlayerState::Idle));
    assert!(w.bodies[p].grounded.is_some());
}
