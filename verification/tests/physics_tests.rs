use simcore::components::{Collider, GravityAffected, Static, Velocity, Drag, Acceleration};
use simcore::math::Vec3;
use simcore::physics::{physics_system, PHYSICS_DT_US};
use simcore::world::{Body, World};

fn falling_sphere(y: i64) -> Body {
    let mut b = Body::new(Vec3::new(0, y, 0));
    b.collider = Some(Collider::Sphere { radius: 300 });
    b.velocity = Some(Velocity(Vec3::new(0, 0, 0)));
    b.gravity = Some(GravityAffected);
    b
}

#[test]
fn one_tick_of_gravity_is_exact() {
    let mut w = World::new();
    w.spawn(falling_sphere(10_000));
    let mut acc: u64 = 0;
    let (_events, alpha, ticks) = physics_system(&mut w, &mut acc, PHYSICS_DT_US);
    assert_eq!(ticks, 1);
    assert_eq!(alpha, 0);
    assert_eq!(acc, 0);
    // One step of gravity: -9810 * 16667 / 1_000_000 = -163 milli-units/s,
    // then one step of position: -163 * 16667 / 1_000_000 = -2 milli-units.
    let v = w.bodies[0].velocity.unwrap().0;
    assert_eq!(v.y, -163);
    assert_eq!(w.bodies[0].local.position.y, 9_998);
    assert_eq!(w.bodies[0].prev_position.unwrap().0.y, 10_000);
}

#[test]
fn accumulator_ticks_match_total_time() {
    // 100 ms in one chunk.
    let mut w1 = World::new();
    w1.spawn(falling_sphere(10_000));
    let mut acc1: u64 = 0;
    let (_e, _a, t1) = physics_system(&mut w1, &mut acc1, 100_000);
    // The same 100 ms split across three frames.
    let mut w2 = World::new();
    w2.spawn(falling_sphere(10_000));
    let mut acc2: u64 = 0;
    let mut t2 = 0usize;
    for dt in [33_333u64, 33_333, 33_334] {
        let (_e, _a, t) = physics_system(&mut w2, &mut acc2, dt);
        t2 += t;
    }
    assert_eq!(t1, 100_000 / PHYSICS_DT_US as usize);
    assert_eq!(t1, t2);
    assert_eq!(acc1, acc2);
    // Identical simulation state either way: exact determinism.
    assert_eq!(w1.bodies[0].local.position, w2.bodies[0].local.position);
    assert_eq!(
        w1.bodies[0].velocity.unwrap().0,
        w2.bodies[0].velocity.unwrap().0
    );
}

#[test]
fn alpha_is_leftover_fraction() {
    let mut w = World::new();
    let mut acc: u64 = 0;
    let (_e, alpha, ticks) = physics_system(&mut w, &mut acc, 25_000);
    assert_eq!(ticks, 1);
    assert_eq!(acc, 25_000 - PHYSICS_DT_US);
    assert_eq!(alpha, (acc as i64 * 1000) / PHYSICS_DT_US as i64);
    assert!(alpha >= 0 && alpha < 1000);
}

#[test]
fn zero_ticks_leave_world_untouched() {
    let mut w = World::new();
    w.spawn(falling_sphere(10_000));
    let mut acc: u64 = 0;
    let (events, _alpha, ticks) = physics_system(&mut w, &mut acc, 10_000);
    assert_eq!(ticks, 0);
    assert!(events.is_empty());
    assert_eq!(w.bodies[0].local.position.y, 10_000);
    assert_eq!(w.bodies[0].velocity.unwrap().0.y, 0);
}

#[test]
fn drag_damps_velocity() {
    let mut w = World::new();
    let mut b = Body::new(Vec3::new(0, 0, 0));
    b.velocity = Some(Velocity(Vec3::new(6000, 0, 0)));
    b.drag = Some(Drag(2000)); // 2.0/s
    w.spawn(b);
    let mut acc: u64 = 0;
    physics_system(&mut w, &mut acc, PHYSICS_DT_US);
    // damping = 1000 - 2000*16667/1_000_000 = 1000 - 33 = 967
    let v = w.bodies[0].velocity.unwrap().0;
    assert_eq!(v.x, 6000 * 967 / 1000);
}

#[test]
fn acceleration_adds_velocity() {
    let mut w = World::new();
    let mut b = Body::new(Vec3::new(0, 0, 0));
    b.velocity = Some(Velocity(Vec3::new(0, 0, 0)));
    b.acceleration = Some(Acceleration(Vec3::new(3000, 0, 0)));
    w.spawn(b);
    let mut acc: u64 = 0;
    physics_system(&mut w, &mut acc, PHYSICS_DT_US);
    let v = w.bodies[0].velocity.unwrap().0;
    // 3000 * 16667 / 1_000_000 = 50
    assert_eq!(v.x, 50);
}

#[test]
fn falling_sphere_comes_to_rest_on_plane() {
    let mut w = World::new();
    let mut plane = Body::new(Vec3::new(0, 0, 0));
    plane.collider = Some(Collider::Plane { normal: Vec3::new(0, 1000, 0), offset: 0 });
    plane.static_body = Some(Static);
    w.spawn(plane);
    w.spawn(falling_sphere(3_000));
    let mut acc: u64 = 0;
    for _ in 0..600 {
        let (_events, alpha, _ticks) = physics_system(&mut w, &mut acc, PHYSICS_DT_US);
        w.transform_propagation_system(alpha);
    }
    // The sphere settles resting exactly on the plane, its vertical bounce
    // fully damped by the rest-velocity threshold.
    let y = w.bodies[1].local.position.y;
    assert!((y - 300).abs() <= 5, "resting y = {}", y);
    assert!(w.bodies[1].velocity.unwrap().0.y.abs() < 500);
}
