use simcore::collision::sweep_sphere_static;
use simcore::components::{Collider, Grabbable, GrabState, Static, Velocity};
use simcore::grab::{
    grab_throw_system, GrabInput, MAX_WIND_UP_TIME, WIND_UP_MOVE_SLOWDOWN,
};
use simcore::math::{Rot, Vec3, SCALE};
use simcore::raycast::{raycast_grabbable, raycast_static};
use simcore::world::{Body, World};

fn idle_input() -> GrabInput {
    GrabInput {
        grab_pressed: false,
        throw_released: false,
        modifier_held: false,
        grab_held: false,
        wind_held: false,
    }
}

fn grab_input() -> GrabInput {
    GrabInput { grab_pressed: true, modifier_held: true, grab_held: true, ..idle_input() }
}

fn world_with_ball() -> (World, usize, usize) {
    let mut w = World::new();
    let player = w.spawn(Body::new(Vec3::new(0, 0, 0)));
    let mut ball = Body::new(Vec3::new(0, 500, 2000));
    ball.collider = Some(Collider::Sphere { radius: 300 });
    ball.grabbable = Some(Grabbable);
    ball.velocity = Some(Velocity(Vec3::new(0, 0, 0)));
    let b = w.spawn(ball);
    (w, player, b)
}

#[test]
fn raycast_hits_nearest_grabbable() {
    let (w, _p, b) = world_with_ball();
    let hit = raycast_grabbable(&w, Vec3::new(0, 500, 0), Vec3::new(0, 0, 1000), 5000)
        .expect("hit");
    assert_eq!(hit.entity, b);
    assert_eq!(hit.distance, 1700);
    assert_eq!(hit.point, Vec3::new(0, 500, 1700));
    // Out of range: no hit.
    assert!(raycast_grabbable(&w, Vec3::new(0, 500, 0), Vec3::new(0, 0, 1000), 1000).is_none());
}

#[test]
fn raycast_static_reports_nearest_wall() {
    let mut w = World::new();
    let mut wall = Body::new(Vec3::new(0, 0, 3000));
    wall.collider = Some(Collider::Box { half_extents: Vec3::new(1000, 1000, 500) });
    wall.static_body = Some(Static);
    w.spawn(wall);
    let t = raycast_static(&w, Vec3::new(0, 0, 0), Vec3::new(0, 0, 1000), 10_000).expect("hit");
    assert_eq!(t, 2500);
}

#[test]
fn grab_then_drop_restores_world_pose() {
    let (mut w, player, ball) = world_with_ball();
    let mut grab = GrabState::new();
    let pre_pos = w.bodies[ball].local.position;
    let pre_rot = w.bodies[ball].local.rotation;
    // Grab: right press with the modifier held, looking along +Z.
    let m = grab_throw_system(
        &mut w,
        &mut grab,
        player,
        &grab_input(),
        Vec3::new(0, 0, 1000),
        Rot::identity(),
        16_667,
    );
    assert_eq!(m, SCALE);
    assert_eq!(grab.held_entity, Some(ball));
    assert_eq!(w.bodies[ball].parent, Some(player));
    assert!(w.bodies[ball].held.is_some());
    // The world pose the renderer sees is unchanged by the re-parenting.
    w.transform_propagation_system(0);
    assert_eq!(w.bodies[ball].global.position, pre_pos);
    // Drop immediately: releasing the modifier drops the object, restoring
    // its pre-grab world position and orientation exactly.
    let m2 = grab_throw_system(
        &mut w,
        &mut grab,
        player,
        &idle_input(),
        Vec3::new(0, 0, 1000),
        Rot::identity(),
        16_667,
    );
    assert_eq!(m2, SCALE);
    assert_eq!(grab.held_entity, None);
    assert_eq!(w.bodies[ball].parent, None);
    assert!(w.bodies[ball].held.is_none());
    assert_eq!(w.bodies[ball].local.position, pre_pos);
    assert_eq!(w.bodies[ball].local.rotation, pre_rot);
}

#[test]
fn wind_up_clamps_and_slows_movement() {
    let (mut w, player, ball) = world_with_ball();
    let mut grab = GrabState::new();
    grab_throw_system(
        &mut w,
        &mut grab,
        player,
        &grab_input(),
        Vec3::new(0, 0, 1000),
        Rot::identity(),
        16_667,
    );
    assert_eq!(grab.held_entity, Some(ball));
    w.transform_propagation_system(0);
    let winding = GrabInput { wind_held: true, ..grab_input() };
    let mut last = 0;
    for _ in 0..100 {
        last = grab_throw_system(
            &mut w,
            &mut grab,
            player,
            &winding,
            Vec3::new(0, 0, 1000),
            Rot::identity(),
            16_667,
        );
    }
    assert_eq!(last, WIND_UP_MOVE_SLOWDOWN);
    assert!(grab.is_winding);
    assert_eq!(grab.wind_up_time, MAX_WIND_UP_TIME);
}

#[test]
fn throw_applies_forward_velocity() {
    let (mut w, player, ball) = world_with_ball();
    let mut grab = GrabState::new();
    grab_throw_system(
        &mut w,
        &mut grab,
        player,
        &grab_input(),
        Vec3::new(0, 0, 1000),
        Rot::identity(),
        16_667,
    );
    w.transform_propagation_system(0);
    // One frame of wind-up, then release the throw button.
    let winding = GrabInput { wind_held: true, ..grab_input() };
    grab_throw_system(
        &mut w,
        &mut grab,
        player,
        &winding,
        Vec3::new(0, 0, 1000),
        Rot::identity(),
        16_667,
    );
    let release = GrabInput { throw_released: true, ..grab_input() };
    let m = grab_throw_system(
        &mut w,
        &mut grab,
        player,
        &release,
        Vec3::new(0, 0, 1000),
        Rot::identity(),
        16_667,
    );
    assert_eq!(m, SCALE);
    assert_eq!(grab.held_entity, None);
    assert!(w.bodies[ball].held.is_none());
    let v = w.bodies[ball].velocity.unwrap().0;
    // Thrown along the view direction with a force between the bounds.
    assert!(v.z >= 5000 && v.z <= 20_000);
    assert_eq!(v.x, 0);
}

#[test]
fn sweep_blocked_and_clear() {
    let mut w = World::new();
    let mut wall = Body::new(Vec3::new(0, 500, 0));
    wall.collider = Some(Collider::Box { half_extents: Vec3::new(500, 500, 500) });
    wall.static_body = Some(Static);
    w.spawn(wall);
    let skip: Vec<usize> = Vec::new();
    // Straight path through the box: blocked well before the full motion.
    let t = sweep_sphere_static(&w, 300, Vec3::new(0, 500, -2000), Vec3::new(0, 0, 4000), &skip);
    assert_eq!(t, 300);
    assert!(t < SCALE);
    // Path pointing away from the box: the full motion is safe.
    let t2 = sweep_sphere_static(&w, 300, Vec3::new(0, 500, -2000), Vec3::new(0, 0, -4000), &skip);
    assert_eq!(t2, SCALE);
    // No obstacles at all: the full motion is safe.
    let empty = World::new();
    let t3 = sweep_sphere_static(&empty, 300, Vec3::new(0, 500, 0), Vec3::new(0, 0, 4000), &skip);
    assert_eq!(t3, SCALE);
}
