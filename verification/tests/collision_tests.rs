use simcore::collision::{test_pair, collision_system, ColliderEntry, ColliderKind};
use simcore::components::{Collider, Restitution, Static, Velocity, NoSelfCollision, GravityAffected};
use simcore::math::Vec3;
use simcore::world::{Body, World};

fn entry(entity: usize, position: Vec3, kind: ColliderKind) -> ColliderEntry {
    ColliderEntry { entity, position, collider_kind: kind, body_owner: None }
}

#[test]
fn sphere_plane_hit_and_canonicalization() {
    let sphere = entry(7, Vec3::new(0, 500, 0), ColliderKind::Sphere { radius: 1000 });
    let plane = entry(
        9,
        Vec3::new(0, 0, 0),
        ColliderKind::Plane { normal: Vec3::new(0, 1000, 0), offset: 0 },
    );
    let ev = test_pair(&sphere, &plane).expect("overlap");
    assert_eq!(ev.entity_a, 7);
    assert_eq!(ev.entity_b, 9);
    assert_eq!(ev.penetration_depth, 500);
    assert_eq!(ev.contact_normal, Vec3::new(0, -1000, 0));
    // Swapped call order: the plane pair is canonicalized, so the very same
    // event comes back, sphere still named first.
    let ev2 = test_pair(&plane, &sphere).expect("overlap");
    assert_eq!(ev2.entity_a, 7);
    assert_eq!(ev2.entity_b, 9);
    assert_eq!(ev2.penetration_depth, 500);
    assert_eq!(ev2.contact_normal, Vec3::new(0, -1000, 0));
}

#[test]
fn sphere_sphere_swap_negates_normal() {
    let a = entry(1, Vec3::new(0, 0, 0), ColliderKind::Sphere { radius: 1000 });
    let b = entry(2, Vec3::new(1500, 0, 0), ColliderKind::Sphere { radius: 1000 });
    let ev = test_pair(&a, &b).expect("overlap");
    assert_eq!(ev.entity_a, 1);
    assert_eq!(ev.entity_b, 2);
    assert_eq!(ev.penetration_depth, 500);
    assert_eq!(ev.contact_normal, Vec3::new(1000, 0, 0));
    let ev2 = test_pair(&b, &a).expect("overlap");
    assert_eq!(ev2.entity_a, 2);
    assert_eq!(ev2.entity_b, 1);
    assert_eq!(ev2.penetration_depth, 500);
    assert_eq!(ev2.contact_normal, Vec3::new(-1000, 0, 0));
}

#[test]
fn sphere_penetration_decreases_with_distance() {
    let a = entry(1, Vec3::new(0, 0, 0), ColliderKind::Sphere { radius: 1000 });
    let mut last_pen = i64::MAX;
    for (x, expect_some) in [(1500i64, true), (1700, true), (1900, true), (2000, false)] {
        let b = entry(2, Vec3::new(x, 0, 0), ColliderKind::Sphere { radius: 1000 });
        let ev = test_pair(&a, &b);
        if expect_some {
            let pen = ev.expect("overlap").penetration_depth;
            assert!(pen < last_pen);
            assert_eq!(pen, 2000 - x);
            last_pen = pen;
        } else {
            // Exactly zero penetration at distance r1 + r2: no event.
            assert!(ev.is_none());
        }
    }
}

#[test]
fn capsule_plane_uses_nearer_cap() {
    let capsule = entry(
        3,
        Vec3::new(0, 1400, 0),
        ColliderKind::Capsule { radius: 300, half_height: 1200 },
    );
    let plane = entry(
        4,
        Vec3::new(0, 0, 0),
        ColliderKind::Plane { normal: Vec3::new(0, 1000, 0), offset: 0 },
    );
    // Bottom cap center at y=200, so penetration = 300 - 200 = 100.
    let ev = test_pair(&capsule, &plane).expect("overlap");
    assert_eq!(ev.penetration_depth, 100);
    assert_eq!(ev.contact_normal, Vec3::new(0, -1000, 0));
}

#[test]
fn box_sphere_outside_and_inside() {
    let bx = entry(
        5,
        Vec3::new(0, 0, 0),
        ColliderKind::Box { half_extents: Vec3::new(1000, 1000, 1000) },
    );
    let outside = entry(6, Vec3::new(1500, 0, 0), ColliderKind::Sphere { radius: 1000 });
    let ev = test_pair(&bx, &outside).expect("overlap");
    assert_eq!(ev.penetration_depth, 500);
    assert_eq!(ev.contact_normal, Vec3::new(1000, 0, 0));
    // Sphere center inside the box: push out along the least-penetrated
    // face, tie-broken toward X.
    let inside = entry(6, Vec3::new(600, 0, 0), ColliderKind::Sphere { radius: 200 });
    let ev2 = test_pair(&bx, &inside).expect("overlap");
    assert_eq!(ev2.contact_normal, Vec3::new(1000, 0, 0));
    assert_eq!(ev2.penetration_depth, 400 + 200);
    // Reversed order: same axis, negated normal.
    let ev3 = test_pair(&inside, &bx).expect("overlap");
    assert_eq!(ev3.contact_normal, Vec3::new(-1000, 0, 0));
    assert_eq!(ev3.penetration_depth, 600);
}

#[test]
fn box_box_min_axis() {
    let a = entry(
        1,
        Vec3::new(0, 0, 0),
        ColliderKind::Box { half_extents: Vec3::new(1000, 1000, 1000) },
    );
    let b = entry(
        2,
        Vec3::new(1500, 200, 300), 
        ColliderKind::Box { half_extents: Vec3::new(1000, 1000, 1000) },
    );
    let ev = test_pair(&a, &b).expect("overlap");
    assert_eq!(ev.penetration_depth, 500);
    assert_eq!(ev.contact_normal, Vec3::new(1000, 0, 0));
    let ev2 = test_pair(&b, &a).expect("overlap");
    assert_eq!(ev2.contact_normal, Vec3::new(-1000, 0, 0));
}

fn dynamic_sphere(pos: Vec3, radius: i64) -> Body {
    let mut b = Body::new(pos);
    b.collider = Some(Collider::Sphere { radius });
    b.velocity = Some(Velocity(Vec3::new(0, 0, 0)));
    b
}

#[test]
fn same_owner_pairs_are_exempt() {
    let mut w = World::new();
    let mut a = dynamic_sphere(Vec3::new(0, 0, 0), 1000);
    a.owner = Some(NoSelfCollision(0));
    let mut b = dynamic_sphere(Vec3::new(500, 0, 0), 1000);
    b.owner = Some(NoSelfCollision(0));
    w.spawn(a);
    w.spawn(b);
    let events = collision_system(&mut w);
    assert!(events.is_empty());
    // Different owners: the same overlap now produces exactly one event.
    w.bodies[1].owner = Some(NoSelfCollision(1));
    let events = collision_system(&mut w);
    assert_eq!(events.len(), 1);
}

#[test]
fn static_plane_is_never_moved() {
    let mut w = World::new();
    let mut plane = Body::new(Vec3::new(0, 0, 0));
    plane.collider = Some(Collider::Plane { normal: Vec3::new(0, 1000, 0), offset: 0 });
    plane.static_body = Some(Static);
    w.spawn(plane);
    let mut sphere = dynamic_sphere(Vec3::new(0, 500, 0), 1000);
    sphere.velocity = Some(Velocity(Vec3::new(0, -2000, 0)));
    sphere.gravity = Some(GravityAffected);
    w.spawn(sphere);
    let before_plane = (w.bodies[0].local.position, w.bodies[0].global.position);
    let events = collision_system(&mut w);
    assert_eq!(events.len(), 1);
    // The plane's transform is untouched; only the sphere was pushed out.
    assert_eq!(w.bodies[0].local.position, before_plane.0);
    assert_eq!(w.bodies[0].global.position, before_plane.1);
    assert_eq!(w.bodies[1].local.position, Vec3::new(0, 1000, 0));
}

#[test]
fn rest_threshold_zeroes_normal_velocity() {
    let mut w = World::new();
    let mut plane = Body::new(Vec3::new(0, 0, 0));
    plane.collider = Some(Collider::Plane { normal: Vec3::new(0, 1000, 0), offset: 0 });
    plane.static_body = Some(Static);
    w.spawn(plane);
    // Approach speed 0.4 units/s, below the 0.5 rest threshold: the normal
    // component is zeroed, not reflected.
    let mut sphere = dynamic_sphere(Vec3::new(0, 900, 0), 1000);
    sphere.velocity = Some(Velocity(Vec3::new(0, -400, 0)));
    w.spawn(sphere);
    collision_system(&mut w);
    let v = w.bodies[1].velocity.unwrap().0;
    assert_eq!(v.y, 0);
    // Fast approach: reflected upward with restitution instead.
    let mut w2 = World::new();
    let mut plane2 = Body::new(Vec3::new(0, 0, 0));
    plane2.collider = Some(Collider::Plane { normal: Vec3::new(0, 1000, 0), offset: 0 });
    plane2.static_body = Some(Static);
    w2.spawn(plane2);
    let mut sphere2 = dynamic_sphere(Vec3::new(0, 900, 0), 1000);
    sphere2.restitution = Some(Restitution(300));
    sphere2.velocity = Some(Velocity(Vec3::new(0, -2000, 0)));
    w2.spawn(sphere2);
    collision_system(&mut w2);
    let v2 = w2.bodies[1].velocity.unwrap().0;
    assert!(v2.y > 0);
}

#[test]
fn dynamic_pair_splits_correction() {
    let mut w = World::new();
    w.spawn(dynamic_sphere(Vec3::new(0, 0, 0), 1000));
    w.spawn(dynamic_sphere(Vec3::new(1000, 0, 0), 1000));
    let events = collision_system(&mut w);
    assert_eq!(events.len(), 1);
    // Penetration 1000 split 50/50 along +X.
    assert_eq!(w.bodies[0].local.position.x, -500);
    assert_eq!(w.bodies[1].local.position.x, 1500);
}
