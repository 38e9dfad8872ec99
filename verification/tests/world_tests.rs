use simcore::components::{PreviousPosition, SwordPosition};
use simcore::math::{Rot, Vec3};
use simcore::world::{contains_id, find_id, Body, World};

#[test]
fn spawn_and_roots() {
    let mut w = World::new();
    let a = w.spawn(Body::new(Vec3::new(1000, 0, 0)));
    let b = w.spawn(Body::new(Vec3::new(0, 2000, 0)));
    assert_eq!(w.len(), 2);
    assert_eq!(w.find_physics_root(a), a);
    assert_eq!(w.find_physics_root(b), b);
}

#[test]
fn child_attachment_and_root_lookup() {
    let mut w = World::new();
    let parent = w.spawn(Body::new(Vec3::new(0, 0, 0)));
    let child = w.spawn(Body::new(Vec3::new(500, 0, 0)));
    w.add_child(parent, child);
    assert_eq!(w.bodies[child].parent, Some(parent));
    assert!(w.bodies[parent].children.contains(&child));
    assert_eq!(w.find_physics_root(child), parent);
    w.remove_child(parent, child);
    assert_eq!(w.bodies[child].parent, None);
    assert!(!w.bodies[parent].children.contains(&child));
    assert_eq!(w.find_physics_root(child), child);
}

#[test]
fn id_lookup_helpers() {
    let ids: Vec<usize> = vec![3, 5, 8];
    assert!(contains_id(&ids, 5));
    assert!(!contains_id(&ids, 4));
    assert_eq!(find_id(&ids, 8), Some(2));
    assert_eq!(find_id(&ids, 9), None);
}

#[test]
fn propagation_interpolates_roots() {
    let mut w = World::new();
    let mut b = Body::new(Vec3::new(1000, 0, 0));
    b.prev_position = Some(PreviousPosition(Vec3::new(0, 0, 0)));
    let e = w.spawn(b);
    // Halfway through the physics step the rendered position is halfway
    // between the previous and current physics positions.
    w.transform_propagation_system(500);
    assert_eq!(w.bodies[e].global.position, Vec3::new(500, 0, 0));
    w.transform_propagation_system(0);
    assert_eq!(w.bodies[e].global.position, Vec3::new(0, 0, 0));
    w.transform_propagation_system(1000);
    assert_eq!(w.bodies[e].global.position, Vec3::new(1000, 0, 0));
}

#[test]
fn propagation_combines_child_pose() {
    let mut w = World::new();
    let parent = w.spawn(Body::new(Vec3::new(2000, 1000, 0)));
    let child = w.spawn(Body::new(Vec3::new(0, 0, 0)));
    w.add_child(parent, child);
    // Child-local transforms are fine scale: one unit ahead of the parent.
    w.bodies[child].local.position = Vec3::new(0, 0, 1_000_000);
    w.bodies[child].local.rotation = Rot { c: 1_000_000, s: 0 };
    w.transform_propagation_system(0);
    assert_eq!(w.bodies[child].global.position, Vec3::new(2000, 1000, 1000));
    assert_eq!(w.bodies[child].global.rotation, Rot::identity());
}

#[test]
fn sword_position_variants_are_distinct() {
    assert_ne!(SwordPosition::Sheathed, SwordPosition::Wielded);
}
