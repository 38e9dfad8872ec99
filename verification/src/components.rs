//! Entity components: spatial transforms, physics material properties,
//! collision shapes, and the gameplay markers consumed by the collision,
//! grab and locomotion systems.
//!
//! All lengths are `i64` milli-units and all coefficients (restitution,
//! friction, damping factors) are milli-scaled, so a coefficient of one is
//! `SCALE`. Timers are integer microseconds.

use vstd::prelude::*;
use crate::math::Rot;
use crate::math::rot_identity;
use crate::math::Vec3;
use crate::math::V3;
use crate::math::MAX_COORD;
use crate::math::ROT_LIM;
use crate::math::SCALE;
use crate::math::NORM_LIM;
use crate::math::FINE_ROT_LIM;

verus! {

/// Spatial transform relative to the parent entity (world space for roots).
///
/// Child-local positions are stored at fine scale (×`SCALE`) and child-local
/// rotations at ×`SCALE²`, so that attaching and detaching an entity under a
/// unit yaw round trips exactly.
#[derive(Clone, Copy, PartialEq, Eq, Structural, Debug)]
pub struct LocalTransform {
    pub position: Vec3,
    pub rotation: Rot,
}

impl LocalTransform {
    pub fn new(position: Vec3) -> (r: LocalTransform)
        ensures
            r.position == position,
            r.rotation@ == rot_identity(),
    {
        LocalTransform { position, rotation: Rot::identity() }
    }
}

/// Computed world-space pose, updated by the transform propagation system.
#[derive(Clone, Copy, PartialEq, Eq, Structural, Debug)]
pub struct GlobalTransform {
    pub position: Vec3,
    pub rotation: Rot,
}

/// Linear velocity in world space, milli-units per second.
#[derive(Clone, Copy, PartialEq, Eq, Structural, Debug)]
pub struct Velocity(pub Vec3);

/// Per-entity acceleration (accumulated forces over mass).
#[derive(Clone, Copy, PartialEq, Eq, Structural, Debug)]
pub struct Acceleration(pub Vec3);

/// Entity mass in grams. Informational only: the impulse math splits
/// dynamic-dynamic corrections 50/50 rather than by mass ratio.
#[derive(Clone, Copy, PartialEq, Eq, Structural, Debug)]
pub struct Mass(pub i64);

/// Marker: entity is affected by gravity.
#[derive(Clone, Copy, PartialEq, Eq, Structural, Debug)]
pub struct GravityAffected;

/// Collision shape attached to an entity. Capsules are vertical and centered;
/// planes are infinite; boxes are axis-aligned.
#[derive(Clone, Copy, PartialEq, Eq, Structural, Debug)]
pub enum Collider {
    Sphere { radius: i64 },
    Capsule { radius: i64, height: i64 },
    Plane { normal: Vec3, offset: i64 },
    Box { half_extents: Vec3 },
}

impl Collider {
    /// Shape parameters in range: positive extents within the coordinate
    /// bound, and a bounded plane normal.
    pub open spec fn wf(self) -> bool {
        match self {
            Collider::Sphere { radius } => 0 < radius <= MAX_COORD,
            Collider::Capsule { radius, height } => 0 < radius <= MAX_COORD && 0 <= height
                <= MAX_COORD,
            Collider::Plane { normal, offset } => normal@.bounded(
                NORM_LIM as int,
            ) && -MAX_COORD <= offset <= MAX_COORD,
            Collider::Box { half_extents } => 0 < half_extents@.x <= MAX_COORD && 0
                < half_extents@.y <= MAX_COORD && 0 < half_extents@.z <= MAX_COORD,
        }
    }
}

/// Marker: entity is immovable (infinite mass for collision response).
#[derive(Clone, Copy, PartialEq, Eq, Structural, Debug)]
pub struct Static;

/// Restitution coefficient, milli-scaled: 0 = no bounce, `SCALE` = perfect.
#[derive(Clone, Copy, PartialEq, Eq, Structural, Debug)]
pub struct Restitution(pub i64);

/// Surface friction coefficient, milli-scaled; pairs combine by averaging.
#[derive(Clone, Copy, PartialEq, Eq, Structural, Debug)]
pub struct Friction(pub i64);

/// Velocity damping, milli-scaled per second: each step applies
/// `vel *= max(1 - drag·dt, 0)`.
#[derive(Clone, Copy, PartialEq, Eq, Structural, Debug)]
pub struct Drag(pub i64);

/// Collision contact produced by the detection phase for one physics tick.
/// The contact normal always points from `entity_a` toward `entity_b` and the
/// penetration depth is positive by construction.
#[derive(Clone, Copy, PartialEq, Eq, Structural, Debug)]
pub struct CollisionEvent {
    pub entity_a: usize,
    pub entity_b: usize,
    pub contact_normal: Vec3,
    pub penetration_depth: i64,
}

/// Marker: this entity is the player.
#[derive(Clone, Copy, PartialEq, Eq, Structural, Debug)]
pub struct Player;

/// Marker: entity is touching the ground. Rebuilt on every frame in which at
/// least one physics tick ran; deliberately left alone on render-only frames.
#[derive(Clone, Copy, PartialEq, Eq, Structural, Debug)]
pub struct Grounded;

/// Previous physics-step position, stored for render interpolation.
#[derive(Clone, Copy, PartialEq, Eq, Structural, Debug)]
pub struct PreviousPosition(pub Vec3);

/// Entities carrying the same owner id skip collision with each other:
/// attached to all body parts of one character, owner = the character root.
#[derive(Clone, Copy, PartialEq, Eq, Structural, Debug)]
pub struct NoSelfCollision(pub usize);

/// Marker: entity can be grabbed by the player.
#[derive(Clone, Copy, PartialEq, Eq, Structural, Debug)]
pub struct Grabbable;

/// Marker: entity is currently held, so it is kinematic: the integrator and
/// the broadphase snapshot skip it, and the solver never moves it.
#[derive(Clone, Copy, PartialEq, Eq, Structural, Debug)]
pub struct Held;

/// Index into the presentation layer's mesh store.
#[derive(Clone, Copy, PartialEq, Eq, Structural, Debug)]
pub struct MeshHandle(pub usize);

/// Marker: entity is not rendered but still participates in physics.
#[derive(Clone, Copy, PartialEq, Eq, Structural, Debug)]
pub struct Hidden;

/// Per-holder record for the grab/throw controller, attached to the player.
#[derive(Clone, Copy, PartialEq, Eq, Structural, Debug)]
pub struct GrabState {
    pub held_entity: Option<usize>,
    /// Wind-up timer in microseconds, clamped to `[0, MAX_WIND_UP_TIME]`.
    pub wind_up_time: u64,
    pub is_winding: bool,
    /// Holder-local orientation of the held entity at fine (×`SCALE²`) scale.
    pub held_rotation: Rot,
    /// Previous frame's world position of the held entity.
    pub prev_world_pos: Vec3,
    /// Exponentially smoothed world-space velocity of the held entity.
    pub held_velocity: Vec3,
}

impl GrabState {
    pub fn new() -> (r: GrabState)
        ensures
            r.held_entity is None,
            r.wind_up_time == 0,
            !r.is_winding,
            r.held_rotation@.c == SCALE as int * SCALE as int,
            r.held_rotation@.s == 0,
            r.prev_world_pos@ == (V3 { x: 0, y: 0, z: 0 }),
            r.held_velocity@ == (V3 { x: 0, y: 0, z: 0 }),
    {
        GrabState {
            held_entity: None,
            wind_up_time: 0,
            is_winding: false,
            held_rotation: Rot { c: SCALE * SCALE, s: 0 },
            prev_world_pos: Vec3 { x: 0, y: 0, z: 0 },
            held_velocity: Vec3 { x: 0, y: 0, z: 0 },
        }
    }

    /// State bounds maintained by the grab controller.
    pub open spec fn wf(self, n: int) -> bool {
        &&& (self.held_entity is Some ==> self.held_entity->0 < n)
        &&& self.wind_up_time <= crate::grab::MAX_WIND_UP_TIME
        &&& -(FINE_ROT_LIM as int) <= self.held_rotation@.c <= FINE_ROT_LIM as int
        &&& -(FINE_ROT_LIM as int) <= self.held_rotation@.s <= FINE_ROT_LIM as int
        &&& self.prev_world_pos@.bounded(MAX_COORD as int)
        &&& self.held_velocity@.bounded(MAX_COORD as int)
    }
}

/// Whether the sword rests at the hip or is wielded in hand.
#[derive(Clone, Copy, PartialEq, Eq, Structural, Debug)]
pub enum SwordPosition {
    Sheathed,
    Wielded,
}

/// State for the sword entity, attached to the sword child of the player.
/// Poses are holder-local, at fine scale like every child-local transform.
#[derive(Clone, Copy, PartialEq, Eq, Structural, Debug)]
pub struct SwordState {
    pub position: SwordPosition,
    pub sheathed_pos: Vec3,
    pub sheathed_rot: Rot,
    pub wielded_pos: Vec3,
    pub wielded_rot: Rot,
}

/// All discrete locomotion states the player can be in. Timed states carry
/// their elapsed timer in microseconds.
#[derive(Clone, Copy, PartialEq, Eq, Structural, Debug)]
pub enum PlayerState {
    /// Standing still, no movement input.
    Idle,
    /// Moving at walk speed.
    Walking,
    /// Sprint key held while moving.
    Running,
    /// Brief directional burst; ends when `timer` exceeds the dash duration.
    Dashing { direction: Vec3, timer: u64, cooldown_remaining: u64 },
    /// Ascending after jump input; tracks early release for jump cut.
    Jumping { has_released_jump: bool },
    /// Airborne and descending (or walked off an edge).
    Falling,
    /// Brief recovery on ground contact.
    Landing { timer: u64 },
    /// Sword transition: sheathing.
    Sheathing { timer: u64 },
    /// Sword transition: unsheathing.
    Unsheathing { timer: u64 },
}

} // verus!
