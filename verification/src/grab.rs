//! Grab/throw controller: promotes a world entity to a kinematically held,
//! holder-attached object, resolves its hold pose against world geometry
//! every frame, and implements wind-up throws plus two safety drops (the
//! angle drop and the stretch-plus-sweep drop, checked in that order).

use vstd::prelude::*;
use crate::collision::collider_to_kind;
use crate::collision::query_collisions_at;
use crate::collision::sweep_sphere_static;
use crate::components::Collider;
use crate::components::GrabState;
use crate::components::Held;
use crate::components::LocalTransform;
use crate::components::NoSelfCollision;
use crate::components::Velocity;
use crate::math::clamp_i64;
use crate::math::clamp_int;
use crate::math::div_fix;
use crate::math::lemma_mul_bound;
use crate::math::lemma_tdiv_bound;
use crate::math::lemma_tdiv_le;
use crate::math::lerp_fix;
use crate::math::rot_to_local_fine_spec;
use crate::math::to_local_fine_spec;
use crate::math::tdiv;
use crate::math::Rot;
use crate::math::R2;
use crate::math::Vec3;
use crate::math::V3;
use crate::math::FINE_ROT_LIM;
use crate::math::MAX_COORD;
use crate::math::NORM_LIM;
use crate::math::ROT_LIM;
use crate::math::SCALE;
use crate::raycast::raycast_grabbable;
use crate::world::Body;
use crate::world::FINE_POS_LIM;
use crate::world::World;

verus! {

/// Longest wind-up the throw charge accumulates, in microseconds.
pub const MAX_WIND_UP_TIME: u64 = 750_000;

/// Farthest distance at which a grab raycast connects, milli-units.
pub const GRAB_DISTANCE: i64 = 5_000;

/// Push-out passes when resolving the hold pose against geometry.
pub const HOLD_RESOLVE_ITERS: usize = 3;

/// Outward impulse given to dynamic objects the held object overlaps.
pub const HOLD_PUSH_IMPULSE: i64 = 3_000;

/// Milli-scaled per-second rate at which the held pose chases its target.
pub const HOLD_LERP_SPEED: i64 = 10;

/// Weakest throw velocity, milli-units per second.
pub const MIN_THROW_FORCE: i64 = 5_000;

/// Strongest throw velocity, milli-units per second.
pub const MAX_THROW_FORCE: i64 = 20_000;

/// Movement-speed multiplier while winding a throw, milli-scaled.
pub const WIND_UP_MOVE_SLOWDOWN: i64 = 300;

/// Per-second rate of the exponential velocity estimate smoothing.
pub const VELOCITY_SMOOTHING: i64 = 15;

/// Fraction of tracked momentum added to a throw, milli-scaled.
pub const HELD_VELOCITY_DAMPER: i64 = 250;

/// Fraction of tracked momentum kept on a plain drop, milli-scaled.
pub const DROP_VELOCITY_DAMPER: i64 = 50;

/// Height of the grab raycast origin above the holder's position.
pub const CHEST_HEIGHT: i64 = 500;

/// Per-second rate of the held-rotation interpolation.
pub const PITCH_ROTATION_LERP_SPEED: i64 = 12;

/// Rubber-band snap distance: a held object further than this from its ideal
/// hold position whose direct path back is blocked is dropped, milli-units.
pub const STRETCH_DROP_THRESHOLD: i64 = 400;

/// Per-frame input snapshot the controller consumes.
pub struct GrabInput {
    /// The grab button was pressed this frame.
    pub grab_pressed: bool,
    /// The throw button was released this frame.
    pub throw_released: bool,
    /// The grab modifier key is held.
    pub modifier_held: bool,
    /// The grab button is held.
    pub grab_held: bool,
    /// The throw button is held (winds up a throw).
    pub wind_held: bool,
}

/// The hold offset in holder-local space before the pitch adjustment.
pub fn hold_offset() -> (r: Vec3)
    ensures
        r@ == (V3 { x: 0, y: 500, z: 1500 }),
{
    Vec3 { x: 0, y: 500, z: 1500 }
}

/// Conservative bounding radius of a collider, for the swept-sphere check.
pub open spec fn bounding_radius_spec(c: Collider) -> int {
    match c {
        Collider::Sphere { radius } => radius as int,
        Collider::Box { half_extents } => half_extents@.len(),
        Collider::Capsule { radius, height } => radius + height as int / 2,
        Collider::Plane { .. } => 0,
    }
}

pub fn collider_bounding_radius(c: &Collider) -> (r: i64)
    requires
        c.wf(),
    ensures
        r as int == bounding_radius_spec(*c),
        0 <= r <= 2 * MAX_COORD,
{
    match c {
        Collider::Sphere { radius } => *radius,
        Collider::Box { half_extents } => {
            let l = half_extents.length();
            proof {
                crate::math::lemma_component_le_len(half_extents@);
                assert(half_extents@.norm2() <= 30_000_000_000_000_000) by (nonlinear_arith)
                    requires half_extents@.bounded(100_000_000);
                if half_extents@.len() >= 200_000_000 {
                    assert(half_extents@.len() * half_extents@.len()
                        >= 40_000_000_000_000_000) by (nonlinear_arith)
                        requires half_extents@.len() >= 200_000_000;
                }
            }
            l
        },
        Collider::Capsule { radius, height } => *radius + *height / 2,
        Collider::Plane { .. } => 0,
    }
}

/// The exact skip list: the held object, the holder, then every entity
/// owned by the holder, in entity order.
pub open spec fn hold_skip_spec(s: Seq<Body>, held: usize, player: usize, k: int) -> Seq<usize>
    decreases k,
{
    if k <= 0 {
        seq![held, player]
    } else {
        let rest = hold_skip_spec(s, held, player, k - 1);
        if s[k - 1].owner == Some(NoSelfCollision(player)) {
            rest.push((k - 1) as usize)
        } else {
            rest
        }
    }
}

/// The entity skip list for hold collision queries: the held object, the
/// holder, and every body part owned by the holder.
pub fn build_hold_skip_list(w: &World, held_entity: usize, player_entity: usize) -> (skip: Vec<
    usize,
>)
    requires
        w.wf(),
    ensures
        skip@ == hold_skip_spec(w.bodies@, held_entity, player_entity, w.n()),
        skip@.contains(held_entity),
        skip@.contains(player_entity),
        forall|e: usize|
            skip@.contains(e) ==> e == held_entity || e == player_entity || (e < w.n()
                && w.bodies@[e as int].owner == Some(NoSelfCollision(player_entity))),
        forall|e: int|
            0 <= e < w.n() && w.bodies@[e].owner == Some(NoSelfCollision(player_entity))
                ==> skip@.contains(e as usize),
{
    let mut skip: Vec<usize> = Vec::new();
    skip.push(held_entity);
    skip.push(player_entity);
    proof {
        assert(skip@ =~= hold_skip_spec(w.bodies@, held_entity, player_entity, 0));
        assert(skip@[0] == held_entity);
        assert(skip@[1] == player_entity);
        assert(skip@.contains(held_entity));
        assert(skip@.contains(player_entity));
        assert forall|e: usize| skip@.contains(e) implies e == held_entity || e
            == player_entity by {
            let k0 = choose|k0: int| 0 <= k0 < skip@.len() && skip@[k0] == e;
        }
    }
    let n = w.len();
    let mut i: usize = 0;
    while i < n
        invariant
            w.wf(),
            n == w.n(),
            i <= n,
            skip@.contains(held_entity),
            skip@.contains(player_entity),
            forall|e: usize|
                skip@.contains(e) ==> e == held_entity || e == player_entity || (e < n
                    && w.bodies@[e as int].owner == Some(NoSelfCollision(player_entity))),
            forall|e: int|
                0 <= e < i && w.bodies@[e].owner == Some(NoSelfCollision(player_entity))
                    ==> skip@.contains(e as usize),
            skip@ == hold_skip_spec(w.bodies@, held_entity, player_entity, i as int),
        decreases n - i,
    {
        let ghost pre = skip@;
        match &w.bodies[i].owner {
            Some(o) => {
                if o.0 == player_entity {
                    skip.push(i);
                    proof {
                        assert(skip@ =~= hold_skip_spec(
                            w.bodies@,
                            held_entity,
                            player_entity,
                            i as int + 1,
                        ));
                        assert forall|e: usize| skip@.contains(e) implies e == held_entity || e
                            == player_entity || (e < n && w.bodies@[e as int].owner == Some(
                            NoSelfCollision(player_entity),
                        )) by {
                            let k0 = choose|k0: int| 0 <= k0 < skip@.len() && skip@[k0] == e;
                            if k0 < pre.len() {
                                assert(pre[k0] == e);
                                assert(pre.contains(e));
                            } else {
                                assert(e == i);
                            }
                        }
                        assert forall|e: int|
                            0 <= e < i + 1 && w.bodies@[e].owner == Some(
                                NoSelfCollision(player_entity),
                            ) implies skip@.contains(e as usize) by {
                            if e < i {
                                assert(pre.contains(e as usize));
                                let k0 = choose|k0: int|
                                    0 <= k0 < pre.len() && pre[k0] == e as usize;
                                assert(skip@[k0] == e as usize);
                            } else {
                                assert(skip@[skip@.len() - 1] == i);
                            }
                        }
                        assert(skip@.contains(held_entity)) by {
                            let k0 = choose|k0: int|
                                0 <= k0 < pre.len() && pre[k0] == held_entity;
                            assert(skip@[k0] == held_entity);
                        }
                        assert(skip@.contains(player_entity)) by {
                            let k0 = choose|k0: int|
                                0 <= k0 < pre.len() && pre[k0] == player_entity;
                            assert(skip@[k0] == player_entity);
                        }
                    }
                }
            },
            None => {},
        }
        i = i + 1;
    }
    skip
}

/// World pose of an entity as last computed by transform propagation.
pub fn extract_world_transform(w: &World, e: usize) -> (r: (Vec3, Rot))
    requires
        w.wf(),
        e < w.n(),
    ensures
        r.0 == w.bodies@[e as int].global.position,
        r.1 == w.bodies@[e as int].global.rotation,
        r.0@.bounded(MAX_COORD as int),
{
    proof {
        assert(w.bodies@[e as int].ok(w.n()));
    }
    (w.bodies[e].global.position, w.bodies[e].global.rotation)
}

/// Clamp a rotation's components into the root range. Inert for every
/// near-unit rotation; only off-scale child poses are saturated.
pub fn clamp_rot(r: Rot) -> (c: Rot)
    ensures
        c@.c == clamp_int(r@.c, ROT_LIM as int),
        c@.s == clamp_int(r@.s, ROT_LIM as int),
        c@.bounded(),
{
    Rot { c: clamp_i64(r.c, ROT_LIM), s: clamp_i64(r.s, ROT_LIM) }
}

/// The exact state of a released body: a root again at the given world
/// pose (rotation saturated into the root range, inert for near-unit
/// rotations), markers cleared, the given velocity applied.
pub open spec fn released_body_spec(b: Body, pos: Vec3, rot: Rot, vel: Vec3) -> Body {
    Body {
        parent: None,
        held: None,
        owner: None,
        local: LocalTransform {
            position: pos,
            rotation: Rot {
                c: clamp_int(rot@.c, ROT_LIM as int) as i64,
                s: clamp_int(rot@.s, ROT_LIM as int) as i64,
            },
        },
        velocity: if b.velocity is Some {
            Some(Velocity(vel))
        } else {
            None
        },
        ..b
    }
}

/// A release happened: the held body took the given pose and velocity as a
/// root, it left the holder's children list, and the grab state was reset.
pub open spec fn released_post(
    s_pre: Seq<Body>,
    g_pre: GrabState,
    s1: Seq<Body>,
    g1: GrabState,
    player: int,
    h: int,
    pos: Vec3,
    rot: Rot,
    vel: Vec3,
) -> bool {
    &&& s1 == s_pre.update(h, released_body_spec(s_pre[h], pos, rot, vel)).update(
        player,
        Body { children: s1[player].children, ..s_pre[player] },
    )
    &&& !s1[player].children@.contains(h as usize)
    &&& (forall|e: usize|
        s1[player].children@.contains(e) ==> s_pre[player].children@.contains(e))
    &&& (forall|e: usize|
        s_pre[player].children@.contains(e) && e != h as usize ==> s1[player].children@.contains(
            e,
        ))
    &&& g1 == (GrabState {
        held_entity: None,
        wind_up_time: 0,
        is_winding: false,
        held_velocity: Vec3 { x: 0, y: 0, z: 0 },
        ..g_pre
    })
}

/// Release the held object at the given world pose: restore it as a root
/// entity, clear the kinematic markers, hand it the given velocity, and
/// reset the holder's grab state.
#[verifier::rlimit(100)]
pub fn release_held(
    w: &mut World,
    grab: &mut GrabState,
    player_entity: usize,
    held: usize,
    pos: Vec3,
    rot: Rot,
    new_vel: Vec3,
)
    requires
        old(w).wf(),
        player_entity < old(w).n(),
        held < old(w).n(),
        held != player_entity,
        pos@.bounded(MAX_COORD as int),
        new_vel@.bounded(MAX_COORD as int),
        old(grab).wf(old(w).n()),
    ensures
        released_post(
            old(w).bodies@,
            *old(grab),
            final(w).bodies@,
            *final(grab),
            player_entity as int,
            held as int,
            pos,
            rot,
            new_vel,
        ),
        final(w).wf(),
        final(w).n() == old(w).n(),
        final(grab).wf(final(w).n()),
        final(grab).held_entity is None,
        final(grab).wind_up_time == 0,
        !final(grab).is_winding,
        final(grab).held_velocity@ == (V3 { x: 0, y: 0, z: 0 }),
        ({
            let b0 = old(w).bodies@[held as int];
            let b1 = final(w).bodies@[held as int];
            &&& b1.parent is None
            &&& b1.held is None
            &&& b1.owner is None
            &&& b1.local.position == pos
            &&& b1.local.rotation@.c == clamp_int(rot@.c, ROT_LIM as int)
            &&& b1.local.rotation@.s == clamp_int(rot@.s, ROT_LIM as int)
            &&& (b0.velocity is Some ==> b1.velocity == Some(Velocity(new_vel)))
            &&& (b0.velocity is None ==> b1.velocity is None)
            &&& b1.global == b0.global
            &&& b1.collider == b0.collider
            &&& b1.grabbable == b0.grabbable
            &&& b1.static_body == b0.static_body
        }),
        forall|k: int|
            0 <= k < old(w).n() && k != held && k != player_entity ==> final(w).bodies@[k] == old(
                w,
            ).bodies@[k],
        final(w).bodies@[player_entity as int].local == old(
            w,
        ).bodies@[player_entity as int].local,
        final(w).bodies@[player_entity as int].parent == old(
            w,
        ).bodies@[player_entity as int].parent,
        final(w).bodies@[player_entity as int].velocity == old(
            w,
        ).bodies@[player_entity as int].velocity,
        final(w).bodies@[player_entity as int].global == old(
            w,
        ).bodies@[player_entity as int].global,
{
    let ghost s0 = w.bodies@;
    let ghost g0 = *grab;
    let world_pos = pos;
    let world_rot = clamp_rot(rot);
    w.bodies[held].local = LocalTransform { position: world_pos, rotation: world_rot };
    proof {
        let s = w.bodies@;
        assert forall|i: int| 0 <= i < s.len() implies (#[trigger] s[i]).ok(s.len() as int) && (
        s[i].parent is Some ==> s[s[i].parent->0 as int].parent is None) by {
            assert(s0[i].ok(s0.len() as int));
            if s[i].parent is Some {
                let pp = s[i].parent->0 as int;
                assert(s[pp].parent == s0[pp].parent);
            }
            if i == held as int {
                assert(MAX_COORD <= FINE_POS_LIM);
            }
        }
    }
    w.remove_child(player_entity, held);
    let ghost s1 = w.bodies@;
    w.bodies[held].held = None;
    w.bodies[held].owner = None;
    match &w.bodies[held].velocity {
        Some(_) => {
            w.bodies[held].velocity = Some(Velocity(new_vel));
        },
        None => {},
    }
    grab.held_entity = None;
    grab.wind_up_time = 0;
    grab.is_winding = false;
    grab.held_velocity = Vec3 { x: 0, y: 0, z: 0 };
    proof {
        let s = w.bodies@;
        assert forall|i: int| 0 <= i < s.len() implies (#[trigger] s[i]).ok(s.len() as int) && (
        s[i].parent is Some ==> s[s[i].parent->0 as int].parent is None) by {
            assert(s1[i].ok(s1.len() as int));
            if s[i].parent is Some {
                let pp = s[i].parent->0 as int;
                assert(s[pp].parent == s1[pp].parent);
            }
        }
        let rb = released_body_spec(s0[held as int], pos, rot, new_vel);
        assert(s[held as int].local == rb.local);
        assert(s[held as int].velocity == rb.velocity);
        assert(s[held as int] == rb);
        assert(s[player_entity as int] == (Body {
            children: s[player_entity as int].children,
            ..s0[player_entity as int]
        }));
        assert(s =~= s0.update(held as int, rb).update(
            player_entity as int,
            Body { children: s[player_entity as int].children, ..s0[player_entity as int] },
        ));
        assert(*grab == (GrabState {
            held_entity: None,
            wind_up_time: 0,
            is_winding: false,
            held_velocity: Vec3 { x: 0, y: 0, z: 0 },
            ..g0
        }));
    }
}

/// Attempt a grab: raycast from chest height along the view direction, and
/// on a valid hit re-parent the object under the holder at fine scale,
/// preserving its world pose exactly. Returns the grabbed entity.
pub fn try_grab(w: &mut World, grab: &mut GrabState, player_entity: usize, front: Vec3) -> (r:
    Option<usize>)
    requires
        old(w).wf(),
        old(w).n() < usize::MAX as int,
        player_entity < old(w).n(),
        old(w).bodies@[player_entity as int].parent is None,
        front@.bounded(SCALE as int),
        old(grab).wf(old(w).n()),
    ensures
        final(w).wf(),
        final(w).n() == old(w).n(),
        final(grab).wf(final(w).n()),
        r is None ==> final(w).bodies@ == old(w).bodies@ && *final(grab) == *old(grab),
        r is Some ==> ({
            let h = r->0 as int;
            let b0 = old(w).bodies@[h];
            let b1 = final(w).bodies@[h];
            let p0 = old(w).bodies@[player_entity as int];
            &&& 0 <= h < old(w).n()
            &&& h != player_entity as int
            &&& b0.grabbable is Some
            &&& b0.static_body is None
            &&& b0.parent is None
            &&& b1.parent == Some(player_entity)
            &&& b1.held == Some(Held)
            &&& b1.owner == Some(NoSelfCollision(player_entity))
            &&& b1.local.position@ == to_local_fine_spec(
                p0.local.rotation@,
                b0.local.position@.minus(p0.local.position@),
            )
            &&& b1.local.rotation@ == rot_to_local_fine_spec(
                p0.local.rotation@,
                b0.local.rotation@,
            )
            &&& b1.velocity == b0.velocity
            &&& b1.global == b0.global
            &&& b1.collider == b0.collider
            &&& final(grab).held_entity == Some(r->0)
            &&& final(grab).held_rotation == b1.local.rotation
            &&& final(grab).wind_up_time == 0
            &&& !final(grab).is_winding
            &&& final(grab).prev_world_pos == b0.local.position
            &&& final(grab).held_velocity@ == (V3 { x: 0, y: 0, z: 0 })
            &&& (forall|k: int|
                0 <= k < old(w).n() && k != h && k != player_entity as int
                    ==> final(w).bodies@[k] == old(w).bodies@[k])
            &&& final(w).bodies@[player_entity as int].local == p0.local
            &&& final(w).bodies@[player_entity as int].parent is None
        }),
{
    let chest_pos = {
        let p = w.bodies[player_entity].local.position;
        proof {
            assert(w.bodies@[player_entity as int].ok(w.n()));
        }
        Vec3 { x: p.x, y: clamp_i64(p.y + CHEST_HEIGHT, MAX_COORD), z: p.z }
    };
    let hit = raycast_grabbable(w, chest_pos, front, GRAB_DISTANCE);
    match hit {
        None => None,
        Some(h) => {
            let e = h.entity;
            if e == player_entity {
                return None;
            }
            if w.bodies[e].static_body.is_some() {
                return None;
            }
            if w.bodies[e].grabbable.is_none() {
                return None;
            }
            if w.bodies[e].parent.is_some() {
                return None;
            }
            let mut has_children = false;
            let n = w.len();
            let mut k: usize = 0;
            while k < n
                invariant
                    w.wf(),
                    n == w.n(),
                    k <= n,
                    !has_children ==> forall|t: int|
                        0 <= t < k ==> (#[trigger] w.bodies@[t]).parent != Some(e),
                    has_children ==> exists|t: int|
                        0 <= t < n && (#[trigger] w.bodies@[t]).parent == Some(e),
                decreases n - k,
            {
                match w.bodies[k].parent {
                    Some(p) => {
                        if p == e {
                            has_children = true;
                        }
                    },
                    None => {},
                }
                k = k + 1;
            }
            if has_children {
                return None;
            }
            let ghost s0 = w.bodies@;
            let player_pos = w.bodies[player_entity].local.position;
            let player_yaw = w.bodies[player_entity].local.rotation;
            let held_world_pos = w.bodies[e].local.position;
            let held_world_rot = w.bodies[e].local.rotation;
            proof {
                assert(w.bodies@[player_entity as int].ok(w.n()));
                assert(w.bodies@[e as int].ok(w.n()));
            }
            let world_offset = held_world_pos.minus(player_pos);
            let local_offset = player_yaw.to_local_fine(world_offset);
            let local_rot = player_yaw.rot_to_local_fine(held_world_rot);
            w.add_child(player_entity, e);
            let ghost s1 = w.bodies@;
            w.bodies[e].local = LocalTransform { position: local_offset, rotation: local_rot };
            w.bodies[e].held = Some(Held);
            w.bodies[e].owner = Some(NoSelfCollision(player_entity));
            grab.held_entity = Some(e);
            grab.held_rotation = local_rot;
            grab.wind_up_time = 0;
            grab.is_winding = false;
            grab.prev_world_pos = held_world_pos;
            grab.held_velocity = Vec3 { x: 0, y: 0, z: 0 };
            proof {
                let s = w.bodies@;
                assert(s1[e as int].parent == Some(player_entity));
                assert forall|i: int| 0 <= i < s.len() implies (#[trigger] s[i]).ok(
                    s.len() as int,
                ) && (s[i].parent is Some ==> s[s[i].parent->0 as int].parent is None) by {
                    assert(s1[i].ok(s1.len() as int));
                    if s[i].parent is Some {
                        let pp = s[i].parent->0 as int;
                        assert(s[pp].parent == s1[pp].parent);
                    }
                }
            }
            Some(e)
        },
    }
}

} // verus!

verus! {

/// Everything about a body except its linear velocity value.
pub open spec fn same_except_velocity(a: Body, b: Body) -> bool {
    &&& b == (Body { velocity: b.velocity, ..a })
    &&& (b.velocity is Some <==> a.velocity is Some)
}

/// Velocity of an overlapped dynamic object after the hold push impulse.
pub open spec fn nudged_velocity(v: V3, push: V3) -> V3 {
    crate::math::clamp_v3(
        V3 {
            x: v.x - tdiv(push.x * (HOLD_PUSH_IMPULSE as int), SCALE as int),
            y: v.y - tdiv(push.y * (HOLD_PUSH_IMPULSE as int), SCALE as int),
            z: v.z - tdiv(push.z * (HOLD_PUSH_IMPULSE as int), SCALE as int),
        },
        MAX_COORD as int,
    )
}

/// The exact effect of applying the first `k` overlap hits of one push-out
/// pass: the test position accumulates each push by its depth, and each
/// overlapped dynamic body's velocity takes the outward impulse.
pub open spec fn apply_hits_spec(
    s: Seq<Body>,
    pos: V3,
    hits: Seq<(Vec3, i64, usize, bool)>,
    k: int,
) -> (Seq<Body>, V3)
    decreases k,
{
    if k <= 0 {
        (s, pos)
    } else {
        let prev = apply_hits_spec(s, pos, hits, k - 1);
        let s1 = prev.0;
        let p1 = prev.1;
        let h = hits[k - 1];
        let p2 = crate::collision::pushed_pos(p1, h.0@, h.1 as int);
        let o = h.2 as int;
        let s2 = if h.3 && s1[o].held is None && s1[o].static_body is None && s1[o].velocity
            is Some {
            s1.update(
                o,
                Body {
                    velocity: Some(
                        Velocity(
                            crate::collision::vec3_of(
                                nudged_velocity((s1[o].velocity->0).0@, h.0@),
                            ),
                        ),
                    ),
                    ..s1[o]
                },
            )
        } else {
            s1
        };
        (s2, p2)
    }
}

/// One push-out pass: query the overlaps at `pos` and apply them all.
/// The third component reports whether any overlap was found.
pub open spec fn resolve_pass_spec(
    s: Seq<Body>,
    c: Collider,
    pos: V3,
    skip: Seq<usize>,
) -> (Seq<Body>, V3, bool) {
    let hits = crate::collision::query_hits_upto(
        crate::collision::query_test_entry(c, crate::collision::vec3_of(pos)),
        s,
        skip,
        s.len() as int,
    );
    let r = apply_hits_spec(s, pos, hits, hits.len() as int);
    (r.0, r.1, hits.len() > 0)
}

/// The exact effect of the bounded push-out iteration: up to `iters` passes,
/// stopping early once a pass finds no overlap.
pub open spec fn resolve_iters_spec(
    s: Seq<Body>,
    c: Collider,
    pos: V3,
    skip: Seq<usize>,
    iters: int,
) -> (Seq<Body>, V3)
    decreases iters,
{
    if iters <= 0 {
        (s, pos)
    } else {
        let one = resolve_pass_spec(s, c, pos, skip);
        if !one.2 {
            (s, pos)
        } else {
            resolve_iters_spec(one.0, c, one.1, skip, iters - 1)
        }
    }
}

/// Resolve a held object's target world position against world geometry:
/// a bounded number of push-out passes, each moving the position out of
/// every reported overlap and nudging overlapped dynamic objects away.
pub fn resolve_held_pos(
    w: &mut World,
    collider: &Collider,
    world_target: Vec3,
    skip: &Vec<usize>,
) -> (pos: Vec3)
    requires
        old(w).wf(),
        old(w).n() < usize::MAX as int,
        collider.wf(),
        world_target@.bounded(MAX_COORD as int),
    ensures
        final(w).wf(),
        final(w).n() == old(w).n(),
        pos@.bounded(MAX_COORD as int),
        forall|k: int|
            0 <= k < old(w).n() ==> same_except_velocity(
                old(w).bodies@[k],
                #[trigger] final(w).bodies@[k],
            ),
        forall|k: int|
            0 <= k < old(w).n() && (old(w).bodies@[k].static_body is Some || old(
                w,
            ).bodies@[k].held is Some) ==> final(w).bodies@[k] == old(w).bodies@[k],
        (final(w).bodies@, pos@) == resolve_iters_spec(
            old(w).bodies@,
            *collider,
            world_target@,
            skip@,
            HOLD_RESOLVE_ITERS as int,
        ),
{
    let ghost s0 = w.bodies@;
    let mut pos = world_target;
    let mut iter: usize = 0;
    let mut done = false;
    while iter < HOLD_RESOLVE_ITERS
        invariant
            w.wf(),
            w.n() == s0.len() as int,
            s0.len() < usize::MAX,
            collider.wf(),
            pos@.bounded(MAX_COORD as int),
            iter <= HOLD_RESOLVE_ITERS,
            forall|k: int|
                0 <= k < s0.len() ==> same_except_velocity(s0[k], #[trigger] w.bodies@[k]),
            forall|k: int|
                0 <= k < s0.len() && (s0[k].static_body is Some || s0[k].held is Some)
                    ==> w.bodies@[k] == s0[k],
            done ==> resolve_pass_spec(w.bodies@, *collider, pos@, skip@).2 == false,
            resolve_iters_spec(s0, *collider, world_target@, skip@, HOLD_RESOLVE_ITERS as int)
                == resolve_iters_spec(
                w.bodies@,
                *collider,
                pos@,
                skip@,
                HOLD_RESOLVE_ITERS as int - iter as int,
            ),
        decreases HOLD_RESOLVE_ITERS - iter,
    {
        let ghost s_pass = w.bodies@;
        let ghost p_pass = pos@;
        if !done {
            let hits = query_collisions_at(w, collider, pos, skip);
            proof {
                assert(crate::collision::query_test_entry(*collider, pos)
                    == crate::collision::query_test_entry(
                    *collider,
                    crate::collision::vec3_of(pos@),
                ));
            }
            if hits.len() == 0 {
                done = true;
            }
            let mut hi: usize = 0;
            while hi < hits.len()
                invariant
                    w.wf(),
                    w.n() == s0.len() as int,
                    hi <= hits@.len(),
                    pos@.bounded(MAX_COORD as int),
                    (w.bodies@, pos@) == apply_hits_spec(s_pass, p_pass, hits@, hi as int),
                    forall|k: int|
                        0 <= k < hits@.len() ==> {
                            let h = #[trigger] hits@[k];
                            h.2 < s0.len() && h.0@.bounded(NORM_LIM as int) && 0 < h.1 <= 2
                                * crate::math::DOT_LIM
                        },
                    forall|k: int|
                        0 <= k < s0.len() ==> same_except_velocity(
                            s0[k],
                            #[trigger] w.bodies@[k],
                        ),
                    forall|k: int|
                        0 <= k < s0.len() && (s0[k].static_body is Some || s0[k].held is Some)
                            ==> w.bodies@[k] == s0[k],
                decreases hits@.len() - hi,
            {
                let ghost pre = w.bodies@;
                let h = hits[hi];
                let push = h.0;
                let depth = h.1;
                let other = h.2;
                let is_dynamic = h.3;
                proof {
                    lemma_mul_bound(push@.x, NORM_LIM as int, depth as int, 2_000_000_000);
                    lemma_mul_bound(push@.y, NORM_LIM as int, depth as int, 2_000_000_000);
                    lemma_mul_bound(push@.z, NORM_LIM as int, depth as int, 2_000_000_000);
                    lemma_tdiv_bound(push@.x * depth as int, SCALE as int);
                    lemma_tdiv_bound(push@.y * depth as int, SCALE as int);
                    lemma_tdiv_bound(push@.z * depth as int, SCALE as int);
                }
                pos = Vec3 {
                    x: clamp_i64(pos.x + div_fix(push.x * depth, SCALE), MAX_COORD),
                    y: clamp_i64(pos.y + div_fix(push.y * depth, SCALE), MAX_COORD),
                    z: clamp_i64(pos.z + div_fix(push.z * depth, SCALE), MAX_COORD),
                };
                let ghost s_hit = w.bodies@;
                if is_dynamic && w.bodies[other].held.is_none()
                    && w.bodies[other].static_body.is_none() {
                    match &w.bodies[other].velocity {
                        Some(v) => {
                            proof {
                                lemma_mul_bound(
                                    push@.x,
                                    NORM_LIM as int,
                                    HOLD_PUSH_IMPULSE as int,
                                    HOLD_PUSH_IMPULSE as int,
                                );
                                lemma_mul_bound(
                                    push@.y,
                                    NORM_LIM as int,
                                    HOLD_PUSH_IMPULSE as int,
                                    HOLD_PUSH_IMPULSE as int,
                                );
                                lemma_mul_bound(
                                    push@.z,
                                    NORM_LIM as int,
                                    HOLD_PUSH_IMPULSE as int,
                                    HOLD_PUSH_IMPULSE as int,
                                );
                                lemma_tdiv_bound(push@.x * HOLD_PUSH_IMPULSE as int, SCALE as int);
                                lemma_tdiv_bound(push@.y * HOLD_PUSH_IMPULSE as int, SCALE as int);
                                lemma_tdiv_bound(push@.z * HOLD_PUSH_IMPULSE as int, SCALE as int);
                            }
                            let nv = Vec3 {
                                x: clamp_i64(
                                    v.0.x - div_fix(push.x * HOLD_PUSH_IMPULSE, SCALE),
                                    MAX_COORD,
                                ),
                                y: clamp_i64(
                                    v.0.y - div_fix(push.y * HOLD_PUSH_IMPULSE, SCALE),
                                    MAX_COORD,
                                ),
                                z: clamp_i64(
                                    v.0.z - div_fix(push.z * HOLD_PUSH_IMPULSE, SCALE),
                                    MAX_COORD,
                                ),
                            };
                            proof {
                                assert(nv@ == nudged_velocity((s_hit[other as int].velocity->0).0@, push@));
                            }
                            w.bodies[other].velocity = Some(Velocity(nv));
                        },
                        None => {},
                    }
                    proof {
                        let s = w.bodies@;
                        assert forall|i: int| 0 <= i < s.len() implies (#[trigger] s[i]).ok(
                            s.len() as int,
                        ) && (s[i].parent is Some ==> s[s[i].parent->0 as int].parent is None) by {
                            assert(pre[i].ok(pre.len() as int));
                            if s[i].parent is Some {
                                let pp = s[i].parent->0 as int;
                                assert(s[pp].parent == pre[pp].parent);
                            }
                        }
                    }
                }
                proof {
                    assert((w.bodies@, pos@) =~= apply_hits_spec(
                        s_pass,
                        p_pass,
                        hits@,
                        hi as int + 1,
                    ));
                }
                hi = hi + 1;
            }
            proof {
                let one = resolve_pass_spec(s_pass, *collider, p_pass, skip@);
                assert((w.bodies@, pos@) == (one.0, one.1));
                if hits@.len() == 0 {
                    assert(w.bodies@ == s_pass && pos@ == p_pass);
                    assert(!one.2);
                } else {
                    assert(one.2);
                }
            }
        } else {
            proof {
                assert(resolve_iters_spec(
                    w.bodies@,
                    *collider,
                    pos@,
                    skip@,
                    HOLD_RESOLVE_ITERS as int - iter as int,
                ) == (w.bodies@, pos@));
            }
        }
        iter = iter + 1;
    }
    proof {
        if !done {
            assert(resolve_iters_spec(w.bodies@, *collider, pos@, skip@, 0) == (
                w.bodies@,
                pos@,
            ));
        } else {
            assert(resolve_iters_spec(
                w.bodies@,
                *collider,
                pos@,
                skip@,
                HOLD_RESOLVE_ITERS as int - iter as int,
            ) == (w.bodies@, pos@));
        }
    }
    pos
}

/// Per-frame hold maintenance: resolve the pitch-adjusted hold target
/// against world geometry, chase it with the held object's local pose,
/// keep the object kinematic, and track its smoothed world velocity.
/// The hold-rotation target: the camera pitch composed onto the stored
/// hold-local orientation, at fine scale, saturated into the fine range
/// (inert for near-unit rotations).
pub open spec fn hold_target_rot(pitch: R2, hr: R2) -> R2 {
    R2 {
        c: clamp_int(tdiv(pitch.c * hr.c - pitch.s * hr.s, SCALE as int), FINE_ROT_LIM as int),
        s: clamp_int(tdiv(pitch.s * hr.c + pitch.c * hr.s, SCALE as int), FINE_ROT_LIM as int),
    }
}

/// The grab state after one frame of world-velocity tracking.
pub open spec fn tracked_grab_spec(g: GrabState, cur: Vec3, dt: u64) -> GrabState {
    if dt > 0 {
        let fv = crate::math::clamp_v3(
            V3 {
                x: tdiv((cur@.x - g.prev_world_pos@.x) * 1_000_000, dt as int),
                y: tdiv((cur@.y - g.prev_world_pos@.y) * 1_000_000, dt as int),
                z: tdiv((cur@.z - g.prev_world_pos@.z) * 1_000_000, dt as int),
            },
            MAX_COORD as int,
        );
        let sm = rate_cap(VELOCITY_SMOOTHING as int, dt);
        GrabState {
            held_velocity: crate::collision::vec3_of(
                crate::math::lerp_v3(g.held_velocity@, fv, sm),
            ),
            prev_world_pos: cur,
            ..g
        }
    } else {
        GrabState { prev_world_pos: cur, ..g }
    }
}

/// A per-second milli rate scaled by the frame delta and capped at one.
pub open spec fn rate_cap(rate: int, dt: u64) -> int {
    if tdiv(rate * dt as int, 1_000) >= SCALE as int {
        SCALE as int
    } else {
        tdiv(rate * dt as int, 1_000)
    }
}

/// The ideal world-space hold position: the pitch-rotated hold offset,
/// rotated by the holder's yaw, from the holder's position.
pub open spec fn world_target_spec(ppos: V3, pyaw: R2, pitch: R2) -> V3 {
    let target = crate::math::pitch_apply(pitch, V3 { x: 0, y: 500, z: 1500 });
    let yawed = crate::math::yaw_apply(pyaw, target);
    crate::math::clamp_v3(ppos.plus(yawed), MAX_COORD as int)
}

/// The exact effect of one frame of hold maintenance on the world and the
/// grab state.
pub open spec fn hold_update_spec(
    s0: Seq<Body>,
    g0: GrabState,
    player: int,
    held: int,
    pitch: R2,
    dt: u64,
) -> (Seq<Body>, GrabState) {
    let ppos = s0[player].local.position@;
    let pyaw = s0[player].local.rotation@;
    let wt = world_target_spec(ppos, pyaw, pitch);
    let skipl = hold_skip_spec(s0, held as usize, player as usize, s0.len() as int);
    let rr = match s0[held].collider {
        Some(c) => resolve_iters_spec(s0, c, wt, skipl, HOLD_RESOLVE_ITERS as int),
        None => (s0, wt),
    };
    let eff = to_local_fine_spec(pyaw, rr.1.minus(ppos));
    let f = rate_cap(HOLD_LERP_SPEED as int, dt);
    let rf = rate_cap(PITCH_ROTATION_LERP_SPEED as int, dt);
    let np = crate::math::lerp_v3(s0[held].local.position@, eff, f);
    let tr = hold_target_rot(pitch, g0.held_rotation@);
    let nr = R2 {
        c: crate::math::lerp_int(s0[held].local.rotation@.c, tr.c, rf),
        s: crate::math::lerp_int(s0[held].local.rotation@.s, tr.s, rf),
    };
    let nb = Body {
        local: LocalTransform {
            position: crate::collision::vec3_of(np),
            rotation: Rot { c: nr.c as i64, s: nr.s as i64 },
        },
        velocity: if rr.0[held].velocity is Some {
            Some(Velocity(Vec3 { x: 0, y: 0, z: 0 }))
        } else {
            None
        },
        ..rr.0[held]
    };
    let s1 = rr.0.update(held, nb);
    let g1 = tracked_grab_spec(g0, s0[held].global.position, dt);
    (s1, g1)
}

#[verifier::rlimit(100)]
pub fn hold_update(
    w: &mut World,
    grab: &mut GrabState,
    player_entity: usize,
    held: usize,
    pitch: Rot,
    dt: u64,
)
    requires
        old(w).wf(),
        old(w).n() < usize::MAX as int,
        player_entity < old(w).n(),
        held < old(w).n(),
        held != player_entity,
        old(w).bodies@[held as int].parent is Some,
        old(w).bodies@[player_entity as int].parent is None,
        old(grab).wf(old(w).n()),
        pitch@.bounded(),
        dt <= crate::physics::MAX_FRAME_DT_US,
    ensures
        final(w).wf(),
        final(w).n() == old(w).n(),
        final(grab).wf(final(w).n()),
        final(grab).held_entity == old(grab).held_entity,
        final(grab).is_winding == old(grab).is_winding,
        final(grab).wind_up_time == old(grab).wind_up_time,
        (final(w).bodies@, *final(grab)) == hold_update_spec(
            old(w).bodies@,
            *old(grab),
            player_entity as int,
            held as int,
            pitch@,
            dt,
        ),
        final(w).bodies@[held as int].global == old(w).bodies@[held as int].global,
{
    let ghost s0 = w.bodies@;
    let ghost g0 = *grab;
    let target_pos = pitch.apply_pitch(hold_offset());
    let player_pos = w.bodies[player_entity].local.position;
    let player_yaw = w.bodies[player_entity].local.rotation;
    proof {
        assert(w.bodies@[player_entity as int].ok(w.n()));
        lemma_tdiv_bound((pitch@.c * 500 - pitch@.s * 1500), SCALE as int);
        lemma_mul_bound(pitch@.c, ROT_LIM as int, 1500, 1500);
        lemma_mul_bound(pitch@.s, ROT_LIM as int, 1500, 1500);
    }
    let yawed = player_yaw.apply_yaw(target_pos);
    let world_target = Vec3 {
        x: clamp_i64(player_pos.x + yawed.x, MAX_COORD),
        y: clamp_i64(player_pos.y + yawed.y, MAX_COORD),
        z: clamp_i64(player_pos.z + yawed.z, MAX_COORD),
    };
    let collider_copy = match &w.bodies[held].collider {
        Some(c) => Some(*c),
        None => None,
    };
    let skip = build_hold_skip_list(w, held, player_entity);
    let effective_target: Vec3 = match &collider_copy {
        Some(c) => {
            proof {
                assert(s0[held as int].ok(s0.len() as int));
            }
            let resolved = resolve_held_pos(w, c, world_target, &skip);
            let off = resolved.minus(player_pos);
            assert(off@.bounded(4 * MAX_COORD as int));
            player_yaw.to_local_fine(off)
        },
        None => {
            let off = world_target.minus(player_pos);
            assert(off@.bounded(4 * MAX_COORD as int));
            player_yaw.to_local_fine(off)
        },
    };
    let ghost s1 = w.bodies@;
    // Chase the resolved target: position at the hold lerp rate, rotation
    // toward the stored hold-local orientation at its own rate.
    proof {
        lemma_tdiv_bound(HOLD_LERP_SPEED as int * dt as int, 1_000);
        lemma_mul_bound(HOLD_LERP_SPEED as int, HOLD_LERP_SPEED as int, dt as int, crate::physics::MAX_FRAME_DT_US as int);
        lemma_mul_bound(PITCH_ROTATION_LERP_SPEED as int, PITCH_ROTATION_LERP_SPEED as int, dt as int, crate::physics::MAX_FRAME_DT_US as int);
        lemma_tdiv_bound(PITCH_ROTATION_LERP_SPEED as int * dt as int, 1_000);
    }
    let f0 = div_fix(HOLD_LERP_SPEED * (dt as i64), 1_000);
    let f = if f0 >= SCALE {
        SCALE
    } else {
        f0
    };
    let rf0 = div_fix(PITCH_ROTATION_LERP_SPEED * (dt as i64), 1_000);
    let rf = if rf0 >= SCALE {
        SCALE
    } else {
        rf0
    };
    let cur_local = w.bodies[held].local.position;
    let cur_rot = w.bodies[held].local.rotation;
    proof {
        assert(s1[held as int].ok(s1.len() as int));
        assert(s1[held as int].parent == s0[held as int].parent);
    }
    let np = Vec3 {
        x: lerp_fix(cur_local.x, effective_target.x, f),
        y: lerp_fix(cur_local.y, effective_target.y, f),
        z: lerp_fix(cur_local.z, effective_target.z, f),
    };
    let hr = grab.held_rotation;
    proof {
        lemma_mul_bound(pitch@.c, ROT_LIM as int, hr@.c, FINE_ROT_LIM as int);
        lemma_mul_bound(pitch@.s, ROT_LIM as int, hr@.s, FINE_ROT_LIM as int);
        lemma_mul_bound(pitch@.s, ROT_LIM as int, hr@.c, FINE_ROT_LIM as int);
        lemma_mul_bound(pitch@.c, ROT_LIM as int, hr@.s, FINE_ROT_LIM as int);
        lemma_tdiv_bound(pitch@.c * hr@.c - pitch@.s * hr@.s, SCALE as int);
        lemma_tdiv_bound(pitch@.s * hr@.c + pitch@.c * hr@.s, SCALE as int);
    }
    let target_rot = Rot {
        c: clamp_i64(div_fix(pitch.c * hr.c - pitch.s * hr.s, SCALE), FINE_ROT_LIM),
        s: clamp_i64(div_fix(pitch.s * hr.c + pitch.c * hr.s, SCALE), FINE_ROT_LIM),
    };
    let nr = Rot {
        c: lerp_fix(cur_rot.c, target_rot.c, rf),
        s: lerp_fix(cur_rot.s, target_rot.s, rf),
    };
    w.bodies[held].local = LocalTransform { position: np, rotation: nr };
    match &w.bodies[held].velocity {
        Some(_) => {
            w.bodies[held].velocity = Some(Velocity(Vec3 { x: 0, y: 0, z: 0 }));
        },
        None => {},
    }
    proof {
        let s = w.bodies@;
        assert forall|i: int| 0 <= i < s.len() implies (#[trigger] s[i]).ok(s.len() as int) && (
        s[i].parent is Some ==> s[s[i].parent->0 as int].parent is None) by {
            assert(s1[i].ok(s1.len() as int));
            if s[i].parent is Some {
                let pp = s[i].parent->0 as int;
                assert(s[pp].parent == s1[pp].parent);
            }
        }
    }
    track_held_velocity(w, grab, held, dt);
    proof {
        let spec_r = hold_update_spec(s0, g0, player_entity as int, held as int, pitch@, dt);
        assert(cur_local == s0[held as int].local.position);
        assert(cur_rot == s0[held as int].local.rotation);
        assert(w.bodies@[held as int].local == spec_r.0[held as int].local);
        assert(w.bodies@[held as int].velocity == spec_r.0[held as int].velocity);
        assert(w.bodies@[held as int] == spec_r.0[held as int]);
        assert(w.bodies@ =~= spec_r.0);
        assert(*grab == spec_r.1);
    }
}

/// Update the exponentially smoothed world-velocity estimate of the held
/// object from its frame-to-frame position delta.
fn track_held_velocity(w: &World, grab: &mut GrabState, held: usize, dt: u64)
    requires
        w.wf(),
        held < w.n(),
        old(grab).wf(w.n()),
        dt <= crate::physics::MAX_FRAME_DT_US,
    ensures
        final(grab).wf(w.n()),
        final(grab).held_entity == old(grab).held_entity,
        final(grab).is_winding == old(grab).is_winding,
        final(grab).wind_up_time == old(grab).wind_up_time,
        *final(grab) == tracked_grab_spec(*old(grab), w.bodies@[held as int].global.position, dt),
{
    let cur_world = w.bodies[held].global.position;
    proof {
        assert(w.bodies@[held as int].ok(w.n()));
    }
    if dt > 0 {
        let prev = grab.prev_world_pos;
        proof {
            lemma_mul_bound(cur_world@.x - prev@.x, 2 * MAX_COORD as int, 1_000_000, 1_000_000);
            lemma_mul_bound(cur_world@.y - prev@.y, 2 * MAX_COORD as int, 1_000_000, 1_000_000);
            lemma_mul_bound(cur_world@.z - prev@.z, 2 * MAX_COORD as int, 1_000_000, 1_000_000);
            lemma_tdiv_bound((cur_world@.x - prev@.x) * 1_000_000, dt as int);
            lemma_tdiv_bound((cur_world@.y - prev@.y) * 1_000_000, dt as int);
            lemma_tdiv_bound((cur_world@.z - prev@.z) * 1_000_000, dt as int);
            lemma_mul_bound(VELOCITY_SMOOTHING as int, VELOCITY_SMOOTHING as int, dt as int, crate::physics::MAX_FRAME_DT_US as int);
            lemma_tdiv_bound(VELOCITY_SMOOTHING as int * dt as int, 1_000);
        }
        let frame_vel = Vec3 {
            x: clamp_i64(div_fix((cur_world.x - prev.x) * 1_000_000, dt as i64), MAX_COORD),
            y: clamp_i64(div_fix((cur_world.y - prev.y) * 1_000_000, dt as i64), MAX_COORD),
            z: clamp_i64(div_fix((cur_world.z - prev.z) * 1_000_000, dt as i64), MAX_COORD),
        };
        let sm0 = div_fix(VELOCITY_SMOOTHING * (dt as i64), 1_000);
        let sm = if sm0 >= SCALE {
            SCALE
        } else {
            sm0
        };
        grab.held_velocity = Vec3 {
            x: lerp_fix(grab.held_velocity.x, frame_vel.x, sm),
            y: lerp_fix(grab.held_velocity.y, frame_vel.y, sm),
            z: lerp_fix(grab.held_velocity.z, frame_vel.z, sm),
        };
    }
    grab.prev_world_pos = cur_world;
}


/// The held object is still meaningfully attached under the holder.
pub open spec fn attached_spec(s: Seq<Body>, h: int, player: int) -> bool {
    0 <= h < s.len() && h != player && s[h].held is Some && s[h].parent == Some(player as usize)
}

/// A tracked velocity damped by a milli factor, saturated into range.
pub open spec fn damped_velocity_spec(hv: Vec3, factor: int) -> Vec3 {
    crate::collision::vec3_of(
        crate::math::clamp_v3(
            V3 {
                x: tdiv(hv@.x * factor, SCALE as int),
                y: tdiv(hv@.y * factor, SCALE as int),
                z: tdiv(hv@.z * factor, SCALE as int),
            },
            MAX_COORD as int,
        ),
    )
}

/// The held object's current-frame world position: the holder's pose applied
/// to the fine-scale local pose, not the render-lagged propagated transform.
pub open spec fn current_pose_pos_spec(s: Seq<Body>, player: int, h: int) -> Vec3 {
    crate::collision::vec3_of(
        crate::math::clamp_v3(
            s[player].local.position@.plus(
                crate::math::from_local_fine_spec(
                    s[player].local.rotation@,
                    s[h].local.position@,
                ),
            ),
            MAX_COORD as int,
        ),
    )
}

/// The held object's current-frame world orientation.
pub open spec fn current_pose_rot_spec(s: Seq<Body>, player: int, h: int) -> Rot {
    let r = crate::math::rot_from_local_fine_spec(
        s[player].local.rotation@,
        s[h].local.rotation@,
    );
    Rot { c: r.c as i64, s: r.s as i64 }
}

/// Angle drop fires when the object sits behind the view direction.
pub open spec fn angle_drop_spec(s: Seq<Body>, player: int, h: int, front: Vec3) -> bool {
    front@.dot(current_pose_pos_spec(s, player, h)@.minus(s[player].local.position@)) < 0
}

/// Stretch drop fires when the object is beyond the rubber-band threshold
/// from its ideal hold position and static geometry blocks the direct path
/// back.
pub open spec fn stretch_drop_spec(s: Seq<Body>, player: int, h: int, pitch: R2) -> bool {
    s[h].collider is Some && {
        let br0 = bounding_radius_spec(s[h].collider->0);
        let br = if br0 > MAX_COORD as int {
            MAX_COORD as int
        } else {
            br0
        };
        let cur = current_pose_pos_spec(s, player, h)@;
        let wt = world_target_spec(s[player].local.position@, s[player].local.rotation@, pitch);
        let delta = wt.minus(cur);
        br > 0 && delta.len() > STRETCH_DROP_THRESHOLD as int
            && crate::collision::sweep_static_spec(
            s,
            hold_skip_spec(s, h as usize, player as usize, s.len() as int),
            br,
            cur,
            delta,
        ) < SCALE as int
    }
}

/// The wind-up timer after one charging frame: advanced by the frame delta,
/// capped at the maximum.
pub open spec fn wind_time_spec(t: u64, dt: u64) -> u64 {
    if dt < MAX_WIND_UP_TIME && t <= MAX_WIND_UP_TIME - dt {
        (t + dt) as u64
    } else {
        MAX_WIND_UP_TIME
    }
}

/// The throw velocity: the view direction scaled by the wind-up-mapped
/// force between the two bounds, plus the damped tracked momentum.
pub open spec fn throw_velocity_spec(front: Vec3, wind: u64, hv: Vec3) -> Vec3 {
    let t = clamp_int((wind as int) * (SCALE as int) / (MAX_WIND_UP_TIME as int), SCALE as int);
    let force = MIN_THROW_FORCE as int + tdiv(
        (MAX_THROW_FORCE as int - MIN_THROW_FORCE as int) * t,
        SCALE as int,
    );
    crate::collision::vec3_of(
        crate::math::clamp_v3(
            V3 {
                x: tdiv(front@.x * force, SCALE as int) + tdiv(
                    hv@.x * (HELD_VELOCITY_DAMPER as int),
                    SCALE as int,
                ),
                y: tdiv(front@.y * force, SCALE as int) + tdiv(
                    hv@.y * (HELD_VELOCITY_DAMPER as int),
                    SCALE as int,
                ),
                z: tdiv(front@.z * force, SCALE as int) + tdiv(
                    hv@.z * (HELD_VELOCITY_DAMPER as int),
                    SCALE as int,
                ),
            },
            MAX_COORD as int,
        ),
    )
}

/// A grab succeeded on entity `h`: everything [`try_grab`] promises of a hit.
pub open spec fn grabbed_post(
    s0: Seq<Body>,
    g0: GrabState,
    s1: Seq<Body>,
    g1: GrabState,
    player: int,
    h: int,
) -> bool {
    let b0 = s0[h];
    let b1 = s1[h];
    let p0 = s0[player];
    &&& 0 <= h < s0.len()
    &&& h != player
    &&& b0.grabbable is Some
    &&& b0.static_body is None
    &&& b0.parent is None
    &&& b1.parent == Some(player as usize)
    &&& b1.held == Some(Held)
    &&& b1.owner == Some(NoSelfCollision(player as usize))
    &&& b1.local.position@ == to_local_fine_spec(
        p0.local.rotation@,
        b0.local.position@.minus(p0.local.position@),
    )
    &&& b1.local.rotation@ == rot_to_local_fine_spec(p0.local.rotation@, b0.local.rotation@)
    &&& b1.velocity == b0.velocity
    &&& b1.global == b0.global
    &&& b1.collider == b0.collider
    &&& g1.held_entity == Some(h as usize)
    &&& g1.held_rotation == b1.local.rotation
    &&& g1.wind_up_time == 0
    &&& !g1.is_winding
    &&& g1.prev_world_pos == b0.local.position
    &&& g1.held_velocity@ == (V3 { x: 0, y: 0, z: 0 })
    &&& (forall|k: int| 0 <= k < s0.len() && k != h && k != player ==> s1[k] == s0[k])
    &&& s1[player].local == p0.local
    &&& s1[player].parent is None
}

/// A grab attempt ran: either nothing qualified and nothing changed, or
/// some grabbable entity was promoted to held.
pub open spec fn grab_attempt_post(
    s0: Seq<Body>,
    g0: GrabState,
    s1: Seq<Body>,
    g1: GrabState,
    player: int,
) -> bool {
    (s1 == s0 && g1 == g0) || (exists|h: int| #[trigger] grabbed_post(s0, g0, s1, g1, player, h))
}

/// The held object's current-frame world pose, from the holder's transform
/// and the fine-scale local pose.
fn current_frame_pose(w: &World, player_entity: usize, held: usize) -> (r: (Vec3, Rot))
    requires
        w.wf(),
        player_entity < w.n(),
        held < w.n(),
        w.bodies@[held as int].parent is Some,
        w.bodies@[player_entity as int].parent is None,
    ensures
        r.0 == current_pose_pos_spec(w.bodies@, player_entity as int, held as int),
        r.1 == current_pose_rot_spec(w.bodies@, player_entity as int, held as int),
        r.0@.bounded(MAX_COORD as int),
{
    proof {
        assert(w.bodies@[player_entity as int].ok(w.n()));
        assert(w.bodies@[held as int].ok(w.n()));
    }
    let ppos = w.bodies[player_entity].local.position;
    let pyaw = w.bodies[player_entity].local.rotation;
    let local = w.bodies[held].local.position;
    let lrot = w.bodies[held].local.rotation;
    let off = pyaw.from_local_fine(local);
    proof {
        let lim = 8 * ROT_LIM as int * MAX_COORD as int;
        lemma_mul_bound(pyaw@.c, ROT_LIM as int, local@.x, lim);
        lemma_mul_bound(pyaw@.s, ROT_LIM as int, local@.z, lim);
        lemma_mul_bound(pyaw@.s, ROT_LIM as int, local@.x, lim);
        lemma_mul_bound(pyaw@.c, ROT_LIM as int, local@.z, lim);
        lemma_tdiv_le(
            pyaw@.c * local@.x - pyaw@.s * local@.z,
            SCALE as int * SCALE as int,
            3_200_000_000_000,
        );
        lemma_tdiv_le(
            pyaw@.s * local@.x + pyaw@.c * local@.z,
            SCALE as int * SCALE as int,
            3_200_000_000_000,
        );
        lemma_tdiv_le(local@.y, SCALE as int, 1_600_000_000_000);
    }
    let pos = Vec3 {
        x: clamp_i64(ppos.x + off.x, MAX_COORD),
        y: clamp_i64(ppos.y + off.y, MAX_COORD),
        z: clamp_i64(ppos.z + off.z, MAX_COORD),
    };
    let rot = pyaw.rot_from_local_fine(lrot);
    (pos, rot)
}

/// The grab/throw controller, run once per render frame. Returns the
/// movement-speed multiplier in milli: `SCALE` normally, the wind-up
/// slowdown while charging a throw.
#[verifier::rlimit(100)]
pub fn grab_throw_system(
    w: &mut World,
    grab: &mut GrabState,
    player_entity: usize,
    input: &GrabInput,
    front: Vec3,
    pitch: Rot,
    dt: u64,
) -> (mult: i64)
    requires
        old(w).wf(),
        old(w).n() < usize::MAX as int,
        player_entity < old(w).n(),
        old(w).bodies@[player_entity as int].parent is None,
        old(grab).wf(old(w).n()),
        front@.bounded(SCALE as int),
        pitch@.bounded(),
        dt <= crate::physics::MAX_FRAME_DT_US,
    ensures
        final(w).wf(),
        final(w).n() == old(w).n(),
        final(grab).wf(final(w).n()),
        mult == SCALE || mult == WIND_UP_MOVE_SLOWDOWN,
        mult == WIND_UP_MOVE_SLOWDOWN ==> final(grab).is_winding,
        old(grab).held_entity is None && !(input.grab_pressed && input.modifier_held)
            ==> final(w).bodies@ == old(w).bodies@ && *final(grab) == *old(grab) && mult
            == SCALE,
        old(grab).held_entity is None && input.grab_pressed && input.modifier_held ==> mult
            == SCALE && grab_attempt_post(
            old(w).bodies@,
            *old(grab),
            final(w).bodies@,
            *final(grab),
            player_entity as int,
        ),
        ({
            let s0 = old(w).bodies@;
            let g0 = *old(grab);
            let s1 = final(w).bodies@;
            let g1 = *final(grab);
            let p = player_entity as int;
            g0.held_entity is Some ==> {
                let h = g0.held_entity->0 as int;
                let should_drop = (!input.modifier_held || !input.grab_held) && !g0.is_winding;
                let dv = damped_velocity_spec(g0.held_velocity, DROP_VELOCITY_DAMPER as int);
                &&& (!attached_spec(s0, h, p) ==> s1 == s0 && g1 == (GrabState {
                    held_entity: None,
                    wind_up_time: 0,
                    is_winding: false,
                    ..g0
                }) && mult == SCALE)
                &&& (attached_spec(s0, h, p) && should_drop ==> released_post(
                    s0,
                    g0,
                    s1,
                    g1,
                    p,
                    h,
                    s0[h].global.position,
                    s0[h].global.rotation,
                    dv,
                ) && mult == SCALE)
                &&& (attached_spec(s0, h, p) && !should_drop && angle_drop_spec(s0, p, h, front)
                    ==> released_post(
                    s0,
                    g0,
                    s1,
                    g1,
                    p,
                    h,
                    current_pose_pos_spec(s0, p, h),
                    current_pose_rot_spec(s0, p, h),
                    dv,
                ) && mult == SCALE)
                &&& (attached_spec(s0, h, p) && !should_drop && !angle_drop_spec(s0, p, h, front)
                    && stretch_drop_spec(s0, p, h, pitch@) ==> released_post(
                    s0,
                    g0,
                    s1,
                    g1,
                    p,
                    h,
                    current_pose_pos_spec(s0, p, h),
                    current_pose_rot_spec(s0, p, h),
                    dv,
                ) && mult == SCALE)
                &&& (attached_spec(s0, h, p) && !should_drop && !angle_drop_spec(s0, p, h, front)
                    && !stretch_drop_spec(s0, p, h, pitch@) ==> {
                    let hu = hold_update_spec(s0, g0, p, h, pitch@, dt);
                    &&& (input.wind_held ==> s1 == hu.0 && g1 == (GrabState {
                        is_winding: true,
                        wind_up_time: wind_time_spec(g0.wind_up_time, dt),
                        ..hu.1
                    }) && mult == WIND_UP_MOVE_SLOWDOWN)
                    &&& (!input.wind_held && input.throw_released && g0.is_winding
                        ==> released_post(
                        hu.0,
                        hu.1,
                        s1,
                        g1,
                        p,
                        h,
                        s0[h].global.position,
                        s0[h].global.rotation,
                        throw_velocity_spec(front, g0.wind_up_time, hu.1.held_velocity),
                    ) && mult == SCALE)
                    &&& (!input.wind_held && !(input.throw_released && g0.is_winding) ==> s1
                        == hu.0 && g1 == hu.1 && mult == SCALE)
                })
            }
        }),
{
    let ghost s0 = w.bodies@;
    let ghost g0 = *grab;
    let held_entity = grab.held_entity;
    let is_winding = grab.is_winding;
    let wind_up_time = grab.wind_up_time;
    let held_velocity = grab.held_velocity;
    match held_entity {
        None => {
            if input.grab_pressed && input.modifier_held {
                let grabbed = try_grab(w, grab, player_entity, front);
                proof {
                    match grabbed {
                        Some(h) => {
                            assert(grabbed_post(
                                s0,
                                g0,
                                w.bodies@,
                                *grab,
                                player_entity as int,
                                h as int,
                            ));
                        },
                        None => {},
                    }
                }
            }
            SCALE
        },
        Some(held) => {
            // Safety: the hold is only meaningful while the object is still
            // attached under the holder and marked held.
            let attached = held < w.len() && held != player_entity && w.bodies[held].held.is_some()
                && match w.bodies[held].parent {
                Some(p) => p == player_entity,
                None => false,
            };
            if !attached {
                grab.held_entity = None;
                grab.wind_up_time = 0;
                grab.is_winding = false;
                return SCALE;
            }
            proof {
                lemma_mul_bound(held_velocity@.x, MAX_COORD as int, DROP_VELOCITY_DAMPER as int, SCALE as int);
                lemma_mul_bound(held_velocity@.y, MAX_COORD as int, DROP_VELOCITY_DAMPER as int, SCALE as int);
                lemma_mul_bound(held_velocity@.z, MAX_COORD as int, DROP_VELOCITY_DAMPER as int, SCALE as int);
                lemma_tdiv_bound(held_velocity@.x * DROP_VELOCITY_DAMPER as int, SCALE as int);
                lemma_tdiv_bound(held_velocity@.y * DROP_VELOCITY_DAMPER as int, SCALE as int);
                lemma_tdiv_bound(held_velocity@.z * DROP_VELOCITY_DAMPER as int, SCALE as int);
            }
            let drop_vel = Vec3 {
                x: clamp_i64(div_fix(held_velocity.x * DROP_VELOCITY_DAMPER, SCALE), MAX_COORD),
                y: clamp_i64(div_fix(held_velocity.y * DROP_VELOCITY_DAMPER, SCALE), MAX_COORD),
                z: clamp_i64(div_fix(held_velocity.z * DROP_VELOCITY_DAMPER, SCALE), MAX_COORD),
            };
            proof {
                assert(drop_vel == damped_velocity_spec(g0.held_velocity, DROP_VELOCITY_DAMPER as int));
            }
            // Drop when the modifier or the grab button is released, unless
            // a throw is being wound. A plain drop restores the propagated
            // world pose, as the un-parenting of a rendered object does.
            let should_drop = (!input.modifier_held || !input.grab_held) && !is_winding;
            if should_drop {
                let pose = extract_world_transform(w, held);
                release_held(w, grab, player_entity, held, pose.0, pose.1, drop_vel);
                return SCALE;
            }
            // The safety drops release at the current-frame pose instead, so
            // the object is dropped at its valid pre-clip location, not at
            // the render-lagged transform.
            let cur = current_frame_pose(w, player_entity, held);
            let current_world_pos = cur.0;
            let player_pos = w.bodies[player_entity].local.position;
            proof {
                assert(w.bodies@[player_entity as int].ok(w.n()));
            }
            // Angle drop: the holder has turned their back on the object.
            // The sign of the dot product is unchanged by normalization, so
            // the raw dot against the view direction decides.
            let dir_to_held = current_world_pos.minus(player_pos);
            if front.dot(dir_to_held) < 0 {
                release_held(w, grab, player_entity, held, cur.0, cur.1, drop_vel);
                return SCALE;
            }
            // Stretch drop: too far from the ideal hold position while the
            // direct path back is blocked by static geometry.
            let target_pos = pitch.apply_pitch(hold_offset());
            let player_yaw = w.bodies[player_entity].local.rotation;
            let yawed = player_yaw.apply_yaw(target_pos);
            let world_target = Vec3 {
                x: clamp_i64(player_pos.x + yawed.x, MAX_COORD),
                y: clamp_i64(player_pos.y + yawed.y, MAX_COORD),
                z: clamp_i64(player_pos.z + yawed.z, MAX_COORD),
            };
            match &w.bodies[held].collider {
                Some(c) => {
                    proof {
                        assert(w.bodies@[held as int].ok(w.n()));
                    }
                    let cc = *c;
                    let br0 = collider_bounding_radius(&cc);
                    let br = if br0 > MAX_COORD {
                        MAX_COORD
                    } else {
                        br0
                    };
                    let delta = world_target.minus(current_world_pos);
                    let stretch = delta.length();
                    if br > 0 && stretch > STRETCH_DROP_THRESHOLD {
                        let skip = build_hold_skip_list(w, held, player_entity);
                        let t = sweep_sphere_static(w, br, current_world_pos, delta, &skip);
                        if t < SCALE {
                            proof {
                                assert(stretch_drop_spec(
                                    w.bodies@,
                                    player_entity as int,
                                    held as int,
                                    pitch@,
                                ));
                            }
                            release_held(w, grab, player_entity, held, cur.0, cur.1, drop_vel);
                            return SCALE;
                        }
                    }
                    proof {
                        assert(!stretch_drop_spec(
                            w.bodies@,
                            player_entity as int,
                            held as int,
                            pitch@,
                        ));
                    }
                },
                None => {},
            }
            // Maintain the hold pose and the velocity estimate.
            let ghost s_pre_hold = w.bodies@;
            let ghost g_pre_hold = *grab;
            hold_update(w, grab, player_entity, held, pitch, dt);
            let ghost s_hold = w.bodies@;
            let ghost g_hold = *grab;
            // Wind-up: charging a throw slows movement.
            if input.wind_held {
                grab.is_winding = true;
                grab.wind_up_time = if dt < MAX_WIND_UP_TIME && grab.wind_up_time
                    <= MAX_WIND_UP_TIME - dt {
                    grab.wind_up_time + dt
                } else {
                    MAX_WIND_UP_TIME
                };
                return WIND_UP_MOVE_SLOWDOWN;
            }
            // Throw on release of the wind-up.
            if input.throw_released && is_winding {
                let throw_t = clamp_i64(
                    ((wind_up_time as i64) * SCALE) / (MAX_WIND_UP_TIME as i64),
                    SCALE,
                );
                proof {
                    lemma_mul_bound(
                        MAX_THROW_FORCE as int - MIN_THROW_FORCE as int,
                        15_000,
                        throw_t as int,
                        SCALE as int,
                    );
                    lemma_tdiv_bound(
                        (MAX_THROW_FORCE as int - MIN_THROW_FORCE as int) * throw_t as int,
                        SCALE as int,
                    );
                }
                let force = MIN_THROW_FORCE + div_fix(
                    (MAX_THROW_FORCE - MIN_THROW_FORCE) * throw_t,
                    SCALE,
                );
                proof {
                    lemma_mul_bound(front@.x, SCALE as int, force as int, 20_000);
                    lemma_mul_bound(front@.y, SCALE as int, force as int, 20_000);
                    lemma_mul_bound(front@.z, SCALE as int, force as int, 20_000);
                    lemma_tdiv_bound(front@.x * force as int, SCALE as int);
                    lemma_tdiv_bound(front@.y * force as int, SCALE as int);
                    lemma_tdiv_bound(front@.z * force as int, SCALE as int);
                    lemma_mul_bound(grab.held_velocity@.x, MAX_COORD as int, HELD_VELOCITY_DAMPER as int, SCALE as int);
                    lemma_mul_bound(grab.held_velocity@.y, MAX_COORD as int, HELD_VELOCITY_DAMPER as int, SCALE as int);
                    lemma_mul_bound(grab.held_velocity@.z, MAX_COORD as int, HELD_VELOCITY_DAMPER as int, SCALE as int);
                    lemma_tdiv_bound(grab.held_velocity@.x * HELD_VELOCITY_DAMPER as int, SCALE as int);
                    lemma_tdiv_bound(grab.held_velocity@.y * HELD_VELOCITY_DAMPER as int, SCALE as int);
                    lemma_tdiv_bound(grab.held_velocity@.z * HELD_VELOCITY_DAMPER as int, SCALE as int);
                }
                let throw_vel = Vec3 {
                    x: clamp_i64(
                        div_fix(front.x * force, SCALE) + div_fix(
                            grab.held_velocity.x * HELD_VELOCITY_DAMPER,
                            SCALE,
                        ),
                        MAX_COORD,
                    ),
                    y: clamp_i64(
                        div_fix(front.y * force, SCALE) + div_fix(
                            grab.held_velocity.y * HELD_VELOCITY_DAMPER,
                            SCALE,
                        ),
                        MAX_COORD,
                    ),
                    z: clamp_i64(
                        div_fix(front.z * force, SCALE) + div_fix(
                            grab.held_velocity.z * HELD_VELOCITY_DAMPER,
                            SCALE,
                        ),
                        MAX_COORD,
                    ),
                };
                proof {
                    assert(throw_vel == throw_velocity_spec(front, wind_up_time, g_hold.held_velocity));
                }
                let pose = extract_world_transform(w, held);
                proof {
                    assert(pose.0 == s0[held as int].global.position);
                    assert(pose.1 == s0[held as int].global.rotation);
                }
                release_held(w, grab, player_entity, held, pose.0, pose.1, throw_vel);
                return SCALE;
            }
            SCALE
        },
    }
}

} // verus!

verus! {

/// Grab round trip: grabbing an object (which stores its pose holder-local
/// at fine scale) and immediately dropping it (which reads the world pose
/// that transform propagation computes from that local pose) restores the
/// object's pre-grab world position and orientation exactly, for an exactly
/// unit holder yaw and an unmoved holder.
pub proof fn lemma_grab_round_trip(yaw: R2, player_pos: V3, obj_pos: V3, obj_rot: R2)
    requires
        yaw.bounded(),
        yaw.c * yaw.c + yaw.s * yaw.s == SCALE as int * SCALE as int,
        player_pos.bounded(MAX_COORD as int),
        obj_pos.bounded(MAX_COORD as int),
        -ROT_LIM <= obj_rot.c <= ROT_LIM,
        -ROT_LIM <= obj_rot.s <= ROT_LIM,
    ensures
        ({
            let local = to_local_fine_spec(yaw, obj_pos.minus(player_pos));
            crate::world::child_pose_pos(player_pos, yaw, local) == obj_pos
        }),
        ({
            let lrot = rot_to_local_fine_spec(yaw, obj_rot);
            let grot = crate::math::rot_from_local_fine_spec(yaw, lrot);
            &&& grot == obj_rot
            &&& clamp_int(grot.c, ROT_LIM as int) == obj_rot.c
            &&& clamp_int(grot.s, ROT_LIM as int) == obj_rot.s
        }),
{
    let off = obj_pos.minus(player_pos);
    assert(yaw.is_unit());
    crate::math::lemma_local_round_trip(yaw, off);
    let local = to_local_fine_spec(yaw, off);
    let back = crate::math::from_local_fine_spec(yaw, local);
    assert(back == off);
    let g = crate::world::child_pose_pos(player_pos, yaw, local);
    assert(player_pos.plus(back) == obj_pos);
    assert(g == crate::math::clamp_v3(obj_pos, MAX_COORD as int));
    assert(crate::math::clamp_v3(obj_pos, MAX_COORD as int) == obj_pos);
    crate::math::lemma_rot_round_trip(yaw, obj_rot);
}

} // verus!
