//! Ray queries against world geometry: nearest grabbable entity along the
//! view ray, and nearest static geometry (camera occlusion).

use vstd::prelude::*;
use crate::collision::kind_of;
use crate::collision::slab_interval;
use crate::collision::slab_interval_exec;
use crate::collision::max3;
use crate::collision::min3;
use crate::collision::ColliderKind;
use crate::components::Collider;
use crate::math::div_fix;
use crate::math::isqrt;
use crate::math::lemma_mul_bound;
use crate::math::lemma_tdiv_bound;
use crate::math::lemma_tdiv_le;
use crate::math::sqrt_floor;
use crate::math::tdiv;
use crate::math::Vec3;
use crate::math::V3;
use crate::math::MAX_COORD;
use crate::math::SCALE;
use crate::world::Body;
use crate::world::World;

verus! {

/// A ray hit: the entity struck, the distance along the ray in milli-units,
/// and the world-space contact point.
pub struct RaycastHit {
    pub entity: usize,
    pub distance: i64,
    pub point: Vec3,
}

/// Ray-sphere intersection distance (milli-units along the unit direction),
/// `None` when the ray misses or the sphere lies behind the origin.
pub open spec fn ray_sphere_spec(origin: V3, dir: V3, center: V3, radius: int) -> Option<int> {
    let oc = origin.minus(center);
    let b = 2 * tdiv(oc.dot(dir), SCALE as int);
    let c = oc.norm2() - radius * radius;
    let disc = b * b - 4 * c;
    if disc < 0 {
        None
    } else {
        let sq = sqrt_floor(disc);
        let t1 = tdiv(-b - sq, 2);
        let t2 = tdiv(-b + sq, 2);
        if t1 > 0 {
            Some(t1)
        } else if t2 > 0 {
            Some(t2)
        } else {
            None
        }
    }
}

/// Ray-capsule intersection, approximated by the nearer of the two
/// hemisphere cap centers and the central sphere.
pub open spec fn ray_capsule_spec(
    origin: V3,
    dir: V3,
    center: V3,
    radius: int,
    height: int,
) -> Option<int> {
    let hh = height / 2;
    let top = V3 { x: center.x, y: center.y + hh, z: center.z };
    let bottom = V3 { x: center.x, y: center.y - hh, z: center.z };
    opt_min(
        opt_min(
            ray_sphere_spec(origin, dir, top, radius),
            ray_sphere_spec(origin, dir, bottom, radius),
        ),
        ray_sphere_spec(origin, dir, center, radius),
    )
}

/// Minimum of two optional distances.
pub open spec fn opt_min(a: Option<int>, b: Option<int>) -> Option<int> {
    match (a, b) {
        (Some(x), Some(y)) => if x <= y {
            Some(x)
        } else {
            Some(y)
        },
        (Some(x), None) => Some(x),
        (None, Some(y)) => Some(y),
        (None, None) => None,
    }
}

/// Ray-AABB intersection by the slab method.
pub open spec fn ray_aabb_spec(origin: V3, dir: V3, center: V3, half: V3) -> Option<int> {
    let bmin = center.minus(half);
    let bmax = center.plus(half);
    match slab_interval(origin.x, dir.x, bmin.x, bmax.x) {
        None => None,
        Some((nx, xx)) => match slab_interval(origin.y, dir.y, bmin.y, bmax.y) {
            None => None,
            Some((ny, xy)) => match slab_interval(origin.z, dir.z, bmin.z, bmax.z) {
                None => None,
                Some((nz, xz)) => {
                    let tmin = max3(nx, ny, nz);
                    let tmax = min3(xx, xy, xz);
                    if tmax < 0 || tmin > tmax {
                        None
                    } else if tmin < 0 {
                        Some(tmax)
                    } else {
                        Some(tmin)
                    }
                },
            },
        },
    }
}

/// The intersection distance of a ray with one collider; planes are skipped
/// (they are infinite floors, not grab or occlusion targets).
pub open spec fn ray_shape_spec(origin: V3, dir: V3, center: V3, kind: ColliderKind) -> Option<
    int,
> {
    match kind {
        ColliderKind::Sphere { radius } => ray_sphere_spec(origin, dir, center, radius as int),
        ColliderKind::Capsule { radius, half_height } => ray_capsule_spec(
            origin,
            dir,
            center,
            radius as int,
            2 * half_height as int,
        ),
        ColliderKind::Box { half_extents } => ray_aabb_spec(origin, dir, center, half_extents@),
        ColliderKind::Plane { .. } => None,
    }
}

pub fn ray_sphere_intersection(origin: Vec3, dir: Vec3, center: Vec3, radius: i64) -> (r: Option<
    i64,
>)
    requires
        origin@.bounded(2 * MAX_COORD as int),
        dir@.bounded(SCALE as int),
        center@.bounded(150_000_000),
        0 < radius <= MAX_COORD,
    ensures
        match r {
            Some(t) => ray_sphere_spec(origin@, dir@, center@, radius as int) == Some(t as int)
                && t > 0,
            None => ray_sphere_spec(origin@, dir@, center@, radius as int) is None,
        },
{
    let oc = origin.minus(center);
    proof {
        lemma_mul_bound(oc@.x, 350_000_000, dir@.x, SCALE as int);
        lemma_mul_bound(oc@.y, 350_000_000, dir@.y, SCALE as int);
        lemma_mul_bound(oc@.z, 350_000_000, dir@.z, SCALE as int);
        lemma_tdiv_le(oc@.dot(dir@), SCALE as int, 1_050_000_000);
        lemma_mul_bound(oc@.x, 350_000_000, oc@.x, 350_000_000);
        lemma_mul_bound(oc@.y, 350_000_000, oc@.y, 350_000_000);
        lemma_mul_bound(oc@.z, 350_000_000, oc@.z, 350_000_000);
        lemma_mul_bound(radius as int, 100_000_000, radius as int, 100_000_000);
        assert(oc@.x * oc@.x >= 0 && oc@.y * oc@.y >= 0 && oc@.z * oc@.z >= 0)
            by (nonlinear_arith);
    }
    let b = 2 * div_fix(oc.dot(dir), SCALE);
    let c = oc.dot(oc) - radius * radius;
    proof {
        lemma_mul_bound(b as int, 2_100_000_000, b as int, 2_100_000_000);
    }
    let bb = b * b;
    if bb < 4 * c {
        proof {
            assert(bb as int - 4 * (c as int) < 0);
        }
        return None;
    }
    let disc = bb - 4 * c;
    let sq = isqrt(disc as u64) as i64;
    proof {
        lemma_tdiv_bound(-(b as int) - sq as int, 2);
        lemma_tdiv_bound(-(b as int) + sq as int, 2);
    }
    let t1 = div_fix(-b - sq, 2);
    let t2 = div_fix(-b + sq, 2);
    if t1 > 0 {
        Some(t1)
    } else if t2 > 0 {
        Some(t2)
    } else {
        None
    }
}

pub fn ray_capsule_intersection(
    origin: Vec3,
    dir: Vec3,
    center: Vec3,
    radius: i64,
    height: i64,
) -> (r: Option<i64>)
    requires
        origin@.bounded(2 * MAX_COORD as int),
        dir@.bounded(SCALE as int),
        center@.bounded(MAX_COORD as int),
        0 < radius <= MAX_COORD,
        0 <= height <= MAX_COORD,
    ensures
        match r {
            Some(t) => ray_capsule_spec(origin@, dir@, center@, radius as int, height as int)
                == Some(t as int) && t > 0,
            None => ray_capsule_spec(origin@, dir@, center@, radius as int, height as int)
                is None,
        },
{
    let hh = height / 2;
    let top = Vec3 { x: center.x, y: center.y + hh, z: center.z };
    let bottom = Vec3 { x: center.x, y: center.y - hh, z: center.z };
    let t_top = ray_sphere_intersection(origin, dir, top, radius);
    let t_bottom = ray_sphere_intersection(origin, dir, bottom, radius);
    let t_center = ray_sphere_intersection(origin, dir, center, radius);
    let m1 = opt_min_exec(t_top, t_bottom);
    opt_min_exec(m1, t_center)
}

fn opt_min_exec(a: Option<i64>, b: Option<i64>) -> (r: Option<i64>)
    ensures
        match r {
            Some(t) => opt_min(
                match a {
                    Some(x) => Some(x as int),
                    None => None,
                },
                match b {
                    Some(y) => Some(y as int),
                    None => None,
                },
            ) == Some(t as int),
            None => a is None && b is None,
        },
{
    match (a, b) {
        (Some(x), Some(y)) => if x <= y {
            Some(x)
        } else {
            Some(y)
        },
        (Some(x), None) => Some(x),
        (None, Some(y)) => Some(y),
        (None, None) => None,
    }
}

pub fn ray_aabb_intersection(origin: Vec3, dir: Vec3, center: Vec3, half: Vec3) -> (r: Option<
    i64,
>)
    requires
        origin@.bounded(2 * MAX_COORD as int),
        dir@.bounded(SCALE as int),
        center@.bounded(MAX_COORD as int),
        0 < half@.x <= MAX_COORD && 0 < half@.y <= MAX_COORD && 0 < half@.z <= MAX_COORD,
    ensures
        match r {
            Some(t) => ray_aabb_spec(origin@, dir@, center@, half@) == Some(t as int),
            None => ray_aabb_spec(origin@, dir@, center@, half@) is None,
        },
{
    let bmin = center.minus(half);
    let bmax = center.plus(half);
    let sx = slab_interval_exec(origin.x, dir.x, bmin.x, bmax.x);
    match sx {
        None => None,
        Some(px) => {
            let sy = slab_interval_exec(origin.y, dir.y, bmin.y, bmax.y);
            match sy {
                None => None,
                Some(py) => {
                    let sz = slab_interval_exec(origin.z, dir.z, bmin.z, bmax.z);
                    match sz {
                        None => None,
                        Some(pz) => {
                            let tmin = crate::collision::max3_exec(px.0, py.0, pz.0);
                            let tmax = crate::collision::min3_exec(px.1, py.1, pz.1);
                            if tmax < 0 || tmin > tmax {
                                None
                            } else if tmin < 0 {
                                Some(tmax)
                            } else {
                                Some(tmin)
                            }
                        },
                    }
                },
            }
        },
    }
}

/// The distance at which the ray strikes grabbable entity `e`, when it does
/// so within `maxd` and in front of the origin.
pub open spec fn grab_candidate(
    s: Seq<Body>,
    e: int,
    origin: V3,
    dir: V3,
    maxd: int,
) -> Option<int> {
    if s[e].grabbable is Some && s[e].collider is Some {
        match ray_shape_spec(origin, dir, s[e].global.position@, kind_of(s[e].collider->0)) {
            Some(t) => if 0 < t <= maxd {
                Some(t)
            } else {
                None
            },
            None => None,
        }
    } else {
        None
    }
}

/// Cast a ray against all grabbable entities, returning the nearest hit
/// within `max_distance` (milli-units). The returned distance is minimal
/// among all grabbable candidates.
pub fn raycast_grabbable(w: &World, origin: Vec3, dir: Vec3, max_distance: i64) -> (r: Option<
    RaycastHit,
>)
    requires
        w.wf(),
        origin@.bounded(2 * MAX_COORD as int),
        dir@.bounded(SCALE as int),
        0 < max_distance <= MAX_COORD,
    ensures
        match r {
            Some(hit) => {
                &&& hit.entity < w.n()
                &&& grab_candidate(w.bodies@, hit.entity as int, origin@, dir@, max_distance as int)
                    == Some(hit.distance as int)
                &&& 0 < hit.distance <= max_distance
                &&& forall|e: int|
                    0 <= e < w.n() && (#[trigger] grab_candidate(
                        w.bodies@,
                        e,
                        origin@,
                        dir@,
                        max_distance as int,
                    )) is Some ==> hit.distance as int <= grab_candidate(
                        w.bodies@,
                        e,
                        origin@,
                        dir@,
                        max_distance as int,
                    )->0
                &&& hit.point@ == (V3 {
                    x: origin@.x + tdiv(dir@.x * hit.distance as int, SCALE as int),
                    y: origin@.y + tdiv(dir@.y * hit.distance as int, SCALE as int),
                    z: origin@.z + tdiv(dir@.z * hit.distance as int, SCALE as int),
                })
            },
            None => forall|e: int|
                0 <= e < w.n() ==> (#[trigger] grab_candidate(
                    w.bodies@,
                    e,
                    origin@,
                    dir@,
                    max_distance as int,
                )) is None,
        },
{
    let n = w.len();
    let mut best_e: usize = 0;
    let mut best_t: i64 = 0;
    let mut found = false;
    let mut i: usize = 0;
    while i < n
        invariant
            w.wf(),
            n == w.n(),
            i <= n,
            origin@.bounded(2 * MAX_COORD as int),
            dir@.bounded(SCALE as int),
            0 < max_distance <= MAX_COORD,
            found ==> best_e < n && grab_candidate(
                w.bodies@,
                best_e as int,
                origin@,
                dir@,
                max_distance as int,
            ) == Some(best_t as int) && 0 < best_t <= max_distance,
            forall|e: int|
                0 <= e < i && (#[trigger] grab_candidate(
                    w.bodies@,
                    e,
                    origin@,
                    dir@,
                    max_distance as int,
                )) is Some ==> found && best_t as int <= grab_candidate(
                    w.bodies@,
                    e,
                    origin@,
                    dir@,
                    max_distance as int,
                )->0,
        decreases n - i,
    {
        if w.bodies[i].grabbable.is_some() {
            match &w.bodies[i].collider {
                Some(c) => {
                    proof {
                        assert(w.bodies@[i as int].ok(w.n()));
                        match w.bodies@[i as int].collider->0 {
                            Collider::Capsule { radius, height } => {
                                assert(0 <= height / 2 <= MAX_COORD);
                            },
                            _ => {},
                        }
                    }
                    let center = w.bodies[i].global.position;
                    let t = match c {
                        Collider::Sphere { radius } => ray_sphere_intersection(
                            origin,
                            dir,
                            center,
                            *radius,
                        ),
                        Collider::Capsule { radius, height } => ray_capsule_intersection(
                            origin,
                            dir,
                            center,
                            *radius,
                            *height,
                        ),
                        Collider::Box { half_extents } => ray_aabb_intersection(
                            origin,
                            dir,
                            center,
                            *half_extents,
                        ),
                        Collider::Plane { .. } => None,
                    };
                    proof {
                        match w.bodies@[i as int].collider->0 {
                            Collider::Capsule { radius, height } => {
                                vstd::arithmetic::div_mod::lemma_div_multiples_vanish(
                                    height as int / 2,
                                    2,
                                );
                            },
                            _ => {},
                        }
                    }
                    match t {
                        Some(tt) => {
                            if tt > 0 && tt <= max_distance {
                                if !found || tt < best_t {
                                    best_e = i;
                                    best_t = tt;
                                    found = true;
                                }
                            }
                        },
                        None => {},
                    }
                },
                None => {},
            }
        }
        i = i + 1;
    }
    if found {
        proof {
            lemma_mul_bound(dir@.x, SCALE as int, best_t as int, MAX_COORD as int);
            lemma_mul_bound(dir@.y, SCALE as int, best_t as int, MAX_COORD as int);
            lemma_mul_bound(dir@.z, SCALE as int, best_t as int, MAX_COORD as int);
            lemma_tdiv_bound(dir@.x * best_t as int, SCALE as int);
            lemma_tdiv_bound(dir@.y * best_t as int, SCALE as int);
            lemma_tdiv_bound(dir@.z * best_t as int, SCALE as int);
        }
        let point = Vec3 {
            x: origin.x + div_fix(dir.x * best_t, SCALE),
            y: origin.y + div_fix(dir.y * best_t, SCALE),
            z: origin.z + div_fix(dir.z * best_t, SCALE),
        };
        Some(RaycastHit { entity: best_e, distance: best_t, point })
    } else {
        None
    }
}

/// The distance at which the ray strikes static entity `e` within `maxd`.
pub open spec fn static_candidate(
    s: Seq<Body>,
    e: int,
    origin: V3,
    dir: V3,
    maxd: int,
) -> Option<int> {
    if s[e].static_body is Some && s[e].collider is Some {
        match ray_shape_spec(origin, dir, s[e].global.position@, kind_of(s[e].collider->0)) {
            Some(t) => if 0 < t <= maxd {
                Some(t)
            } else {
                None
            },
            None => None,
        }
    } else {
        None
    }
}

/// Cast a ray against all static geometry, returning the nearest hit
/// distance within `max_distance` (camera occlusion queries).
pub fn raycast_static(w: &World, origin: Vec3, dir: Vec3, max_distance: i64) -> (r: Option<i64>)
    requires
        w.wf(),
        origin@.bounded(2 * MAX_COORD as int),
        dir@.bounded(SCALE as int),
        0 < max_distance <= MAX_COORD,
    ensures
        match r {
            Some(t) => {
                &&& 0 < t <= max_distance
                &&& exists|e: int|
                    0 <= e < w.n() && #[trigger] static_candidate(
                        w.bodies@,
                        e,
                        origin@,
                        dir@,
                        max_distance as int,
                    ) == Some(t as int)
                &&& forall|e: int|
                    0 <= e < w.n() && (#[trigger] static_candidate(
                        w.bodies@,
                        e,
                        origin@,
                        dir@,
                        max_distance as int,
                    )) is Some ==> t as int <= static_candidate(
                        w.bodies@,
                        e,
                        origin@,
                        dir@,
                        max_distance as int,
                    )->0
            },
            None => forall|e: int|
                0 <= e < w.n() ==> (#[trigger] static_candidate(
                    w.bodies@,
                    e,
                    origin@,
                    dir@,
                    max_distance as int,
                )) is None,
        },
{
    let n = w.len();
    let mut best_t: i64 = 0;
    let mut found = false;
    let ghost mut best_e: int = 0;
    let mut i: usize = 0;
    while i < n
        invariant
            w.wf(),
            n == w.n(),
            i <= n,
            origin@.bounded(2 * MAX_COORD as int),
            dir@.bounded(SCALE as int),
            0 < max_distance <= MAX_COORD,
            found ==> 0 <= best_e < n as int && static_candidate(
                w.bodies@,
                best_e,
                origin@,
                dir@,
                max_distance as int,
            ) == Some(best_t as int) && 0 < best_t <= max_distance,
            forall|e: int|
                0 <= e < i && (#[trigger] static_candidate(
                    w.bodies@,
                    e,
                    origin@,
                    dir@,
                    max_distance as int,
                )) is Some ==> found && best_t as int <= static_candidate(
                    w.bodies@,
                    e,
                    origin@,
                    dir@,
                    max_distance as int,
                )->0,
        decreases n - i,
    {
        if w.bodies[i].static_body.is_some() {
            match &w.bodies[i].collider {
                Some(c) => {
                    proof {
                        assert(w.bodies@[i as int].ok(w.n()));
                        match w.bodies@[i as int].collider->0 {
                            Collider::Capsule { radius, height } => {
                                assert(0 <= height / 2 <= MAX_COORD);
                            },
                            _ => {},
                        }
                    }
                    let center = w.bodies[i].global.position;
                    let t = match c {
                        Collider::Sphere { radius } => ray_sphere_intersection(
                            origin,
                            dir,
                            center,
                            *radius,
                        ),
                        Collider::Capsule { radius, height } => ray_capsule_intersection(
                            origin,
                            dir,
                            center,
                            *radius,
                            *height,
                        ),
                        Collider::Box { half_extents } => ray_aabb_intersection(
                            origin,
                            dir,
                            center,
                            *half_extents,
                        ),
                        Collider::Plane { .. } => None,
                    };
                    proof {
                        match w.bodies@[i as int].collider->0 {
                            Collider::Capsule { radius, height } => {
                                vstd::arithmetic::div_mod::lemma_div_multiples_vanish(
                                    height as int / 2,
                                    2,
                                );
                            },
                            _ => {},
                        }
                    }
                    match t {
                        Some(tt) => {
                            if tt > 0 && tt <= max_distance {
                                if !found || tt < best_t {
                                    best_t = tt;
                                    found = true;
                                    proof {
                                        best_e = i as int;
                                    }
                                }
                            }
                        },
                        None => {},
                    }
                },
                None => {},
            }
        }
        i = i + 1;
    }
    if found {
        Some(best_t)
    } else {
        None
    }
}

} // verus!
