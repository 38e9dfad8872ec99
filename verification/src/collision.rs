//! Narrow-phase collision detection: pairwise penetration tests for sphere,
//! capsule, plane and box, canonicalized so that every returned contact
//! normal points from the first-named entity toward the second.
//!
//! Every test is mirrored by a spec function computing the same fixed-point
//! formula, and the executable code is proved to return exactly that value.

use vstd::prelude::*;
use crate::components::Collider;
use crate::components::CollisionEvent;
use crate::components::Velocity;
use crate::components::LocalTransform;
use crate::world::World;
use crate::world::wf_seq;
use crate::world::root_of;
use crate::world::Body;
use crate::math::Vec3;
use crate::math::V3;
use crate::math::Rot;
use crate::math::SCALE;
use crate::math::MAX_COORD;
use crate::math::DOT_LIM;
use crate::math::NORM_LIM;
use crate::math::tdiv;
use crate::math::div_fix;
use crate::math::clamp_int;
use crate::math::clamp_i64;
use crate::math::clamp_v3;
use crate::math::sqrt_floor;
use crate::math::is_sqrt_floor;
use crate::math::lemma_sqrt_floor_exists;
use crate::math::lemma_sqrt_floor_unique;
use crate::math::lemma_sqrt_floor_monotone;
use crate::math::lemma_component_le_len;
use crate::math::lemma_tdiv_le;
use crate::math::lemma_tdiv_bound;
use crate::math::lemma_mul_bound;
use crate::math::abs_int;
use crate::math::abs_fix;
use crate::math::isqrt;

verus! {

/// Collision shape with the capsule height pre-halved, as the tests want it.
#[derive(Clone, Copy, PartialEq, Eq, Structural, Debug)]
pub enum ColliderKind {
    Sphere { radius: i64 },
    Capsule { radius: i64, half_height: i64 },
    Plane { normal: Vec3, offset: i64 },
    Box { half_extents: Vec3 },
}

impl ColliderKind {
    pub open spec fn wf(self) -> bool {
        match self {
            ColliderKind::Sphere { radius } => 0 < radius <= MAX_COORD,
            ColliderKind::Capsule { radius, half_height } => 0 < radius <= MAX_COORD && 0
                <= half_height <= MAX_COORD,
            ColliderKind::Plane { normal, offset } => normal@.bounded(
                NORM_LIM as int,
            ) && -MAX_COORD <= offset <= MAX_COORD,
            ColliderKind::Box { half_extents } => 0 < half_extents@.x <= MAX_COORD && 0
                < half_extents@.y <= MAX_COORD && 0 < half_extents@.z <= MAX_COORD,
        }
    }
}

/// The shape of `c` in the form the pair tests use.
pub open spec fn kind_of(c: Collider) -> ColliderKind {
    match c {
        Collider::Sphere { radius } => ColliderKind::Sphere { radius },
        Collider::Capsule { radius, height } => ColliderKind::Capsule {
            radius,
            half_height: (height / 2) as i64,
        },
        Collider::Plane { normal, offset } => ColliderKind::Plane { normal, offset },
        Collider::Box { half_extents } => ColliderKind::Box { half_extents },
    }
}

pub fn collider_to_kind(collider: &Collider) -> (k: ColliderKind)
    requires
        collider.wf(),
    ensures
        k == kind_of(*collider),
        k.wf(),
{
    match collider {
        Collider::Sphere { radius } => ColliderKind::Sphere { radius: *radius },
        Collider::Capsule { radius, height } => ColliderKind::Capsule {
            radius: *radius,
            half_height: *height / 2,
        },
        Collider::Plane { normal, offset } => ColliderKind::Plane {
            normal: *normal,
            offset: *offset,
        },
        Collider::Box { half_extents } => ColliderKind::Box { half_extents: *half_extents },
    }
}

/// One collidable entity's snapshot for a physics tick.
pub struct ColliderEntry {
    pub entity: usize,
    pub position: Vec3,
    pub collider_kind: ColliderKind,
    pub body_owner: Option<usize>,
}

impl ColliderEntry {
    pub open spec fn wf(self) -> bool {
        self.position@.bounded(MAX_COORD as int) && self.collider_kind.wf()
    }
}

/// Spec-level contact: entities, a normal pointing from `a` toward `b`, and
/// a positive penetration depth.
pub struct ContactV {
    pub a: int,
    pub b: int,
    pub normal: V3,
    pub pen: int,
}

/// The executable result matches the spec contact exactly.
pub open spec fn matches_contact(r: Option<CollisionEvent>, c: Option<ContactV>) -> bool {
    match r {
        Some(ev) => c is Some && ev.entity_a as int == c->0.a && ev.entity_b as int == c->0.b
            && ev.contact_normal@ == c->0.normal && ev.penetration_depth as int == c->0.pen,
        None => c is None,
    }
}

/// The unit up direction, the fallback normal for degenerate geometry.
pub open spec fn up_v() -> V3 {
    V3 { x: 0, y: SCALE as int, z: 0 }
}

/// Sign with zero counted positive, matching the tie-breaks of the tests.
pub open spec fn sign_of(x: int) -> int {
    if x >= 0 {
        1
    } else {
        -1
    }
}

pub fn sign_i64(x: i64) -> (r: i64)
    ensures
        r == sign_of(x as int),
{
    if x >= 0 {
        1
    } else {
        -1
    }
}

/// Normalize a difference vector given its length, falling back to up when
/// the points coincide. Separations below one world unit are rescaled first,
/// so the result is near-unit (see [`lemma_normal_near_unit`]) for every
/// nonzero difference.
pub open spec fn norm_or_up_spec(d: V3, dist: int) -> V3 {
    if dist <= 0 {
        up_v()
    } else if dist >= SCALE as int {
        V3 {
            x: tdiv(d.x * (SCALE as int), dist),
            y: tdiv(d.y * (SCALE as int), dist),
            z: tdiv(d.z * (SCALE as int), dist),
        }
    } else {
        let d2 = V3 { x: d.x * (SCALE as int), y: d.y * (SCALE as int), z: d.z * (SCALE as int) };
        let dist2 = sqrt_floor(d2.norm2());
        V3 {
            x: tdiv(d2.x * (SCALE as int), dist2),
            y: tdiv(d2.y * (SCALE as int), dist2),
            z: tdiv(d2.z * (SCALE as int), dist2),
        }
    }
}

fn normal_from_diff(d: Vec3, dist: i64) -> (r: Vec3)
    requires
        d@.bounded(8 * MAX_COORD as int),
        dist == d@.len(),
    ensures
        r@ == norm_or_up_spec(d@, dist as int),
        r@.bounded(SCALE as int),
{
    proof {
        lemma_component_le_len(d@);
    }
    if dist >= SCALE {
        proof {
            lemma_mul_bound(d@.x, dist as int, SCALE as int, SCALE as int);
            lemma_mul_bound(d@.y, dist as int, SCALE as int, SCALE as int);
            lemma_mul_bound(d@.z, dist as int, SCALE as int, SCALE as int);
            lemma_tdiv_le(d@.x * SCALE as int, dist as int, SCALE as int);
            lemma_tdiv_le(d@.y * SCALE as int, dist as int, SCALE as int);
            lemma_tdiv_le(d@.z * SCALE as int, dist as int, SCALE as int);
            assert(dist as int * SCALE as int == SCALE as int * dist as int) by (nonlinear_arith);
        }
        Vec3 {
            x: div_fix(d.x * SCALE, dist),
            y: div_fix(d.y * SCALE, dist),
            z: div_fix(d.z * SCALE, dist),
        }
    } else if dist > 0 {
        let d2 = Vec3 { x: d.x * SCALE, y: d.y * SCALE, z: d.z * SCALE };
        let dist2 = d2.length();
        proof {
            lemma_component_le_len(d2@);
            lemma_mul_bound(d2@.x, dist2 as int, SCALE as int, SCALE as int);
            lemma_mul_bound(d2@.y, dist2 as int, SCALE as int, SCALE as int);
            lemma_mul_bound(d2@.z, dist2 as int, SCALE as int, SCALE as int);
            if dist2 > 0 {
                lemma_tdiv_le(d2@.x * SCALE as int, dist2 as int, SCALE as int);
                lemma_tdiv_le(d2@.y * SCALE as int, dist2 as int, SCALE as int);
                lemma_tdiv_le(d2@.z * SCALE as int, dist2 as int, SCALE as int);
                assert(dist2 as int * SCALE as int == SCALE as int * dist2 as int)
                    by (nonlinear_arith);
            } else {
                assert(d2@.norm2() < 1);
                assert(d@.x * SCALE as int == 0 && d@.y * SCALE as int == 0 && d@.z
                    * SCALE as int == 0) by (nonlinear_arith)
                    requires d2@.norm2() == (d@.x * SCALE as int) * (d@.x * SCALE as int) + (d@.y
                        * SCALE as int) * (d@.y * SCALE as int) + (d@.z * SCALE as int) * (d@.z
                        * SCALE as int), d2@.norm2() < 1;
                assert(d@.x == 0 && d@.y == 0 && d@.z == 0) by (nonlinear_arith)
                    requires d@.x * SCALE as int == 0, d@.y * SCALE as int == 0, d@.z
                        * SCALE as int == 0;
                assert(d@.norm2() == 0) by (nonlinear_arith)
                    requires d@.x == 0, d@.y == 0, d@.z == 0;
                crate::math::lemma_sqrt_floor_unique(0, 0);
                assert(dist as int == 0);
                assert(false);
            }
        }
        Vec3 {
            x: div_fix(d2.x * SCALE, dist2),
            y: div_fix(d2.y * SCALE, dist2),
            z: div_fix(d2.z * SCALE, dist2),
        }
    } else {
        Vec3 { x: 0, y: SCALE, z: 0 }
    }
}

/// Closest point on the axis-aligned box at `box_pos` with `half` extents.
pub open spec fn aabb_closest_spec(box_pos: V3, half: V3, p: V3) -> V3 {
    let local = p.minus(box_pos);
    V3 {
        x: clamp_int(local.x, half.x) + box_pos.x,
        y: clamp_int(local.y, half.y) + box_pos.y,
        z: clamp_int(local.z, half.z) + box_pos.z,
    }
}

pub fn closest_point_on_aabb(box_pos: Vec3, half: Vec3, p: Vec3) -> (r: Vec3)
    requires
        box_pos@.bounded(MAX_COORD as int),
        half@.bounded(MAX_COORD as int),
        half@.x >= 0 && half@.y >= 0 && half@.z >= 0,
        p@.bounded(8 * MAX_COORD as int),
    ensures
        r@ == aabb_closest_spec(box_pos@, half@, p@),
        r@.bounded(2 * MAX_COORD as int),
{
    Vec3 {
        x: clamp_i64(p.x - box_pos.x, half.x) + box_pos.x,
        y: clamp_i64(p.y - box_pos.y, half.y) + box_pos.y,
        z: clamp_i64(p.z - box_pos.z, half.z) + box_pos.z,
    }
}

/// Closest point on the segment from `sa` to `sb` to the point `p`, by
/// clamping the fixed-point projection parameter into `[0, SCALE]`.
pub open spec fn seg_closest_spec(sa: V3, sb: V3, p: V3) -> V3 {
    let ab = sb.minus(sa);
    let l2 = ab.norm2();
    if l2 == 0 {
        sa
    } else {
        let t = clamp_param(tdiv(p.minus(sa).dot(ab) * (SCALE as int), l2));
        V3 {
            x: sa.x + tdiv(ab.x * t, SCALE as int),
            y: sa.y + tdiv(ab.y * t, SCALE as int),
            z: sa.z + tdiv(ab.z * t, SCALE as int),
        }
    }
}

/// Clamp a milli-scaled interpolation parameter into `[0, SCALE]`.
pub open spec fn clamp_param(t: int) -> int {
    if t < 0 {
        0
    } else if t > SCALE as int {
        SCALE as int
    } else {
        t
    }
}

pub fn closest_point_on_segment(sa: Vec3, sb: Vec3, p: Vec3) -> (r: Vec3)
    requires
        sa@.bounded(2 * MAX_COORD as int),
        sb@.bounded(2 * MAX_COORD as int),
        p@.bounded(MAX_COORD as int),
    ensures
        r@ == seg_closest_spec(sa@, sb@, p@),
        r@.bounded(6 * MAX_COORD as int),
{
    let ab = sb.minus(sa);
    let l2 = ab.dot(ab);
    proof {
        lemma_mul_bound(ab@.x, 4 * MAX_COORD as int, ab@.x, 4 * MAX_COORD as int);
        lemma_mul_bound(ab@.y, 4 * MAX_COORD as int, ab@.y, 4 * MAX_COORD as int);
        lemma_mul_bound(ab@.z, 4 * MAX_COORD as int, ab@.z, 4 * MAX_COORD as int);
        assert(ab@.norm2() >= 0) by (nonlinear_arith);
    }
    if l2 == 0 {
        return sa;
    }
    let pa = p.minus(sa);
    let d = pa.dot(ab);
    let t: i64 = if d <= 0 {
        proof {
            let s = SCALE as int;
            assert(d as int * s <= 0) by (nonlinear_arith)
                requires d <= 0, s > 0;
            lemma_tdiv_bound(d as int * s, l2 as int);
        }
        0
    } else if d >= l2 {
        proof {
            lemma_ge_divisor_div(d as int, l2 as int);
        }
        SCALE
    } else {
        proof {
            let s = SCALE as int;
            assert(d as int * s < l2 as int * s && d as int * s >= 0) by (nonlinear_arith)
                requires 0 < d, d < l2, s > 0;
            lemma_pos_div_range(d as int * s, l2 as int, s);
        }
        let q = (d as i128 * SCALE as i128) / (l2 as i128);
        q as i64
    };
    assert(t == clamp_param(tdiv(p@.minus(sa@).dot(ab@) * (SCALE as int), l2 as int)));
    proof {
        lemma_mul_bound(ab@.x, 4 * MAX_COORD as int, t as int, SCALE as int);
        lemma_mul_bound(ab@.y, 4 * MAX_COORD as int, t as int, SCALE as int);
        lemma_mul_bound(ab@.z, 4 * MAX_COORD as int, t as int, SCALE as int);
        lemma_tdiv_le(ab@.x * t, SCALE as int, 4 * MAX_COORD as int);
        lemma_tdiv_le(ab@.y * t, SCALE as int, 4 * MAX_COORD as int);
        lemma_tdiv_le(ab@.z * t, SCALE as int, 4 * MAX_COORD as int);
        assert(4 * MAX_COORD as int * SCALE as int == SCALE as int * (4 * MAX_COORD as int))
            by (nonlinear_arith);
    }
    Vec3 {
        x: sa.x + div_fix(ab.x * t, SCALE),
        y: sa.y + div_fix(ab.y * t, SCALE),
        z: sa.z + div_fix(ab.z * t, SCALE),
    }
}

/// For `d >= l2 > 0`, the projection parameter clamps to `SCALE`.
proof fn lemma_ge_divisor_div(d: int, l2: int)
    requires
        l2 > 0,
        d >= l2,
    ensures
        clamp_param(tdiv(d * (SCALE as int), l2)) == SCALE as int,
{
    let s = SCALE as int;
    assert(d * s >= l2 * s && d * s >= 0) by (nonlinear_arith)
        requires d >= l2, l2 > 0, s > 0;
    vstd::arithmetic::div_mod::lemma_div_is_ordered(l2 * s, d * s, l2);
    vstd::arithmetic::div_mod::lemma_div_multiples_vanish(s, l2);
    assert((l2 * s) / l2 == s);
    assert(tdiv(d * s, l2) >= s);
}

/// For `0 <= a < b*c`, the truncating quotient `a/b` lies in `[0, c)`.
proof fn lemma_pos_div_range(a: int, b: int, c: int)
    requires
        b > 0,
        c > 0,
        0 <= a,
        a < b * c,
    ensures
        0 <= a / b < c,
        tdiv(a, b) == a / b,
{
    vstd::arithmetic::div_mod::lemma_fundamental_div_mod(a, b);
    vstd::arithmetic::div_mod::lemma_mod_bound(a, b);
    vstd::arithmetic::div_mod::lemma_div_pos_is_pos(a, b);
    assert(a / b < c) by (nonlinear_arith)
        requires b > 0, c > 0, a < b * c, a == b * (a / b) + a % b, 0 <= a % b;
}

} // verus!

verus! {

// ---------------------------------------------------------------------------
// Pair-test specifications
// ---------------------------------------------------------------------------

/// Sphere against an infinite plane: signed center distance minus radius.
/// The contact normal points from the sphere toward the plane.
pub open spec fn sphere_plane_spec(ae: int, pa: V3, r: int, be: int, n: V3, off: int) -> Option<
    ContactV,
> {
    let dist = tdiv(pa.dot(n), SCALE as int) - off;
    let pen = r - dist;
    if pen > 0 {
        Some(ContactV { a: ae, b: be, normal: n.neg(), pen })
    } else {
        None
    }
}

/// Sphere against sphere: center distance versus summed radii; coincident
/// centers fall back to the up normal.
pub open spec fn sphere_sphere_spec(ae: int, pa: V3, r1: int, be: int, pb: V3, r2: int) -> Option<
    ContactV,
> {
    let d = pb.minus(pa);
    let dist = d.len();
    let pen = r1 + r2 - dist;
    if pen > 0 {
        Some(ContactV { a: ae, b: be, normal: norm_or_up_spec(d, dist), pen })
    } else {
        None
    }
}

/// Capsule against a plane: nearer hemisphere cap center decides.
pub open spec fn capsule_plane_spec(
    ae: int,
    pa: V3,
    r: int,
    hh: int,
    be: int,
    n: V3,
    off: int,
) -> Option<ContactV> {
    let top = V3 { x: pa.x, y: pa.y + hh, z: pa.z };
    let bottom = V3 { x: pa.x, y: pa.y - hh, z: pa.z };
    let dist_top = tdiv(top.dot(n), SCALE as int) - off;
    let dist_bottom = tdiv(bottom.dot(n), SCALE as int) - off;
    let min_dist = if dist_top <= dist_bottom {
        dist_top
    } else {
        dist_bottom
    };
    let pen = r - min_dist;
    if pen > 0 {
        Some(ContactV { a: ae, b: be, normal: n.neg(), pen })
    } else {
        None
    }
}

/// Capsule against sphere: the closest point on the capsule's central
/// segment acts as a sphere center.
pub open spec fn capsule_sphere_spec(
    ae: int,
    pa: V3,
    cr: int,
    hh: int,
    be: int,
    pb: V3,
    sr: int,
) -> Option<ContactV> {
    let top = V3 { x: pa.x, y: pa.y + hh, z: pa.z };
    let bottom = V3 { x: pa.x, y: pa.y - hh, z: pa.z };
    let closest = seg_closest_spec(bottom, top, pb);
    let d = pb.minus(closest);
    let dist = d.len();
    let pen = cr + sr - dist;
    if pen > 0 {
        Some(ContactV { a: ae, b: be, normal: norm_or_up_spec(d, dist), pen })
    } else {
        None
    }
}

/// Sphere against capsule: same geometry as capsule-sphere, with the normal
/// running from the sphere toward the capsule's closest segment point.
pub open spec fn sphere_capsule_spec(
    ae: int,
    pa: V3,
    sr: int,
    be: int,
    pb: V3,
    cr: int,
    hh: int,
) -> Option<ContactV> {
    let top = V3 { x: pb.x, y: pb.y + hh, z: pb.z };
    let bottom = V3 { x: pb.x, y: pb.y - hh, z: pb.z };
    let closest = seg_closest_spec(bottom, top, pa);
    let d = closest.minus(pa);
    let dist = d.len();
    let pen = cr + sr - dist;
    if pen > 0 {
        Some(ContactV { a: ae, b: be, normal: norm_or_up_spec(d, dist), pen })
    } else {
        None
    }
}

/// Box against a plane: half extents projected onto the plane normal.
pub open spec fn box_plane_spec(ae: int, pa: V3, he: V3, be: int, n: V3, off: int) -> Option<
    ContactV,
> {
    let proj = tdiv(he.x * abs_int(n.x) + he.y * abs_int(n.y) + he.z * abs_int(n.z), SCALE as int);
    let cd = tdiv(pa.dot(n), SCALE as int) - off;
    let pen = proj - cd;
    if pen > 0 {
        Some(ContactV { a: ae, b: be, normal: n.neg(), pen })
    } else {
        None
    }
}

/// Box against a sphere center: the normal points from the box toward the
/// sphere. A center inside the box pushes out along the least-penetrated
/// face (ties broken X, then Y, then Z).
pub open spec fn box_sphere_core_spec(pbox: V3, he: V3, ps: V3, r: int) -> Option<(V3, int)> {
    let closest = aabb_closest_spec(pbox, he, ps);
    let d = ps.minus(closest);
    let dist = d.len();
    let local = ps.minus(pbox);
    let inside = abs_int(local.x) <= he.x && abs_int(local.y) <= he.y && abs_int(local.z) <= he.z;
    if inside {
        let dx = he.x - abs_int(local.x);
        let dy = he.y - abs_int(local.y);
        let dz = he.z - abs_int(local.z);
        if dx <= dy && dx <= dz {
            Some((V3 { x: sign_of(local.x) * SCALE as int, y: 0, z: 0 }, dx + r))
        } else if dy <= dz {
            Some((V3 { x: 0, y: sign_of(local.y) * SCALE as int, z: 0 }, dy + r))
        } else {
            Some((V3 { x: 0, y: 0, z: sign_of(local.z) * SCALE as int }, dz + r))
        }
    } else if dist < r {
        Some((norm_or_up_spec(d, dist), r - dist))
    } else {
        None
    }
}

pub open spec fn box_sphere_spec(ae: int, pa: V3, he: V3, be: int, pb: V3, r: int) -> Option<
    ContactV,
> {
    match box_sphere_core_spec(pa, he, pb, r) {
        Some((n, pen)) => Some(ContactV { a: ae, b: be, normal: n, pen }),
        None => None,
    }
}

pub open spec fn sphere_box_spec(ae: int, pa: V3, r: int, be: int, pb: V3, he: V3) -> Option<
    ContactV,
> {
    match box_sphere_core_spec(pb, he, pa, r) {
        Some((n, pen)) => Some(ContactV { a: ae, b: be, normal: n.neg(), pen }),
        None => None,
    }
}

/// Box against capsule: the capsule segment point closest to the box center
/// acts as a sphere of the capsule's radius.
pub open spec fn box_capsule_spec(
    ae: int,
    pa: V3,
    he: V3,
    be: int,
    pb: V3,
    cr: int,
    hh: int,
) -> Option<ContactV> {
    let top = V3 { x: pb.x, y: pb.y + hh, z: pb.z };
    let bottom = V3 { x: pb.x, y: pb.y - hh, z: pb.z };
    let seg = seg_closest_spec(bottom, top, pa);
    match box_sphere_core_spec(pa, he, seg, cr) {
        Some((n, pen)) => Some(ContactV { a: ae, b: be, normal: n, pen }),
        None => None,
    }
}

pub open spec fn capsule_box_spec(
    ae: int,
    pa: V3,
    cr: int,
    hh: int,
    be: int,
    pb: V3,
    he: V3,
) -> Option<ContactV> {
    let top = V3 { x: pa.x, y: pa.y + hh, z: pa.z };
    let bottom = V3 { x: pa.x, y: pa.y - hh, z: pa.z };
    let seg = seg_closest_spec(bottom, top, pb);
    match box_sphere_core_spec(pb, he, seg, cr) {
        Some((n, pen)) => Some(ContactV { a: ae, b: be, normal: n.neg(), pen }),
        None => None,
    }
}

/// Box against box: axis-aligned overlap on all three axes, pushing out
/// along the axis of least overlap (ties broken X, then Y, then Z).
pub open spec fn box_box_spec(ae: int, pa: V3, ha: V3, be: int, pb: V3, hb: V3) -> Option<
    ContactV,
> {
    let d = pb.minus(pa);
    let ox = ha.x + hb.x - abs_int(d.x);
    let oy = ha.y + hb.y - abs_int(d.y);
    let oz = ha.z + hb.z - abs_int(d.z);
    if ox > 0 && oy > 0 && oz > 0 {
        if ox <= oy && ox <= oz {
            Some(
                ContactV {
                    a: ae,
                    b: be,
                    normal: V3 { x: sign_of(d.x) * SCALE as int, y: 0, z: 0 },
                    pen: ox,
                },
            )
        } else if oy <= oz {
            Some(
                ContactV {
                    a: ae,
                    b: be,
                    normal: V3 { x: 0, y: sign_of(d.y) * SCALE as int, z: 0 },
                    pen: oy,
                },
            )
        } else {
            Some(
                ContactV {
                    a: ae,
                    b: be,
                    normal: V3 { x: 0, y: 0, z: sign_of(d.z) * SCALE as int },
                    pen: oz,
                },
            )
        }
    } else {
        None
    }
}

/// The full canonicalized dispatch: every asymmetric pair is tested in both
/// orders, and the plane pairs swap entity labels so that the plane is always
/// the second-named entity.
pub open spec fn test_pair_spec(a: ColliderEntry, b: ColliderEntry) -> Option<ContactV> {
    let ae = a.entity as int;
    let be = b.entity as int;
    let pa = a.position@;
    let pb = b.position@;
    match (a.collider_kind, b.collider_kind) {
        (ColliderKind::Sphere { radius }, ColliderKind::Plane { normal, offset }) => {
            sphere_plane_spec(ae, pa, radius as int, be, normal@, offset as int)
        },
        (ColliderKind::Plane { normal, offset }, ColliderKind::Sphere { radius }) => {
            sphere_plane_spec(be, pb, radius as int, ae, normal@, offset as int)
        },
        (ColliderKind::Sphere { radius: r1 }, ColliderKind::Sphere { radius: r2 }) => {
            sphere_sphere_spec(ae, pa, r1 as int, be, pb, r2 as int)
        },
        (
            ColliderKind::Capsule { radius, half_height },
            ColliderKind::Plane { normal, offset },
        ) => {
            capsule_plane_spec(
                ae,
                pa,
                radius as int,
                half_height as int,
                be,
                normal@,
                offset as int,
            )
        },
        (
            ColliderKind::Plane { normal, offset },
            ColliderKind::Capsule { radius, half_height },
        ) => {
            capsule_plane_spec(
                be,
                pb,
                radius as int,
                half_height as int,
                ae,
                normal@,
                offset as int,
            )
        },
        (
            ColliderKind::Capsule { radius: cr, half_height },
            ColliderKind::Sphere { radius: sr },
        ) => {
            capsule_sphere_spec(ae, pa, cr as int, half_height as int, be, pb, sr as int)
        },
        (
            ColliderKind::Sphere { radius: sr },
            ColliderKind::Capsule { radius: cr, half_height },
        ) => {
            sphere_capsule_spec(ae, pa, sr as int, be, pb, cr as int, half_height as int)
        },
        (ColliderKind::Box { half_extents }, ColliderKind::Plane { normal, offset }) => {
            box_plane_spec(ae, pa, half_extents@, be, normal@, offset as int)
        },
        (ColliderKind::Plane { normal, offset }, ColliderKind::Box { half_extents }) => {
            box_plane_spec(be, pb, half_extents@, ae, normal@, offset as int)
        },
        (ColliderKind::Box { half_extents }, ColliderKind::Sphere { radius }) => {
            box_sphere_spec(ae, pa, half_extents@, be, pb, radius as int)
        },
        (ColliderKind::Sphere { radius }, ColliderKind::Box { half_extents }) => {
            sphere_box_spec(ae, pa, radius as int, be, pb, half_extents@)
        },
        (
            ColliderKind::Box { half_extents },
            ColliderKind::Capsule { radius: cr, half_height },
        ) => {
            box_capsule_spec(ae, pa, half_extents@, be, pb, cr as int, half_height as int)
        },
        (
            ColliderKind::Capsule { radius: cr, half_height },
            ColliderKind::Box { half_extents },
        ) => {
            capsule_box_spec(ae, pa, cr as int, half_height as int, be, pb, half_extents@)
        },
        (ColliderKind::Box { half_extents: ha }, ColliderKind::Box { half_extents: hb }) => {
            box_box_spec(ae, pa, ha@, be, pb, hb@)
        },
        _ => None,
    }
}

} // verus!

verus! {

// ---------------------------------------------------------------------------
// Executable pair tests
// ---------------------------------------------------------------------------

fn hit_sphere_plane(ae: usize, pa: Vec3, r: i64, be: usize, n: Vec3, off: i64) -> (ev: Option<
    CollisionEvent,
>)
    requires
        pa@.bounded(MAX_COORD as int),
        0 < r <= MAX_COORD,
        n@.bounded(NORM_LIM as int),
        -MAX_COORD <= off <= MAX_COORD,
    ensures
        matches_contact(ev, sphere_plane_spec(ae as int, pa@, r as int, be as int, n@, off as int)),
        ev is Some ==> 0 < (ev->0).penetration_depth <= 2 * DOT_LIM && (
        ev->0).contact_normal@.bounded(NORM_LIM as int),
{
    proof {
        lemma_mul_bound(pa@.x, MAX_COORD as int, n@.x, 2 * SCALE as int);
        lemma_mul_bound(pa@.y, MAX_COORD as int, n@.y, 2 * SCALE as int);
        lemma_mul_bound(pa@.z, MAX_COORD as int, n@.z, 2 * SCALE as int);
        lemma_tdiv_le(pa@.dot(n@), SCALE as int, 6 * MAX_COORD as int * 2);
    }
    let dist = div_fix(pa.dot(n), SCALE) - off;
    let pen = r - dist;
    if pen > 0 {
        Some(
            CollisionEvent {
                entity_a: ae,
                entity_b: be,
                contact_normal: n.neg(),
                penetration_depth: pen,
            },
        )
    } else {
        None
    }
}

fn hit_sphere_sphere(ae: usize, pa: Vec3, r1: i64, be: usize, pb: Vec3, r2: i64) -> (ev: Option<
    CollisionEvent,
>)
    requires
        pa@.bounded(MAX_COORD as int),
        pb@.bounded(MAX_COORD as int),
        0 < r1 <= MAX_COORD,
        0 < r2 <= MAX_COORD,
    ensures
        matches_contact(
            ev,
            sphere_sphere_spec(ae as int, pa@, r1 as int, be as int, pb@, r2 as int),
        ),
        ev is Some ==> 0 < (ev->0).penetration_depth <= 2 * DOT_LIM && (
        ev->0).contact_normal@.bounded(NORM_LIM as int),
{
    let d = pb.minus(pa);
    let dist = d.length();
    let pen = (r1 + r2) - dist;
    if pen > 0 {
        let normal = normal_from_diff(d, dist);
        Some(
            CollisionEvent {
                entity_a: ae,
                entity_b: be,
                contact_normal: normal,
                penetration_depth: pen,
            },
        )
    } else {
        None
    }
}

fn hit_capsule_plane(
    ae: usize,
    pa: Vec3,
    r: i64,
    hh: i64,
    be: usize,
    n: Vec3,
    off: i64,
) -> (ev: Option<CollisionEvent>)
    requires
        pa@.bounded(MAX_COORD as int),
        0 < r <= MAX_COORD,
        0 <= hh <= MAX_COORD,
        n@.bounded(NORM_LIM as int),
        -MAX_COORD <= off <= MAX_COORD,
    ensures
        matches_contact(
            ev,
            capsule_plane_spec(ae as int, pa@, r as int, hh as int, be as int, n@, off as int),
        ),
        ev is Some ==> 0 < (ev->0).penetration_depth <= 2 * DOT_LIM && (
        ev->0).contact_normal@.bounded(NORM_LIM as int),
{
    let top = Vec3 { x: pa.x, y: pa.y + hh, z: pa.z };
    let bottom = Vec3 { x: pa.x, y: pa.y - hh, z: pa.z };
    proof {
        lemma_mul_bound(top@.x, 2 * MAX_COORD as int, n@.x, 2 * SCALE as int);
        lemma_mul_bound(top@.y, 2 * MAX_COORD as int, n@.y, 2 * SCALE as int);
        lemma_mul_bound(top@.z, 2 * MAX_COORD as int, n@.z, 2 * SCALE as int);
        lemma_mul_bound(bottom@.x, 2 * MAX_COORD as int, n@.x, 2 * SCALE as int);
        lemma_mul_bound(bottom@.y, 2 * MAX_COORD as int, n@.y, 2 * SCALE as int);
        lemma_mul_bound(bottom@.z, 2 * MAX_COORD as int, n@.z, 2 * SCALE as int);
        lemma_tdiv_le(top@.dot(n@), SCALE as int, 12 * MAX_COORD as int);
        lemma_tdiv_le(bottom@.dot(n@), SCALE as int, 12 * MAX_COORD as int);
    }
    let dist_top = div_fix(top.dot(n), SCALE) - off;
    let dist_bottom = div_fix(bottom.dot(n), SCALE) - off;
    let min_dist = if dist_top <= dist_bottom {
        dist_top
    } else {
        dist_bottom
    };
    let pen = r - min_dist;
    if pen > 0 {
        Some(
            CollisionEvent {
                entity_a: ae,
                entity_b: be,
                contact_normal: n.neg(),
                penetration_depth: pen,
            },
        )
    } else {
        None
    }
}

fn hit_capsule_sphere(
    ae: usize,
    pa: Vec3,
    cr: i64,
    hh: i64,
    be: usize,
    pb: Vec3,
    sr: i64,
) -> (ev: Option<CollisionEvent>)
    requires
        pa@.bounded(MAX_COORD as int),
        pb@.bounded(MAX_COORD as int),
        0 < cr <= MAX_COORD,
        0 <= hh <= MAX_COORD,
        0 < sr <= MAX_COORD,
    ensures
        matches_contact(
            ev,
            capsule_sphere_spec(ae as int, pa@, cr as int, hh as int, be as int, pb@, sr as int),
        ),
        ev is Some ==> 0 < (ev->0).penetration_depth <= 2 * DOT_LIM && (
        ev->0).contact_normal@.bounded(NORM_LIM as int),
{
    let top = Vec3 { x: pa.x, y: pa.y + hh, z: pa.z };
    let bottom = Vec3 { x: pa.x, y: pa.y - hh, z: pa.z };
    let closest = closest_point_on_segment(bottom, top, pb);
    let d = pb.minus(closest);
    let dist = d.length();
    let pen = (cr + sr) - dist;
    if pen > 0 {
        let normal = normal_from_diff(d, dist);
        Some(
            CollisionEvent {
                entity_a: ae,
                entity_b: be,
                contact_normal: normal,
                penetration_depth: pen,
            },
        )
    } else {
        None
    }
}

fn hit_sphere_capsule(
    ae: usize,
    pa: Vec3,
    sr: i64,
    be: usize,
    pb: Vec3,
    cr: i64,
    hh: i64,
) -> (ev: Option<CollisionEvent>)
    requires
        pa@.bounded(MAX_COORD as int),
        pb@.bounded(MAX_COORD as int),
        0 < sr <= MAX_COORD,
        0 < cr <= MAX_COORD,
        0 <= hh <= MAX_COORD,
    ensures
        matches_contact(
            ev,
            sphere_capsule_spec(ae as int, pa@, sr as int, be as int, pb@, cr as int, hh as int),
        ),
        ev is Some ==> 0 < (ev->0).penetration_depth <= 2 * DOT_LIM && (
        ev->0).contact_normal@.bounded(NORM_LIM as int),
{
    let top = Vec3 { x: pb.x, y: pb.y + hh, z: pb.z };
    let bottom = Vec3 { x: pb.x, y: pb.y - hh, z: pb.z };
    let closest = closest_point_on_segment(bottom, top, pa);
    let d = closest.minus(pa);
    let dist = d.length();
    let pen = (cr + sr) - dist;
    if pen > 0 {
        let normal = normal_from_diff(d, dist);
        Some(
            CollisionEvent {
                entity_a: ae,
                entity_b: be,
                contact_normal: normal,
                penetration_depth: pen,
            },
        )
    } else {
        None
    }
}

fn hit_box_plane(ae: usize, pa: Vec3, he: Vec3, be: usize, n: Vec3, off: i64) -> (ev: Option<
    CollisionEvent,
>)
    requires
        pa@.bounded(MAX_COORD as int),
        0 < he@.x <= MAX_COORD && 0 < he@.y <= MAX_COORD && 0 < he@.z <= MAX_COORD,
        n@.bounded(NORM_LIM as int),
        -MAX_COORD <= off <= MAX_COORD,
    ensures
        matches_contact(ev, box_plane_spec(ae as int, pa@, he@, be as int, n@, off as int)),
        ev is Some ==> 0 < (ev->0).penetration_depth <= 2 * DOT_LIM && (
        ev->0).contact_normal@.bounded(NORM_LIM as int),
{
    let anx = abs_fix(n.x);
    let any = abs_fix(n.y);
    let anz = abs_fix(n.z);
    proof {
        lemma_mul_bound(he@.x, MAX_COORD as int, anx as int, 2 * SCALE as int);
        lemma_mul_bound(he@.y, MAX_COORD as int, any as int, 2 * SCALE as int);
        lemma_mul_bound(he@.z, MAX_COORD as int, anz as int, 2 * SCALE as int);
        lemma_tdiv_le(
            he@.x * anx as int + he@.y * any as int + he@.z * anz as int,
            SCALE as int,
            6 * MAX_COORD as int * 2,
        );
        lemma_mul_bound(pa@.x, MAX_COORD as int, n@.x, 2 * SCALE as int);
        lemma_mul_bound(pa@.y, MAX_COORD as int, n@.y, 2 * SCALE as int);
        lemma_mul_bound(pa@.z, MAX_COORD as int, n@.z, 2 * SCALE as int);
        lemma_tdiv_le(pa@.dot(n@), SCALE as int, 6 * MAX_COORD as int * 2);
    }
    let proj = div_fix(he.x * anx + he.y * any + he.z * anz, SCALE);
    let cd = div_fix(pa.dot(n), SCALE) - off;
    let pen = proj - cd;
    if pen > 0 {
        Some(
            CollisionEvent {
                entity_a: ae,
                entity_b: be,
                contact_normal: n.neg(),
                penetration_depth: pen,
            },
        )
    } else {
        None
    }
}

/// Matches the core box-versus-sphere-center result exactly.
pub open spec fn matches_core(r: Option<(Vec3, i64)>, c: Option<(V3, int)>) -> bool {
    match r {
        Some(p) => c is Some && p.0@ == (c->0).0 && p.1 as int == (c->0).1,
        None => c is None,
    }
}

fn box_sphere_core(pbox: Vec3, he: Vec3, ps: Vec3, r: i64) -> (rr: Option<(Vec3, i64)>)
    requires
        pbox@.bounded(MAX_COORD as int),
        0 < he@.x <= MAX_COORD && 0 < he@.y <= MAX_COORD && 0 < he@.z <= MAX_COORD,
        ps@.bounded(6 * MAX_COORD as int),
        0 < r <= MAX_COORD,
    ensures
        matches_core(rr, box_sphere_core_spec(pbox@, he@, ps@, r as int)),
        rr is Some ==> 0 < (rr->0).1 <= 2 * DOT_LIM && (rr->0).0@.bounded(NORM_LIM as int),
{
    let closest = closest_point_on_aabb(pbox, he, ps);
    let d = ps.minus(closest);
    let dist = d.length();
    let lx = ps.x - pbox.x;
    let ly = ps.y - pbox.y;
    let lz = ps.z - pbox.z;
    let alx = abs_fix(lx);
    let aly = abs_fix(ly);
    let alz = abs_fix(lz);
    let inside = alx <= he.x && aly <= he.y && alz <= he.z;
    if inside {
        let dx = he.x - alx;
        let dy = he.y - aly;
        let dz = he.z - alz;
        if dx <= dy && dx <= dz {
            Some((Vec3 { x: sign_i64(lx) * SCALE, y: 0, z: 0 }, dx + r))
        } else if dy <= dz {
            Some((Vec3 { x: 0, y: sign_i64(ly) * SCALE, z: 0 }, dy + r))
        } else {
            Some((Vec3 { x: 0, y: 0, z: sign_i64(lz) * SCALE }, dz + r))
        }
    } else if dist < r {
        let normal = normal_from_diff(d, dist);
        Some((normal, r - dist))
    } else {
        None
    }
}

fn hit_box_sphere(ae: usize, pa: Vec3, he: Vec3, be: usize, pb: Vec3, r: i64) -> (ev: Option<
    CollisionEvent,
>)
    requires
        pa@.bounded(MAX_COORD as int),
        0 < he@.x <= MAX_COORD && 0 < he@.y <= MAX_COORD && 0 < he@.z <= MAX_COORD,
        pb@.bounded(MAX_COORD as int),
        0 < r <= MAX_COORD,
    ensures
        matches_contact(ev, box_sphere_spec(ae as int, pa@, he@, be as int, pb@, r as int)),
        ev is Some ==> 0 < (ev->0).penetration_depth <= 2 * DOT_LIM && (
        ev->0).contact_normal@.bounded(NORM_LIM as int),
{
    match box_sphere_core(pa, he, pb, r) {
        Some(p) => Some(
            CollisionEvent {
                entity_a: ae,
                entity_b: be,
                contact_normal: p.0,
                penetration_depth: p.1,
            },
        ),
        None => None,
    }
}

fn hit_sphere_box(ae: usize, pa: Vec3, r: i64, be: usize, pb: Vec3, he: Vec3) -> (ev: Option<
    CollisionEvent,
>)
    requires
        pa@.bounded(MAX_COORD as int),
        0 < r <= MAX_COORD,
        pb@.bounded(MAX_COORD as int),
        0 < he@.x <= MAX_COORD && 0 < he@.y <= MAX_COORD && 0 < he@.z <= MAX_COORD,
    ensures
        matches_contact(ev, sphere_box_spec(ae as int, pa@, r as int, be as int, pb@, he@)),
        ev is Some ==> 0 < (ev->0).penetration_depth <= 2 * DOT_LIM && (
        ev->0).contact_normal@.bounded(NORM_LIM as int),
{
    match box_sphere_core(pb, he, pa, r) {
        Some(p) => Some(
            CollisionEvent {
                entity_a: ae,
                entity_b: be,
                contact_normal: p.0.neg(),
                penetration_depth: p.1,
            },
        ),
        None => None,
    }
}

fn hit_box_capsule(
    ae: usize,
    pa: Vec3,
    he: Vec3,
    be: usize,
    pb: Vec3,
    cr: i64,
    hh: i64,
) -> (ev: Option<CollisionEvent>)
    requires
        pa@.bounded(MAX_COORD as int),
        0 < he@.x <= MAX_COORD && 0 < he@.y <= MAX_COORD && 0 < he@.z <= MAX_COORD,
        pb@.bounded(MAX_COORD as int),
        0 < cr <= MAX_COORD,
        0 <= hh <= MAX_COORD,
    ensures
        matches_contact(
            ev,
            box_capsule_spec(ae as int, pa@, he@, be as int, pb@, cr as int, hh as int),
        ),
        ev is Some ==> 0 < (ev->0).penetration_depth <= 2 * DOT_LIM && (
        ev->0).contact_normal@.bounded(NORM_LIM as int),
{
    let top = Vec3 { x: pb.x, y: pb.y + hh, z: pb.z };
    let bottom = Vec3 { x: pb.x, y: pb.y - hh, z: pb.z };
    let seg = closest_point_on_segment(bottom, top, pa);
    match box_sphere_core(pa, he, seg, cr) {
        Some(p) => Some(
            CollisionEvent {
                entity_a: ae,
                entity_b: be,
                contact_normal: p.0,
                penetration_depth: p.1,
            },
        ),
        None => None,
    }
}

fn hit_capsule_box(
    ae: usize,
    pa: Vec3,
    cr: i64,
    hh: i64,
    be: usize,
    pb: Vec3,
    he: Vec3,
) -> (ev: Option<CollisionEvent>)
    requires
        pa@.bounded(MAX_COORD as int),
        0 < cr <= MAX_COORD,
        0 <= hh <= MAX_COORD,
        pb@.bounded(MAX_COORD as int),
        0 < he@.x <= MAX_COORD && 0 < he@.y <= MAX_COORD && 0 < he@.z <= MAX_COORD,
    ensures
        matches_contact(
            ev,
            capsule_box_spec(ae as int, pa@, cr as int, hh as int, be as int, pb@, he@),
        ),
        ev is Some ==> 0 < (ev->0).penetration_depth <= 2 * DOT_LIM && (
        ev->0).contact_normal@.bounded(NORM_LIM as int),
{
    let top = Vec3 { x: pa.x, y: pa.y + hh, z: pa.z };
    let bottom = Vec3 { x: pa.x, y: pa.y - hh, z: pa.z };
    let seg = closest_point_on_segment(bottom, top, pb);
    match box_sphere_core(pb, he, seg, cr) {
        Some(p) => Some(
            CollisionEvent {
                entity_a: ae,
                entity_b: be,
                contact_normal: p.0.neg(),
                penetration_depth: p.1,
            },
        ),
        None => None,
    }
}

fn hit_box_box(ae: usize, pa: Vec3, ha: Vec3, be: usize, pb: Vec3, hb: Vec3) -> (ev: Option<
    CollisionEvent,
>)
    requires
        pa@.bounded(MAX_COORD as int),
        0 < ha@.x <= MAX_COORD && 0 < ha@.y <= MAX_COORD && 0 < ha@.z <= MAX_COORD,
        pb@.bounded(MAX_COORD as int),
        0 < hb@.x <= MAX_COORD && 0 < hb@.y <= MAX_COORD && 0 < hb@.z <= MAX_COORD,
    ensures
        matches_contact(ev, box_box_spec(ae as int, pa@, ha@, be as int, pb@, hb@)),
        ev is Some ==> 0 < (ev->0).penetration_depth <= 2 * DOT_LIM && (
        ev->0).contact_normal@.bounded(NORM_LIM as int),
{
    let dx = pb.x - pa.x;
    let dy = pb.y - pa.y;
    let dz = pb.z - pa.z;
    let ox = (ha.x + hb.x) - abs_fix(dx);
    let oy = (ha.y + hb.y) - abs_fix(dy);
    let oz = (ha.z + hb.z) - abs_fix(dz);
    if ox > 0 && oy > 0 && oz > 0 {
        if ox <= oy && ox <= oz {
            Some(
                CollisionEvent {
                    entity_a: ae,
                    entity_b: be,
                    contact_normal: Vec3 { x: sign_i64(dx) * SCALE, y: 0, z: 0 },
                    penetration_depth: ox,
                },
            )
        } else if oy <= oz {
            Some(
                CollisionEvent {
                    entity_a: ae,
                    entity_b: be,
                    contact_normal: Vec3 { x: 0, y: sign_i64(dy) * SCALE, z: 0 },
                    penetration_depth: oy,
                },
            )
        } else {
            Some(
                CollisionEvent {
                    entity_a: ae,
                    entity_b: be,
                    contact_normal: Vec3 { x: 0, y: 0, z: sign_i64(dz) * SCALE },
                    penetration_depth: oz,
                },
            )
        }
    } else {
        None
    }
}

/// Pairwise shape test. All returned normals point from `a.entity` toward
/// `b.entity`; the result matches [`test_pair_spec`] exactly, and every
/// emitted event carries a positive penetration depth and a bounded normal.
pub fn test_pair(a: &ColliderEntry, b: &ColliderEntry) -> (ev: Option<CollisionEvent>)
    requires
        a.wf(),
        b.wf(),
    ensures
        matches_contact(ev, test_pair_spec(*a, *b)),
        ev is Some ==> 0 < (ev->0).penetration_depth <= 2 * DOT_LIM && (
        ev->0).contact_normal@.bounded(NORM_LIM as int),
        ev is Some ==> ((ev->0).entity_a == a.entity && (ev->0).entity_b == b.entity) || ((
        ev->0).entity_a == b.entity && (ev->0).entity_b == a.entity),
{
    match (&a.collider_kind, &b.collider_kind) {
        (ColliderKind::Sphere { radius }, ColliderKind::Plane { normal, offset }) => {
            hit_sphere_plane(a.entity, a.position, *radius, b.entity, *normal, *offset)
        },
        (ColliderKind::Plane { normal, offset }, ColliderKind::Sphere { radius }) => {
            hit_sphere_plane(b.entity, b.position, *radius, a.entity, *normal, *offset)
        },
        (ColliderKind::Sphere { radius: r1 }, ColliderKind::Sphere { radius: r2 }) => {
            hit_sphere_sphere(a.entity, a.position, *r1, b.entity, b.position, *r2)
        },
        (
            ColliderKind::Capsule { radius, half_height },
            ColliderKind::Plane { normal, offset },
        ) => {
            hit_capsule_plane(
                a.entity,
                a.position,
                *radius,
                *half_height,
                b.entity,
                *normal,
                *offset,
            )
        },
        (
            ColliderKind::Plane { normal, offset },
            ColliderKind::Capsule { radius, half_height },
        ) => {
            hit_capsule_plane(
                b.entity,
                b.position,
                *radius,
                *half_height,
                a.entity,
                *normal,
                *offset,
            )
        },
        (
            ColliderKind::Capsule { radius: cr, half_height },
            ColliderKind::Sphere { radius: sr },
        ) => {
            hit_capsule_sphere(a.entity, a.position, *cr, *half_height, b.entity, b.position, *sr)
        },
        (
            ColliderKind::Sphere { radius: sr },
            ColliderKind::Capsule { radius: cr, half_height },
        ) => {
            hit_sphere_capsule(a.entity, a.position, *sr, b.entity, b.position, *cr, *half_height)
        },
        (ColliderKind::Box { half_extents }, ColliderKind::Plane { normal, offset }) => {
            hit_box_plane(a.entity, a.position, *half_extents, b.entity, *normal, *offset)
        },
        (ColliderKind::Plane { normal, offset }, ColliderKind::Box { half_extents }) => {
            hit_box_plane(b.entity, b.position, *half_extents, a.entity, *normal, *offset)
        },
        (ColliderKind::Box { half_extents }, ColliderKind::Sphere { radius }) => {
            hit_box_sphere(a.entity, a.position, *half_extents, b.entity, b.position, *radius)
        },
        (ColliderKind::Sphere { radius }, ColliderKind::Box { half_extents }) => {
            hit_sphere_box(a.entity, a.position, *radius, b.entity, b.position, *half_extents)
        },
        (
            ColliderKind::Box { half_extents },
            ColliderKind::Capsule { radius: cr, half_height },
        ) => {
            hit_box_capsule(
                a.entity,
                a.position,
                *half_extents,
                b.entity,
                b.position,
                *cr,
                *half_height,
            )
        },
        (
            ColliderKind::Capsule { radius: cr, half_height },
            ColliderKind::Box { half_extents },
        ) => {
            hit_capsule_box(
                a.entity,
                a.position,
                *cr,
                *half_height,
                b.entity,
                b.position,
                *half_extents,
            )
        },
        (ColliderKind::Box { half_extents: ha }, ColliderKind::Box { half_extents: hb }) => {
            hit_box_box(a.entity, a.position, *ha, b.entity, b.position, *hb)
        },
        _ => None,
    }
}

} // verus!

verus! {

// ---------------------------------------------------------------------------
// Impulse-based resolution
// ---------------------------------------------------------------------------

/// Below this approach speed (milli-units per second) the normal velocity is
/// zeroed instead of reflected, so resting contacts do not jitter.
pub const REST_VELOCITY_THRESHOLD: i64 = 500;

/// Restitution assumed for bodies without a `Restitution` component.
pub const DEFAULT_RESTITUTION: i64 = 300;

/// Friction assumed for bodies without a `Friction` component.
pub const DEFAULT_FRICTION: i64 = 500;

/// Coulomb friction: reduce the tangential velocity by at most
/// `mu * normal_impulse * dt`, never reversing the sliding direction.
pub open spec fn friction_spec(v: V3, n: V3, mu: int, ni: int) -> V3 {
    let van = tdiv(v.dot(n), SCALE as int);
    let t = V3 {
        x: v.x - tdiv(van * n.x, SCALE as int),
        y: v.y - tdiv(van * n.y, SCALE as int),
        z: v.z - tdiv(van * n.z, SCALE as int),
    };
    let speed = t.len();
    if speed == 0 {
        v
    } else {
        let fi0 = tdiv(mu * ni * (crate::physics::PHYSICS_DT_US as int), 1_000_000_000);
        let fi = if fi0 <= speed {
            fi0
        } else {
            speed
        };
        let dir = norm_or_up_spec(t, speed);
        V3 {
            x: v.x - tdiv(dir.x * fi, SCALE as int),
            y: v.y - tdiv(dir.y * fi, SCALE as int),
            z: v.z - tdiv(dir.z * fi, SCALE as int),
        }
    }
}

/// Apply Coulomb friction against the contact normal `n` after an impulse of
/// magnitude `normal_impulse` was absorbed.
pub fn apply_friction(v: Vec3, n: Vec3, mu: i64, normal_impulse: i64) -> (r: Vec3)
    requires
        v@.bounded(MAX_COORD as int),
        n@.bounded(NORM_LIM as int),
        0 <= mu <= SCALE,
        0 <= normal_impulse <= 2 * DOT_LIM,
    ensures
        r@ == friction_spec(v@, n@, mu as int, normal_impulse as int),
        r@.bounded(3 * DOT_LIM as int),
{
    proof {
        lemma_mul_bound(v@.x, MAX_COORD as int, n@.x, NORM_LIM as int);
        lemma_mul_bound(v@.y, MAX_COORD as int, n@.y, NORM_LIM as int);
        lemma_mul_bound(v@.z, MAX_COORD as int, n@.z, NORM_LIM as int);
        lemma_tdiv_le(v@.dot(n@), SCALE as int, 330_000_000);
    }
    let van = div_fix(v.dot(n), SCALE);
    let ghost vanb = 330_000_000int;
    proof {
        lemma_mul_bound(van as int, vanb, n@.x, NORM_LIM as int);
        lemma_mul_bound(van as int, vanb, n@.y, NORM_LIM as int);
        lemma_mul_bound(van as int, vanb, n@.z, NORM_LIM as int);
        lemma_tdiv_le(van as int * n@.x, SCALE as int, 363_000_000);
        lemma_tdiv_le(van as int * n@.y, SCALE as int, 363_000_000);
        lemma_tdiv_le(van as int * n@.z, SCALE as int, 363_000_000);
    }
    let t = Vec3 {
        x: v.x - div_fix(van * n.x, SCALE),
        y: v.y - div_fix(van * n.y, SCALE),
        z: v.z - div_fix(van * n.z, SCALE),
    };
    let speed = t.length();
    if speed == 0 {
        return v;
    }
    proof {
        lemma_mul_bound(mu as int, SCALE as int, normal_impulse as int, 2 * DOT_LIM as int);
        lemma_mul_bound(
            mu as int * normal_impulse as int,
            SCALE as int * 2 * DOT_LIM as int,
            crate::physics::PHYSICS_DT_US as int,
            20_000,
        );
        lemma_tdiv_bound(
            mu as int * normal_impulse as int * (crate::physics::PHYSICS_DT_US as int),
            1_000_000_000,
        );
    }
    let fi0 = div_fix((mu * normal_impulse) * (crate::physics::PHYSICS_DT_US as i64), 1_000_000_000);
    let fi = if fi0 <= speed {
        fi0
    } else {
        speed
    };
    let dir = normal_from_diff(t, speed);
    proof {
        lemma_mul_bound(dir@.x, SCALE as int, fi as int, 2 * DOT_LIM as int);
        lemma_mul_bound(dir@.y, SCALE as int, fi as int, 2 * DOT_LIM as int);
        lemma_mul_bound(dir@.z, SCALE as int, fi as int, 2 * DOT_LIM as int);
        lemma_tdiv_le(dir@.x * fi, SCALE as int, 2 * DOT_LIM as int);
        lemma_tdiv_le(dir@.y * fi, SCALE as int, 2 * DOT_LIM as int);
        lemma_tdiv_le(dir@.z * fi, SCALE as int, 2 * DOT_LIM as int);
        assert(2 * DOT_LIM as int * SCALE as int == SCALE as int * (2 * DOT_LIM as int))
            by (nonlinear_arith);
    }
    Vec3 {
        x: v.x - div_fix(dir.x * fi, SCALE),
        y: v.y - div_fix(dir.y * fi, SCALE),
        z: v.z - div_fix(dir.z * fi, SCALE),
    }
}

/// Velocity response of one dynamic body against an immovable obstacle.
/// `pn` is the push-out direction: the body is approaching when its velocity
/// along `pn` is negative. Returns the pre-friction velocity and the normal
/// impulse magnitude (zero when the body is separating).
pub open spec fn bounce_spec(v: V3, pn: V3, e: int) -> (V3, int) {
    let van = tdiv(v.dot(pn), SCALE as int);
    if van < 0 {
        if -van < REST_VELOCITY_THRESHOLD {
            (
                V3 {
                    x: v.x - tdiv(van * pn.x, SCALE as int),
                    y: v.y - tdiv(van * pn.y, SCALE as int),
                    z: v.z - tdiv(van * pn.z, SCALE as int),
                },
                -van,
            )
        } else {
            let f = SCALE as int + e;
            (
                V3 {
                    x: v.x - tdiv(f * van * pn.x, SCALE as int * SCALE as int),
                    y: v.y - tdiv(f * van * pn.y, SCALE as int * SCALE as int),
                    z: v.z - tdiv(f * van * pn.z, SCALE as int * SCALE as int),
                },
                tdiv(f * -van, SCALE as int),
            )
        }
    } else {
        (v, 0)
    }
}

/// Full static-contact velocity update: reflect or zero the normal component,
/// then apply friction, saturating into the velocity range.
pub open spec fn body_bounce_spec(v: V3, pn: V3, e: int, mu: int) -> V3 {
    let r = bounce_spec(v, pn, e);
    if r.1 > 0 {
        clamp_v3(friction_spec(clamp_v3(r.0, MAX_COORD as int), pn, mu, r.1), MAX_COORD as int)
    } else {
        v
    }
}

/// Executable static-contact velocity update.
pub fn bounce_velocity(v: Vec3, pn: Vec3, e: i64, mu: i64) -> (r: Vec3)
    requires
        v@.bounded(MAX_COORD as int),
        pn@.bounded(NORM_LIM as int),
        0 <= e <= SCALE,
        0 <= mu <= SCALE,
    ensures
        r@ == body_bounce_spec(v@, pn@, e as int, mu as int),
        r@.bounded(MAX_COORD as int),
{
    proof {
        lemma_mul_bound(v@.x, MAX_COORD as int, pn@.x, NORM_LIM as int);
        lemma_mul_bound(v@.y, MAX_COORD as int, pn@.y, NORM_LIM as int);
        lemma_mul_bound(v@.z, MAX_COORD as int, pn@.z, NORM_LIM as int);
        lemma_tdiv_le(v@.dot(pn@), SCALE as int, 330_000_000);
    }
    let van = div_fix(v.dot(pn), SCALE);
    let ghost vanb = 330_000_000int;
    if van < 0 {
        let v1: Vec3;
        let ni: i64;
        if -van < REST_VELOCITY_THRESHOLD {
            proof {
                lemma_mul_bound(van as int, vanb, pn@.x, NORM_LIM as int);
                lemma_mul_bound(van as int, vanb, pn@.y, NORM_LIM as int);
                lemma_mul_bound(van as int, vanb, pn@.z, NORM_LIM as int);
                lemma_tdiv_le(van as int * pn@.x, SCALE as int, 363_000_000);
                lemma_tdiv_le(van as int * pn@.y, SCALE as int, 363_000_000);
                lemma_tdiv_le(van as int * pn@.z, SCALE as int, 363_000_000);
            }
            v1 = Vec3 {
                x: v.x - div_fix(van * pn.x, SCALE),
                y: v.y - div_fix(van * pn.y, SCALE),
                z: v.z - div_fix(van * pn.z, SCALE),
            };
            ni = -van;
        } else {
            let f = SCALE + e;
            proof {
                lemma_mul_bound(f as int, 2 * SCALE as int, van as int, vanb);
                lemma_mul_bound(
                    f as int * van as int,
                    2 * SCALE as int * vanb,
                    pn@.x,
                    NORM_LIM as int,
                );
                lemma_mul_bound(
                    f as int * van as int,
                    2 * SCALE as int * vanb,
                    pn@.y,
                    NORM_LIM as int,
                );
                lemma_mul_bound(
                    f as int * van as int,
                    2 * SCALE as int * vanb,
                    pn@.z,
                    NORM_LIM as int,
                );
                lemma_tdiv_le(
                    f as int * van as int * pn@.x,
                    SCALE as int * SCALE as int,
                    726_000_000,
                );
                lemma_tdiv_le(
                    f as int * van as int * pn@.y,
                    SCALE as int * SCALE as int,
                    726_000_000,
                );
                lemma_tdiv_le(
                    f as int * van as int * pn@.z,
                    SCALE as int * SCALE as int,
                    726_000_000,
                );
                lemma_mul_bound(f as int, 2 * SCALE as int, -(van as int), vanb);
                lemma_tdiv_le(f as int * (-van as int), SCALE as int, 660_000_000);
            }
            v1 = Vec3 {
                x: v.x - div_fix(f * van * pn.x, SCALE * SCALE),
                y: v.y - div_fix(f * van * pn.y, SCALE * SCALE),
                z: v.z - div_fix(f * van * pn.z, SCALE * SCALE),
            };
            ni = div_fix(f * -van, SCALE);
            proof {
                assert(f as int * (-(van as int)) >= SCALE as int) by (nonlinear_arith)
                    requires f as int >= 1000, -(van as int) >= 500;
                vstd::arithmetic::div_mod::lemma_div_is_ordered(
                    SCALE as int,
                    f as int * (-(van as int)),
                    SCALE as int,
                );
            }
        }
        let v1c = v1.clamped(MAX_COORD);
        let v2 = apply_friction(v1c, pn, mu, ni);
        let r = v2.clamped(MAX_COORD);
        assert(ni > 0);
        r
    } else {
        v
    }
}

} // verus!

verus! {

/// Everything about a body except its position and linear velocity value.
/// The solver may change only motion state, never structure or components.
pub open spec fn same_except_motion(a: Body, b: Body) -> bool {
    &&& b.local.rotation == a.local.rotation
    &&& b.global == a.global
    &&& b.parent == a.parent
    &&& b.children@ == a.children@
    &&& (b.velocity is Some <==> a.velocity is Some)
    &&& b.acceleration == a.acceleration
    &&& b.mass == a.mass
    &&& b.gravity == a.gravity
    &&& b.drag == a.drag
    &&& b.restitution == a.restitution
    &&& b.friction == a.friction
    &&& b.collider == a.collider
    &&& b.static_body == a.static_body
    &&& b.held == a.held
    &&& b.grabbable == a.grabbable
    &&& b.player == a.player
    &&& b.grounded == a.grounded
    &&& b.prev_position == a.prev_position
    &&& b.owner == a.owner
    &&& b.mesh == a.mesh
    &&& b.hidden == a.hidden
}

/// Positional correction: push out along `pn` by the full depth, saturating
/// into the world's coordinate range.
pub open spec fn pushed_pos(p: V3, pn: V3, depth: int) -> V3 {
    clamp_v3(
        V3 {
            x: p.x + tdiv(pn.x * depth, SCALE as int),
            y: p.y + tdiv(pn.y * depth, SCALE as int),
            z: p.z + tdiv(pn.z * depth, SCALE as int),
        },
        MAX_COORD as int,
    )
}

fn push_position(p: Vec3, pn: Vec3, depth: i64) -> (r: Vec3)
    requires
        p@.bounded(MAX_COORD as int),
        pn@.bounded(NORM_LIM as int),
        0 < depth <= 2 * DOT_LIM,
    ensures
        r@ == pushed_pos(p@, pn@, depth as int),
        r@.bounded(MAX_COORD as int),
{
    proof {
        lemma_mul_bound(pn@.x, NORM_LIM as int, depth as int, 2 * DOT_LIM as int);
        lemma_mul_bound(pn@.y, NORM_LIM as int, depth as int, 2 * DOT_LIM as int);
        lemma_mul_bound(pn@.z, NORM_LIM as int, depth as int, 2 * DOT_LIM as int);
        lemma_tdiv_bound(pn@.x * depth as int, SCALE as int);
        lemma_tdiv_bound(pn@.y * depth as int, SCALE as int);
        lemma_tdiv_bound(pn@.z * depth as int, SCALE as int);
    }
    Vec3 {
        x: clamp_i64(p.x + div_fix(pn.x * depth, SCALE), MAX_COORD),
        y: clamp_i64(p.y + div_fix(pn.y * depth, SCALE), MAX_COORD),
        z: clamp_i64(p.z + div_fix(pn.z * depth, SCALE), MAX_COORD),
    }
}

/// The fixed-point vector carrying a spec value (inverse of the view).
pub open spec fn vec3_of(v: V3) -> Vec3 {
    Vec3 { x: v.x as i64, y: v.y as i64, z: v.z as i64 }
}

/// The exact state of a dynamic root after a static contact: pushed out
/// along `pn` by the full depth, velocity run through the bounce response.
pub open spec fn static_resolved_body(b: Body, pn: V3, depth: int, e: int, mu: int) -> Body {
    Body {
        local: LocalTransform {
            position: vec3_of(pushed_pos(b.local.position@, pn, depth)),
            rotation: b.local.rotation,
        },
        velocity: match b.velocity {
            Some(v) => Some(Velocity(vec3_of(body_bounce_spec(v.0@, pn, e, mu)))),
            None => None,
        },
        ..b
    }
}

/// Resolve one dynamic root body against an immovable obstacle: push it out
/// along `pn` by the full depth and run the velocity response.
pub fn resolve_static_contact(w: &mut World, root: usize, pn: Vec3, depth: i64, e: i64, mu: i64)
    requires
        old(w).wf(),
        root < old(w).n(),
        old(w).bodies@[root as int].parent is None,
        old(w).bodies@[root as int].static_body is None,
        old(w).bodies@[root as int].held is None,
        pn@.bounded(NORM_LIM as int),
        0 < depth <= 2 * DOT_LIM,
        0 <= e <= SCALE,
        0 <= mu <= SCALE,
    ensures
        final(w).wf(),
        final(w).n() == old(w).n(),
        forall|k: int| 0 <= k < old(w).n() && k != root ==> final(w).bodies@[k] == old(w).bodies@[k],
        same_except_motion(old(w).bodies@[root as int], final(w).bodies@[root as int]),
        final(w).bodies@[root as int].local.position@ == pushed_pos(
            old(w).bodies@[root as int].local.position@,
            pn@,
            depth as int,
        ),
        old(w).bodies@[root as int].velocity is Some ==> final(w).bodies@[root as int].velocity
            == Some(
            Velocity(
                Vec3 {
                    x: body_bounce_spec(
                        (old(w).bodies@[root as int].velocity->0).0@,
                        pn@,
                        e as int,
                        mu as int,
                    ).x as i64,
                    y: body_bounce_spec(
                        (old(w).bodies@[root as int].velocity->0).0@,
                        pn@,
                        e as int,
                        mu as int,
                    ).y as i64,
                    z: body_bounce_spec(
                        (old(w).bodies@[root as int].velocity->0).0@,
                        pn@,
                        e as int,
                        mu as int,
                    ).z as i64,
                },
            ),
        ),
        old(w).bodies@[root as int].velocity is None ==> final(w).bodies@[root as int].velocity
            is None,
        final(w).bodies@ == old(w).bodies@.update(
            root as int,
            static_resolved_body(
                old(w).bodies@[root as int],
                pn@,
                depth as int,
                e as int,
                mu as int,
            ),
        ),
{
    let ghost pre = w.bodies@;
    let p = w.bodies[root].local.position;
    let np = push_position(p, pn, depth);
    w.bodies[root].local.position = np;
    match w.bodies[root].velocity {
        Some(v) => {
            let nv = bounce_velocity(v.0, pn, e, mu);
            w.bodies[root].velocity = Some(Velocity(nv));
        },
        None => {},
    }
    proof {
        let s = w.bodies@;
        assert forall|i: int| 0 <= i < s.len() implies (#[trigger] s[i]).ok(s.len() as int) && (
        s[i].parent is Some ==> s[s[i].parent->0 as int].parent is None) by {
            assert(pre[i].ok(pre.len() as int));
            if s[i].parent is Some {
                let pp = s[i].parent->0 as int;
                assert(s[pp].parent == pre[pp].parent);
            }
        }
        let rb = static_resolved_body(pre[root as int], pn@, depth as int, e as int, mu as int);
        assert(s[root as int].local.position == rb.local.position);
        assert(s[root as int].velocity == rb.velocity);
        assert(s[root as int] == rb);
        assert(s =~= pre.update(root as int, rb));
    }
}

/// Velocity response for a dynamic-dynamic contact: equal and opposite
/// impulses with the rest-velocity threshold and shared friction.
pub open spec fn pair_bounce_spec(va: V3, vb: V3, n: V3, e: int, mu: int) -> (V3, V3) {
    let rel = va.minus(vb);
    let van = tdiv(rel.dot(n), SCALE as int);
    if van > 0 {
        let imp = if van < REST_VELOCITY_THRESHOLD {
            tdiv(van, 2)
        } else {
            tdiv((SCALE as int + e) * van, 2 * SCALE as int)
        };
        let dx = tdiv(imp * n.x, SCALE as int);
        let dy = tdiv(imp * n.y, SCALE as int);
        let dz = tdiv(imp * n.z, SCALE as int);
        let va1 = V3 { x: va.x - dx, y: va.y - dy, z: va.z - dz };
        let vb1 = V3 { x: vb.x + dx, y: vb.y + dy, z: vb.z + dz };
        (
            clamp_v3(
                friction_spec(clamp_v3(va1, MAX_COORD as int), n, mu, imp),
                MAX_COORD as int,
            ),
            clamp_v3(
                friction_spec(clamp_v3(vb1, MAX_COORD as int), n, mu, imp),
                MAX_COORD as int,
            ),
        )
    } else {
        (va, vb)
    }
}

/// Executable dynamic-pair velocity response.
pub fn pair_bounce(va: Vec3, vb: Vec3, n: Vec3, e: i64, mu: i64) -> (r: (Vec3, Vec3))
    requires
        va@.bounded(MAX_COORD as int),
        vb@.bounded(MAX_COORD as int),
        n@.bounded(NORM_LIM as int),
        0 <= e <= SCALE,
        0 <= mu <= SCALE,
    ensures
        r.0@ == pair_bounce_spec(va@, vb@, n@, e as int, mu as int).0,
        r.1@ == pair_bounce_spec(va@, vb@, n@, e as int, mu as int).1,
        r.0@.bounded(MAX_COORD as int),
        r.1@.bounded(MAX_COORD as int),
{
    let rel = va.minus(vb);
    proof {
        lemma_mul_bound(rel@.x, 2 * MAX_COORD as int, n@.x, NORM_LIM as int);
        lemma_mul_bound(rel@.y, 2 * MAX_COORD as int, n@.y, NORM_LIM as int);
        lemma_mul_bound(rel@.z, 2 * MAX_COORD as int, n@.z, NORM_LIM as int);
        lemma_tdiv_le(rel@.dot(n@), SCALE as int, 660_000_000);
    }
    let van = div_fix(rel.dot(n), SCALE);
    if van > 0 {
        let imp: i64 = if van < REST_VELOCITY_THRESHOLD {
            van / 2
        } else {
            proof {
                lemma_mul_bound(SCALE as int + e as int, 2 * SCALE as int, van as int, 660_000_000);
                lemma_tdiv_le((SCALE as int + e as int) * van as int, 2 * SCALE as int, 660_000_000);
            }
            div_fix((SCALE + e) * van, 2 * SCALE)
        };
        proof {
            lemma_tdiv_bound(van as int, 2);
            lemma_mul_bound(imp as int, 660_000_000, n@.x, NORM_LIM as int);
            lemma_mul_bound(imp as int, 660_000_000, n@.y, NORM_LIM as int);
            lemma_mul_bound(imp as int, 660_000_000, n@.z, NORM_LIM as int);
            lemma_tdiv_le(imp as int * n@.x, SCALE as int, 726_000_000);
            lemma_tdiv_le(imp as int * n@.y, SCALE as int, 726_000_000);
            lemma_tdiv_le(imp as int * n@.z, SCALE as int, 726_000_000);
        }
        let dx = div_fix(imp * n.x, SCALE);
        let dy = div_fix(imp * n.y, SCALE);
        let dz = div_fix(imp * n.z, SCALE);
        let va1 = Vec3 { x: va.x - dx, y: va.y - dy, z: va.z - dz }.clamped(MAX_COORD);
        let vb1 = Vec3 { x: vb.x + dx, y: vb.y + dy, z: vb.z + dz }.clamped(MAX_COORD);
        proof {
            lemma_tdiv_bound(imp as int, 1);
            assert(imp >= 0);
            assert(imp <= 2 * DOT_LIM);
        }
        let ra = apply_friction(va1, n, mu, imp).clamped(MAX_COORD);
        let rb = apply_friction(vb1, n, mu, imp).clamped(MAX_COORD);
        (ra, rb)
    } else {
        (va, vb)
    }
}

/// The exact states of two dynamic roots after their mutual contact: the
/// positional correction split 50/50 and the symmetric impulse applied.
pub open spec fn dynamic_resolved_bodies(
    ba: Body,
    bb: Body,
    n: V3,
    depth: int,
    e: int,
    mu: int,
) -> (Body, Body) {
    let half = depth / 2;
    let va = match ba.velocity {
        Some(v) => v.0@,
        None => V3 { x: 0, y: 0, z: 0 },
    };
    let vb = match bb.velocity {
        Some(v) => v.0@,
        None => V3 { x: 0, y: 0, z: 0 },
    };
    let nv = pair_bounce_spec(va, vb, n, e, mu);
    (
        Body {
            local: LocalTransform {
                position: vec3_of(pushed_pos(ba.local.position@, n.neg(), half)),
                rotation: ba.local.rotation,
            },
            velocity: match ba.velocity {
                Some(v0) => Some(Velocity(vec3_of(nv.0))),
                None => None,
            },
            ..ba
        },
        Body {
            local: LocalTransform {
                position: vec3_of(pushed_pos(bb.local.position@, n, half)),
                rotation: bb.local.rotation,
            },
            velocity: match bb.velocity {
                Some(v0) => Some(Velocity(vec3_of(nv.1))),
                None => None,
            },
            ..bb
        },
    )
}

/// Resolve a dynamic-dynamic contact: split the positional correction 50/50
/// and apply the symmetric impulse to both roots.
#[verifier::rlimit(100)]
pub fn resolve_dynamic_contact(
    w: &mut World,
    root_a: usize,
    root_b: usize,
    n: Vec3,
    depth: i64,
    e: i64,
    mu: i64,
)
    requires
        old(w).wf(),
        root_a < old(w).n(),
        root_b < old(w).n(),
        root_a != root_b,
        old(w).bodies@[root_a as int].parent is None,
        old(w).bodies@[root_b as int].parent is None,
        old(w).bodies@[root_a as int].static_body is None,
        old(w).bodies@[root_b as int].static_body is None,
        old(w).bodies@[root_a as int].held is None,
        old(w).bodies@[root_b as int].held is None,
        n@.bounded(NORM_LIM as int),
        0 < depth <= 2 * DOT_LIM,
        0 <= e <= SCALE,
        0 <= mu <= SCALE,
    ensures
        final(w).wf(),
        final(w).n() == old(w).n(),
        forall|k: int|
            0 <= k < old(w).n() && k != root_a && k != root_b ==> final(w).bodies@[k] == old(
                w,
            ).bodies@[k],
        same_except_motion(old(w).bodies@[root_a as int], final(w).bodies@[root_a as int]),
        same_except_motion(old(w).bodies@[root_b as int], final(w).bodies@[root_b as int]),
        final(w).bodies@[root_a as int].local.position@ == pushed_pos(
            old(w).bodies@[root_a as int].local.position@,
            n@.neg(),
            depth as int / 2,
        ),
        final(w).bodies@[root_b as int].local.position@ == pushed_pos(
            old(w).bodies@[root_b as int].local.position@,
            n@,
            depth as int / 2,
        ),
        final(w).bodies@ == old(w).bodies@.update(
            root_a as int,
            dynamic_resolved_bodies(
                old(w).bodies@[root_a as int],
                old(w).bodies@[root_b as int],
                n@,
                depth as int,
                e as int,
                mu as int,
            ).0,
        ).update(
            root_b as int,
            dynamic_resolved_bodies(
                old(w).bodies@[root_a as int],
                old(w).bodies@[root_b as int],
                n@,
                depth as int,
                e as int,
                mu as int,
            ).1,
        ),
{
    let ghost pre = w.bodies@;
    let half = depth / 2;
    if half > 0 {
        let pa = w.bodies[root_a].local.position;
        let npa = push_position(pa, n.neg(), half);
        w.bodies[root_a].local.position = npa;
        let pb = w.bodies[root_b].local.position;
        let npb = push_position(pb, n, half);
        w.bodies[root_b].local.position = npb;
    } else {
        proof {
            assert(pre[root_a as int].ok(pre.len() as int));
            assert(pre[root_b as int].ok(pre.len() as int));
            assert(n@.neg().x * 0 == 0 && n@.neg().y * 0 == 0 && n@.neg().z * 0 == 0)
                by (nonlinear_arith);
            assert(n@.x * 0 == 0 && n@.y * 0 == 0 && n@.z * 0 == 0) by (nonlinear_arith);
            assert(pushed_pos(pre[root_a as int].local.position@, n@.neg(), 0) == pre[root_a as int].local.position@);
            assert(pushed_pos(pre[root_b as int].local.position@, n@, 0) == pre[root_b as int].local.position@);
        }
    }
    let va = match w.bodies[root_a].velocity {
        Some(v) => v.0,
        None => Vec3 { x: 0, y: 0, z: 0 },
    };
    let vb = match w.bodies[root_b].velocity {
        Some(v) => v.0,
        None => Vec3 { x: 0, y: 0, z: 0 },
    };
    let nv = pair_bounce(va, vb, n, e, mu);
    if w.bodies[root_a].velocity.is_some() {
        w.bodies[root_a].velocity = Some(Velocity(nv.0));
    }
    if w.bodies[root_b].velocity.is_some() {
        w.bodies[root_b].velocity = Some(Velocity(nv.1));
    }
    proof {
        let s = w.bodies@;
        assert forall|i: int| 0 <= i < s.len() implies (#[trigger] s[i]).ok(s.len() as int) && (
        s[i].parent is Some ==> s[s[i].parent->0 as int].parent is None) by {
            assert(pre[i].ok(pre.len() as int));
            if s[i].parent is Some {
                let pp = s[i].parent->0 as int;
                assert(s[pp].parent == pre[pp].parent);
            }
        }
        let rab = dynamic_resolved_bodies(
            pre[root_a as int],
            pre[root_b as int],
            n@,
            depth as int,
            e as int,
            mu as int,
        );
        assert(s[root_a as int].local.position == rab.0.local.position);
        assert(s[root_b as int].local.position == rab.1.local.position);
        assert(s[root_a as int].velocity == rab.0.velocity);
        assert(s[root_b as int].velocity == rab.1.velocity);
        assert(s[root_a as int] == rab.0);
        assert(s[root_b as int] == rab.1);
        assert(s =~= pre.update(root_a as int, rab.0).update(root_b as int, rab.1));
    }
}

} // verus!

verus! {

// ---------------------------------------------------------------------------
// Broadphase collection, all-pairs detection, and the collision system
// ---------------------------------------------------------------------------

/// The snapshot entry for body `i`: its current world position (a root's
/// physics position; a child's last propagated pose), its shape, and the
/// self-collision owner tag if it carries one.
pub open spec fn entry_of(s: Seq<Body>, i: int) -> ColliderEntry {
    ColliderEntry {
        entity: i as usize,
        position: match s[i].parent {
            None => s[i].local.position,
            Some(_) => s[i].global.position,
        },
        collider_kind: kind_of(s[i].collider->0),
        body_owner: match s[i].owner {
            Some(o) => Some(o.0),
            None => None,
        },
    }
}

/// The broadphase list over the first `k` bodies: every body with a collider,
/// in entity order.
pub open spec fn entries_of(s: Seq<Body>, k: int) -> Seq<ColliderEntry>
    decreases k,
{
    if k <= 0 {
        Seq::empty()
    } else {
        let rest = entries_of(s, k - 1);
        if s[k - 1].collider is Some {
            rest.push(entry_of(s, k - 1))
        } else {
            rest
        }
    }
}

/// Every broadphase entry is well formed and names a valid entity.
pub proof fn lemma_entries_wf(s: Seq<Body>, k: int)
    requires
        wf_seq(s),
        0 <= k <= s.len(),
    ensures
        forall|i: int|
            0 <= i < entries_of(s, k).len() ==> (#[trigger] entries_of(s, k)[i]).wf() && entries_of(
                s,
                k,
            )[i].entity < s.len(),
    decreases k,
{
    if k > 0 {
        lemma_entries_wf(s, k - 1);
        if s[k - 1].collider is Some {
            assert(s[k - 1].ok(s.len() as int));
            let c = s[k - 1].collider->0;
            let e = entry_of(s, k - 1);
            assert(e.collider_kind == kind_of(c));
            match c {
                Collider::Capsule { radius, height } => {
                    assert(0 <= height / 2 <= MAX_COORD);
                },
                _ => {},
            }
            assert(e.wf());
        }
    }
}

/// Two entries may produce an event only when they are not parts of the same
/// character body.
pub open spec fn owners_differ(a: ColliderEntry, b: ColliderEntry) -> bool {
    !(a.body_owner is Some && b.body_owner is Some && a.body_owner->0 == b.body_owner->0)
}

/// One executable event realizes one spec contact.
pub open spec fn event_matches(ev: CollisionEvent, c: ContactV) -> bool {
    ev.entity_a as int == c.a && ev.entity_b as int == c.b && ev.contact_normal@ == c.normal
        && ev.penetration_depth as int == c.pen
}

/// Every event in `events` comes from some testable pair of `entries`.
pub open spec fn sound_events(entries: Seq<ColliderEntry>, events: Seq<CollisionEvent>) -> bool {
    forall|k: int|
        0 <= k < events.len() ==> exists|p: int, q: int|
            0 <= p < q < entries.len() && owners_differ(entries[p], entries[q]) && (
            #[trigger] test_pair_spec(entries[p], entries[q])) is Some && event_matches(
                #[trigger] events[k],
                test_pair_spec(entries[p], entries[q])->0,
            )
}

/// Every testable overlapping pair of `entries` appears in `events`.
pub open spec fn complete_events(entries: Seq<ColliderEntry>, events: Seq<CollisionEvent>) -> bool {
    forall|p: int, q: int|
        0 <= p < q < entries.len() && owners_differ(entries[p], entries[q]) && (
        #[trigger] test_pair_spec(entries[p], entries[q])) is Some ==> exists|k: int|
            0 <= k < events.len() && event_matches(
                #[trigger] events[k],
                test_pair_spec(entries[p], entries[q])->0,
            )
}

/// Bounds carried by every emitted event.
pub open spec fn events_bounded(events: Seq<CollisionEvent>, n: int) -> bool {
    forall|k: int|
        0 <= k < events.len() ==> 0 < (#[trigger] events[k]).penetration_depth <= 2 * DOT_LIM
            && events[k].contact_normal@.bounded(NORM_LIM as int) && events[k].entity_a < n
            && events[k].entity_b < n
}

/// The executable event a spec contact compiles to.
pub open spec fn event_of(c: ContactV) -> CollisionEvent {
    CollisionEvent {
        entity_a: c.a as usize,
        entity_b: c.b as usize,
        contact_normal: Vec3 { x: c.normal.x as i64, y: c.normal.y as i64, z: c.normal.z as i64 },
        penetration_depth: c.pen as i64,
    }
}

/// The event sequence one pair contributes: one event when the owners differ
/// and the shapes overlap, nothing otherwise.
pub open spec fn pair_events(e: Seq<ColliderEntry>, p: int, q: int) -> Seq<CollisionEvent> {
    if owners_differ(e[p], e[q]) && test_pair_spec(e[p], e[q]) is Some {
        seq![event_of(test_pair_spec(e[p], e[q])->0)]
    } else {
        Seq::empty()
    }
}

/// Events of row `i`: the pairs `(i, i+1) .. (i, j-1)`, in order.
pub open spec fn row_events_upto(e: Seq<ColliderEntry>, i: int, j: int) -> Seq<CollisionEvent>
    decreases j - i,
{
    if j <= i + 1 {
        Seq::empty()
    } else {
        row_events_upto(e, i, j - 1) + pair_events(e, i, j - 1)
    }
}

/// Events of the complete rows `0 .. i-1`, in order.
pub open spec fn rows_events_upto(e: Seq<ColliderEntry>, i: int) -> Seq<CollisionEvent>
    decreases i,
{
    if i <= 0 {
        Seq::empty()
    } else {
        rows_events_upto(e, i - 1) + row_events_upto(e, i - 1, e.len() as int)
    }
}

/// The exact event list of the all-pairs test, in lexicographic pair order:
/// exactly one event per overlapping, differently-owned pair.
pub open spec fn all_pair_events(e: Seq<ColliderEntry>) -> Seq<CollisionEvent> {
    rows_events_upto(e, e.len() as int)
}

/// Brute-force all-pairs narrowphase over the broadphase list, skipping
/// same-owner pairs entirely (no event is generated for them).
#[verifier::rlimit(80)]
pub fn detect_collisions(entries: &Vec<ColliderEntry>, n: usize) -> (events: Vec<CollisionEvent>)
    requires
        forall|i: int|
            0 <= i < entries@.len() ==> (#[trigger] entries@[i]).wf() && entries@[i].entity < n,
    ensures
        sound_events(entries@, events@),
        complete_events(entries@, events@),
        events_bounded(events@, n as int),
        events@ == all_pair_events(entries@),
{
    let mut events: Vec<CollisionEvent> = Vec::new();
    let m = entries.len();
    let mut i: usize = 0;
    while i < m
        invariant
            m == entries@.len(),
            i <= m,
            forall|k: int|
                0 <= k < entries@.len() ==> (#[trigger] entries@[k]).wf() && entries@[k].entity
                    < n,
            sound_events(entries@, events@),
            events_bounded(events@, n as int),
            events@ == rows_events_upto(entries@, i as int),
            forall|p: int, q: int|
                0 <= p < q < entries@.len() && p < i && owners_differ(entries@[p], entries@[q])
                    && (#[trigger] test_pair_spec(entries@[p], entries@[q])) is Some ==> exists|
                k: int,
            |
                    0 <= k < events@.len() && event_matches(
                        #[trigger] events@[k],
                        test_pair_spec(entries@[p], entries@[q])->0,
                    ),
        decreases m - i,
    {
        let mut j: usize = i + 1;
        while j < m
            invariant
                m == entries@.len(),
                i < m,
                i < j <= m,
                forall|k: int|
                    0 <= k < entries@.len() ==> (#[trigger] entries@[k]).wf() && entries@[k].entity
                        < n,
                sound_events(entries@, events@),
                events_bounded(events@, n as int),
                events@ == rows_events_upto(entries@, i as int) + row_events_upto(
                    entries@,
                    i as int,
                    j as int,
                ),
                forall|p: int, q: int|
                    0 <= p < q < entries@.len() && p < i && owners_differ(entries@[p], entries@[q])
                        && (#[trigger] test_pair_spec(entries@[p], entries@[q])) is Some ==> exists|
                    k: int,
                |
                        0 <= k < events@.len() && event_matches(
                            #[trigger] events@[k],
                            test_pair_spec(entries@[p], entries@[q])->0,
                        ),
                forall|q: int|
                    (i as int) < q < j && owners_differ(entries@[i as int], entries@[q]) && (
                    #[trigger] test_pair_spec(entries@[i as int], entries@[q])) is Some ==> exists|
                    k: int,
                |
                        0 <= k < events@.len() && event_matches(
                            #[trigger] events@[k],
                            test_pair_spec(entries@[i as int], entries@[q])->0,
                        ),
            decreases m - j,
        {
            let ghost pre_events = events@;
            let skip = match (&entries[i].body_owner, &entries[j].body_owner) {
                (Some(oa), Some(ob)) => *oa == *ob,
                _ => false,
            };
            proof {
                assert(skip == !owners_differ(entries@[i as int], entries@[j as int]));
            }
            if !skip {
                match test_pair(&entries[i], &entries[j]) {
                    Some(ev) => {
                        events.push(ev);
                        proof {
                            assert(event_matches(
                                events@[events@.len() - 1],
                                test_pair_spec(entries@[i as int], entries@[j as int])->0,
                            ));
                            let c = test_pair_spec(entries@[i as int], entries@[j as int])->0;
                            assert(ev.contact_normal == (Vec3 {
                                x: c.normal.x as i64,
                                y: c.normal.y as i64,
                                z: c.normal.z as i64,
                            }));
                            assert(ev == event_of(c));
                            assert(pair_events(entries@, i as int, j as int) == seq![ev]);
                            assert(events@ =~= pre_events + pair_events(
                                entries@,
                                i as int,
                                j as int,
                            ));
                            assert(events@ =~= rows_events_upto(entries@, i as int)
                                + row_events_upto(entries@, i as int, j as int + 1));
                            assert forall|k: int| 0 <= k < events@.len() implies exists|
                                p: int,
                                q: int,
                            |
                                0 <= p < q < entries@.len() && owners_differ(
                                    entries@[p],
                                    entries@[q],
                                ) && (#[trigger] test_pair_spec(entries@[p], entries@[q])) is Some
                                    && event_matches(
                                    #[trigger] events@[k],
                                    test_pair_spec(entries@[p], entries@[q])->0,
                                ) by {
                                if k < events@.len() - 1 {
                                    assert(events@[k] == pre_events[k]);
                                    assert(sound_events(entries@, pre_events));
                                } else {
                                    assert(owners_differ(entries@[i as int], entries@[j as int]));
                                    assert(test_pair_spec(entries@[i as int], entries@[j as int])
                                        is Some);
                                    assert(event_matches(
                                        events@[k],
                                        test_pair_spec(entries@[i as int], entries@[j as int])->0,
                                    ));
                                }
                            }
                            assert forall|p: int, q: int|
                                0 <= p < q < entries@.len() && p < i && owners_differ(
                                    entries@[p],
                                    entries@[q],
                                ) && (#[trigger] test_pair_spec(entries@[p], entries@[q])) is Some
                                    implies exists|k: int|
                                0 <= k < events@.len() && event_matches(
                                    #[trigger] events@[k],
                                    test_pair_spec(entries@[p], entries@[q])->0,
                                ) by {
                                let c = test_pair_spec(entries@[p], entries@[q])->0;
                                let k0 = choose|k0: int|
                                    0 <= k0 < pre_events.len() && event_matches(
                                        #[trigger] pre_events[k0],
                                        c,
                                    );
                                assert(events@[k0] == pre_events[k0]);
                                assert(event_matches(events@[k0], c));
                            }
                            assert forall|q: int|
                                (i as int) < q < j + 1 && owners_differ(
                                    entries@[i as int],
                                    entries@[q],
                                ) && (#[trigger] test_pair_spec(entries@[i as int], entries@[q]))
                                    is Some implies exists|k: int|
                                0 <= k < events@.len() && event_matches(
                                    #[trigger] events@[k],
                                    test_pair_spec(entries@[i as int], entries@[q])->0,
                                ) by {
                                let c = test_pair_spec(entries@[i as int], entries@[q])->0;
                                if q < j {
                                    let k0 = choose|k0: int|
                                        0 <= k0 < pre_events.len() && event_matches(
                                            #[trigger] pre_events[k0],
                                            c,
                                        );
                                    assert(events@[k0] == pre_events[k0]);
                                    assert(event_matches(events@[k0], c));
                                } else {
                                    assert(event_matches(events@[events@.len() - 1], c));
                                }
                            }
                        }
                    },
                    None => {
                        proof {
                            assert(pair_events(entries@, i as int, j as int) == Seq::<
                                CollisionEvent,
                            >::empty());
                            assert(events@ =~= rows_events_upto(entries@, i as int)
                                + row_events_upto(entries@, i as int, j as int + 1));
                        }
                    },
                }
            } else {
                proof {
                    assert(pair_events(entries@, i as int, j as int) == Seq::<
                        CollisionEvent,
                    >::empty());
                    assert(events@ =~= rows_events_upto(entries@, i as int) + row_events_upto(
                        entries@,
                        i as int,
                        j as int + 1,
                    ));
                }
            }
            j = j + 1;
        }
        proof {
            assert(events@ =~= rows_events_upto(entries@, i as int + 1));
        }
        i = i + 1;
    }
    proof {
        if m == 0 {
            assert(events@ =~= all_pair_events(entries@));
        }
    }
    events
}

/// A `Some` result of the pair test names exactly the two tested entities,
/// in one order or the other.
pub proof fn lemma_test_pair_entities(a: ColliderEntry, b: ColliderEntry)
    requires
        test_pair_spec(a, b) is Some,
    ensures
        (test_pair_spec(a, b)->0.a == a.entity as int && test_pair_spec(a, b)->0.b == b.entity
            as int) || (test_pair_spec(a, b)->0.a == b.entity as int && test_pair_spec(a, b)->0.b
            == a.entity as int),
{
}

} // verus!

verus! {

/// Frame condition of the whole solver pass: only motion state of dynamic,
/// unheld root bodies may change.
pub open spec fn motion_only_change(s0: Seq<Body>, s1: Seq<Body>) -> bool {
    &&& s1.len() == s0.len()
    &&& forall|k: int|
        0 <= k < s0.len() ==> same_except_motion(s0[k], #[trigger] s1[k]) && (s0[k].static_body
            is Some ==> s1[k] == s0[k]) && (s0[k].held is Some ==> s1[k] == s0[k]) && (s0[k].parent
            is Some ==> s1[k] == s0[k])
}

/// Collect the broadphase snapshot: every entity with a collider.
pub fn collect_entries(w: &World) -> (entries: Vec<ColliderEntry>)
    requires
        w.wf(),
    ensures
        entries@ == entries_of(w.bodies@, w.n()),
        forall|i: int|
            0 <= i < entries@.len() ==> (#[trigger] entries@[i]).wf() && entries@[i].entity
                < w.n(),
{
    let n = w.len();
    let mut entries: Vec<ColliderEntry> = Vec::new();
    let mut i: usize = 0;
    while i < n
        invariant
            w.wf(),
            n == w.n(),
            i <= n,
            entries@ == entries_of(w.bodies@, i as int),
        decreases n - i,
    {
        match &w.bodies[i].collider {
            Some(c) => {
                let kind = collider_to_kind(c);
                let owner = match &w.bodies[i].owner {
                    Some(o) => Some(o.0),
                    None => None,
                };
                let position = match w.bodies[i].parent {
                    None => w.bodies[i].local.position,
                    Some(_) => w.bodies[i].global.position,
                };
                let entry = ColliderEntry {
                    entity: i,
                    position,
                    collider_kind: kind,
                    body_owner: owner,
                };
                assert(entry == entry_of(w.bodies@, i as int));
                entries.push(entry);
            },
            None => {},
        }
        i = i + 1;
    }
    proof {
        lemma_entries_wf(w.bodies@, w.n());
    }
    entries
}

/// The restitution used for a root: its component, or the default.
pub open spec fn restitution_of(s: Seq<Body>, r: int) -> int {
    match s[r].restitution {
        Some(v) => v.0 as int,
        None => DEFAULT_RESTITUTION as int,
    }
}

/// The friction used for a root: its component, or the default.
pub open spec fn friction_of(s: Seq<Body>, r: int) -> int {
    match s[r].friction {
        Some(v) => v.0 as int,
        None => DEFAULT_FRICTION as int,
    }
}

/// The exact effect of resolving one event on the world: held-held and
/// static-static pairs are no-ops; a static side pushes the dynamic side's
/// root out with the full bounce; two dynamic roots split the correction.
pub open spec fn respond_one_spec(s: Seq<Body>, ev: CollisionEvent) -> Seq<Body> {
    let ea = ev.entity_a as int;
    let eb = ev.entity_b as int;
    let a_held = s[ea].held is Some;
    let b_held = s[eb].held is Some;
    if a_held && b_held {
        s
    } else {
        let root_a = if a_held {
            ea
        } else {
            root_of(s, ea)
        };
        let root_b = if b_held {
            eb
        } else {
            root_of(s, eb)
        };
        let a_static = a_held || s[root_a].static_body is Some;
        let b_static = b_held || s[root_b].static_body is Some;
        if a_static && b_static {
            s
        } else {
            let e = (restitution_of(s, root_a) + restitution_of(s, root_b)) / 2;
            let mu = (friction_of(s, root_a) + friction_of(s, root_b)) / 2;
            let n = ev.contact_normal@;
            let depth = ev.penetration_depth as int;
            if a_static {
                let pb = root_of(s, eb);
                if s[pb].held is None && s[pb].static_body is None {
                    s.update(pb, static_resolved_body(s[pb], n, depth, e, mu))
                } else {
                    s
                }
            } else if b_static {
                let pa = root_of(s, ea);
                if s[pa].held is None && s[pa].static_body is None {
                    s.update(pa, static_resolved_body(s[pa], n.neg(), depth, e, mu))
                } else {
                    s
                }
            } else {
                if root_a != root_b && s[root_a].held is None && s[root_b].held is None {
                    let rab = dynamic_resolved_bodies(s[root_a], s[root_b], n, depth, e, mu);
                    s.update(root_a, rab.0).update(root_b, rab.1)
                } else {
                    s
                }
            }
        }
    }
}

/// The exact effect of resolving the first `k` events, in order.
pub open spec fn respond_upto_spec(s: Seq<Body>, events: Seq<CollisionEvent>, k: int) -> Seq<Body>
    decreases k,
{
    if k <= 0 {
        s
    } else {
        respond_one_spec(respond_upto_spec(s, events, k - 1), events[k - 1])
    }
}

/// Apply impulse-based resolution for every contact, in event order.
/// Held entities are kinematic obstacles; static-static pairs are no-ops.
fn respond_to_events(w: &mut World, events: &Vec<CollisionEvent>)
    requires
        old(w).wf(),
        events_bounded(events@, old(w).n()),
    ensures
        final(w).wf(),
        final(w).n() == old(w).n(),
        motion_only_change(old(w).bodies@, final(w).bodies@),
        final(w).bodies@ == respond_upto_spec(old(w).bodies@, events@, events@.len() as int),
{
    let ghost s0 = w.bodies@;
    let mut t: usize = 0;
    while t < events.len()
        invariant
            w.wf(),
            w.n() == s0.len() as int,
            events_bounded(events@, s0.len() as int),
            motion_only_change(s0, w.bodies@),
            t <= events@.len(),
            w.bodies@ == respond_upto_spec(s0, events@, t as int),
        decreases events@.len() - t,
    {
        let ghost s_pre = w.bodies@;
        let ev = &events[t];
        let ea = ev.entity_a;
        let eb = ev.entity_b;
        let a_held = w.bodies[ea].held.is_some();
        let b_held = w.bodies[eb].held.is_some();
        if !(a_held && b_held) {
            let root_a = if a_held {
                ea
            } else {
                w.find_physics_root(ea)
            };
            let root_b = if b_held {
                eb
            } else {
                w.find_physics_root(eb)
            };
            let a_static = a_held || w.bodies[root_a].static_body.is_some();
            let b_static = b_held || w.bodies[root_b].static_body.is_some();
            if !(a_static && b_static) {
                let ra = match &w.bodies[root_a].restitution {
                    Some(r) => r.0,
                    None => DEFAULT_RESTITUTION,
                };
                let rb = match &w.bodies[root_b].restitution {
                    Some(r) => r.0,
                    None => DEFAULT_RESTITUTION,
                };
                let e = (ra + rb) / 2;
                let fa = match &w.bodies[root_a].friction {
                    Some(f) => f.0,
                    None => DEFAULT_FRICTION,
                };
                let fb = match &w.bodies[root_b].friction {
                    Some(f) => f.0,
                    None => DEFAULT_FRICTION,
                };
                let mu = (fa + fb) / 2;
                let n = ev.contact_normal;
                let depth = ev.penetration_depth;
                if a_static {
                    let phys_b = w.find_physics_root(eb);
                    if w.bodies[phys_b].held.is_none() && w.bodies[phys_b].static_body.is_none() {
                        resolve_static_contact(w, phys_b, n, depth, e, mu);
                    }
                } else if b_static {
                    let phys_a = w.find_physics_root(ea);
                    if w.bodies[phys_a].held.is_none() && w.bodies[phys_a].static_body.is_none() {
                        resolve_static_contact(w, phys_a, n.neg(), depth, e, mu);
                    }
                } else {
                    if root_a != root_b && w.bodies[root_a].held.is_none()
                        && w.bodies[root_b].held.is_none() {
                        resolve_dynamic_contact(w, root_a, root_b, n, depth, e, mu);
                    }
                }
            }
        }
        proof {
            let s1 = w.bodies@;
            assert forall|k: int|
                0 <= k < s0.len() implies same_except_motion(s0[k], #[trigger] s1[k]) && (
            s0[k].static_body is Some ==> s1[k] == s0[k]) && (s0[k].held is Some ==> s1[k]
                == s0[k]) && (s0[k].parent is Some ==> s1[k] == s0[k]) by {
                assert(same_except_motion(s0[k], s_pre[k]));
                assert(same_except_motion(s_pre[k], s1[k]) || s1[k] == s_pre[k]);
            }
            assert(s1 == respond_one_spec(s_pre, events@[t as int]));
        }
        t = t + 1;
    }
}

/// Detect collisions over all collidable entities and apply impulse-based
/// response. The returned events are exactly the canonical pair tests of the
/// pre-tick snapshot; only dynamic, unheld root bodies are moved.
pub fn collision_system(world: &mut World) -> (events: Vec<CollisionEvent>)
    requires
        old(world).wf(),
    ensures
        final(world).wf(),
        final(world).n() == old(world).n(),
        sound_events(entries_of(old(world).bodies@, old(world).n()), events@),
        complete_events(entries_of(old(world).bodies@, old(world).n()), events@),
        events_bounded(events@, old(world).n()),
        motion_only_change(old(world).bodies@, final(world).bodies@),
        events@ == all_pair_events(entries_of(old(world).bodies@, old(world).n())),
        final(world).bodies@ == respond_upto_spec(
            old(world).bodies@,
            events@,
            events@.len() as int,
        ),
{
    let n = world.len();
    let entries = collect_entries(world);
    let events = detect_collisions(&entries, n);
    respond_to_events(world, &events);
    events
}

} // verus!

verus! {

// ---------------------------------------------------------------------------
// Swept-sphere continuous collision detection against static geometry
// ---------------------------------------------------------------------------

/// Truncating division extended to any nonzero divisor.
pub open spec fn tdiv_s(a: int, b: int) -> int
    recommends
        b != 0,
{
    if b > 0 {
        tdiv(a, b)
    } else {
        tdiv(-a, -b)
    }
}

/// Truncating division by any nonzero divisor.
pub fn div_any(a: i64, b: i64) -> (q: i64)
    requires
        b != 0,
        -0x4000_0000_0000_0000 < a < 0x4000_0000_0000_0000,
        -0x4000_0000_0000_0000 < b < 0x4000_0000_0000_0000,
    ensures
        q == tdiv_s(a as int, b as int),
        -0x4000_0000_0000_0000 < q < 0x4000_0000_0000_0000,
{
    if b > 0 {
        let q = div_fix(a, b);
        q
    } else {
        let q = div_fix(-a, -b);
        q
    }
}

/// Sweep fraction in `[0, SCALE]` of a sphere of `radius` starting at
/// `start`, moving `len` milli-units along the unit direction `dir`, against
/// one collider at `other_pos`. `SCALE` means the full motion is safe; a
/// start already overlapping returns `SCALE` and is left to the
/// overlap-resolution pass.
pub open spec fn sweep_sphere_vs_spec(
    radius: int,
    start: V3,
    dir: V3,
    len: int,
    other_pos: V3,
    kind: ColliderKind,
) -> int {
    match kind {
        ColliderKind::Plane { normal, offset } => {
            let n = normal@;
            let dist_a = tdiv(start.dot(n), SCALE as int) - offset;
            if dist_a < radius {
                SCALE as int
            } else {
                let d_dot = tdiv(dir.dot(n), SCALE as int);
                if d_dot >= 0 {
                    SCALE as int
                } else {
                    let t_contact = tdiv((dist_a - radius) * SCALE, -d_dot);
                    if t_contact > len {
                        SCALE as int
                    } else {
                        clamp_param(tdiv(t_contact * SCALE, len))
                    }
                }
            }
        },
        ColliderKind::Sphere { radius: other_r } => {
            sweep_vs_sphere_spec(radius + other_r, start, dir, len, other_pos)
        },
        ColliderKind::Capsule { radius: other_r, half_height } => {
            sweep_vs_sphere_spec(radius + other_r + half_height, start, dir, len, other_pos)
        },
        ColliderKind::Box { half_extents } => {
            let he = half_extents@;
            let exp = V3 { x: he.x + radius, y: he.y + radius, z: he.z + radius };
            let bmin = other_pos.minus(exp);
            let bmax = other_pos.plus(exp);
            if bmin.x < start.x < bmax.x && bmin.y < start.y < bmax.y && bmin.z < start.z
                < bmax.z {
                SCALE as int
            } else {
                match slab_interval(start.x, dir.x, bmin.x, bmax.x) {
                    None => SCALE as int,
                    Some((nx, xx)) => match slab_interval(start.y, dir.y, bmin.y, bmax.y) {
                        None => SCALE as int,
                        Some((ny, xy)) => match slab_interval(start.z, dir.z, bmin.z, bmax.z) {
                            None => SCALE as int,
                            Some((nz, xz)) => {
                                let entry = max3(nx, ny, nz);
                                let exit = min3(xx, xy, xz);
                                if exit < 0 || entry > exit || entry > len {
                                    SCALE as int
                                } else {
                                    let e = if entry >= 0 {
                                        entry
                                    } else {
                                        0
                                    };
                                    clamp_param(tdiv(e * SCALE, len))
                                }
                            },
                        },
                    },
                }
            }
        },
    }
}

/// Quadratic swept-sphere test against a sphere of combined radius `cr`.
pub open spec fn sweep_vs_sphere_spec(cr: int, start: V3, dir: V3, len: int, other_pos: V3) -> int {
    let oc = start.minus(other_pos);
    let b = 2 * tdiv(oc.dot(dir), SCALE as int);
    let c = oc.norm2() - cr * cr;
    if c < 0 {
        SCALE as int
    } else {
        let disc = b * b - 4 * c;
        if disc < 0 {
            SCALE as int
        } else {
            let t_contact = tdiv(-b - sqrt_floor(disc), 2);
            if t_contact < 0 || t_contact > len {
                SCALE as int
            } else {
                clamp_param(tdiv(t_contact * SCALE, len))
            }
        }
    }
}

/// The parameter interval in which the ray is inside one slab, or `None`
/// when it runs parallel outside it.
pub open spec fn slab_interval(s: int, d: int, lo: int, hi: int) -> Option<(int, int)> {
    if d == 0 {
        if lo < s < hi {
            Some((-0x2000_0000_0000_0000, 0x2000_0000_0000_0000))
        } else {
            None
        }
    } else {
        let t1 = tdiv_s((lo - s) * SCALE, d);
        let t2 = tdiv_s((hi - s) * SCALE, d);
        if t1 <= t2 {
            Some((t1, t2))
        } else {
            Some((t2, t1))
        }
    }
}

pub open spec fn max3(a: int, b: int, c: int) -> int {
    if a >= b && a >= c {
        a
    } else if b >= c {
        b
    } else {
        c
    }
}

pub open spec fn min3(a: int, b: int, c: int) -> int {
    if a <= b && a <= c {
        a
    } else if b <= c {
        b
    } else {
        c
    }
}

pub fn slab_interval_exec(s: i64, d: i64, lo: i64, hi: i64) -> (r: Option<(i64, i64)>)
    requires
        -2 * MAX_COORD <= s <= 2 * MAX_COORD,
        -2 * SCALE <= d <= 2 * SCALE,
        -4 * MAX_COORD <= lo <= 4 * MAX_COORD,
        -4 * MAX_COORD <= hi <= 4 * MAX_COORD,
    ensures
        match r {
            Some(p) => slab_interval(s as int, d as int, lo as int, hi as int) == Some(
                (p.0 as int, p.1 as int),
            ),
            None => slab_interval(s as int, d as int, lo as int, hi as int) is None,
        },
        r is Some ==> -0x2000_0000_0000_0000 <= (r->0).0 <= (r->0).1 <= 0x2000_0000_0000_0000,
{
    if d == 0 {
        if lo < s && s < hi {
            Some((-0x2000_0000_0000_0000, 0x2000_0000_0000_0000))
        } else {
            None
        }
    } else {
        let t1 = div_any((lo - s) * SCALE, d);
        let t2 = div_any((hi - s) * SCALE, d);
        if t1 <= t2 {
            Some((t1, t2))
        } else {
            Some((t2, t1))
        }
    }
}

/// First-contact fraction for a sphere swept along `dir` over `len`
/// milli-units against one collider; `SCALE` when nothing blocks the motion.
pub fn sweep_sphere_vs(
    radius: i64,
    start: Vec3,
    dir: Vec3,
    len: i64,
    other_pos: Vec3,
    kind: &ColliderKind,
) -> (t: i64)
    requires
        0 < radius <= MAX_COORD,
        start@.bounded(2 * MAX_COORD as int),
        dir@.bounded(SCALE as int),
        0 < len <= 8 * MAX_COORD,
        other_pos@.bounded(MAX_COORD as int),
        kind.wf(),
    ensures
        t as int == sweep_sphere_vs_spec(
            radius as int,
            start@,
            dir@,
            len as int,
            other_pos@,
            *kind,
        ),
        0 <= t <= SCALE,
{
    match kind {
        ColliderKind::Plane { normal, offset } => {
            proof {
                lemma_mul_bound(start@.x, 2 * MAX_COORD as int, normal@.x, NORM_LIM as int);
                lemma_mul_bound(start@.y, 2 * MAX_COORD as int, normal@.y, NORM_LIM as int);
                lemma_mul_bound(start@.z, 2 * MAX_COORD as int, normal@.z, NORM_LIM as int);
                lemma_tdiv_le(start@.dot(normal@), SCALE as int, 660_000_000);
                lemma_mul_bound(dir@.x, SCALE as int, normal@.x, NORM_LIM as int);
                lemma_mul_bound(dir@.y, SCALE as int, normal@.y, NORM_LIM as int);
                lemma_mul_bound(dir@.z, SCALE as int, normal@.z, NORM_LIM as int);
                lemma_tdiv_le(dir@.dot(normal@), SCALE as int, 3_300);
            }
            let dist_a = div_fix(start.dot(*normal), SCALE) - offset;
            if dist_a < radius {
                return SCALE;
            }
            let d_dot = div_fix(dir.dot(*normal), SCALE);
            if d_dot >= 0 {
                return SCALE;
            }
            proof {
                lemma_mul_bound(dist_a as int - radius as int, 860_000_000, SCALE as int, SCALE as int);
                lemma_tdiv_bound((dist_a as int - radius as int) * SCALE as int, -(d_dot as int));
            }
            let t_contact = div_fix((dist_a - radius) * SCALE, -d_dot);
            if t_contact > len {
                return SCALE;
            }
            proof {
                lemma_mul_bound(t_contact as int, 860_000_000_000, SCALE as int, SCALE as int);
                clamp_div_by_len(t_contact as int, len as int);
            }
            let q = div_fix(t_contact * SCALE, len);
            clamp_param_exec(q)
        },
        ColliderKind::Sphere { radius: other_r } => {
            sweep_vs_sphere(radius + *other_r, start, dir, len, other_pos)
        },
        ColliderKind::Capsule { radius: other_r, half_height } => {
            sweep_vs_sphere(radius + *other_r + *half_height, start, dir, len, other_pos)
        },
        ColliderKind::Box { half_extents } => {
            let exp = Vec3 {
                x: half_extents.x + radius,
                y: half_extents.y + radius,
                z: half_extents.z + radius,
            };
            let bmin = other_pos.minus(exp);
            let bmax = other_pos.plus(exp);
            if bmin.x < start.x && start.x < bmax.x && bmin.y < start.y && start.y < bmax.y
                && bmin.z < start.z && start.z < bmax.z {
                return SCALE;
            }
            let sx = slab_interval_exec(start.x, dir.x, bmin.x, bmax.x);
            match sx {
                None => SCALE,
                Some(px) => {
                    let sy = slab_interval_exec(start.y, dir.y, bmin.y, bmax.y);
                    match sy {
                        None => SCALE,
                        Some(py) => {
                            let sz = slab_interval_exec(start.z, dir.z, bmin.z, bmax.z);
                            match sz {
                                None => SCALE,
                                Some(pz) => {
                                    let entry = max3_exec(px.0, py.0, pz.0);
                                    let exit = min3_exec(px.1, py.1, pz.1);
                                    if exit < 0 || entry > exit || entry > len {
                                        SCALE
                                    } else {
                                        let e = if entry >= 0 {
                                            entry
                                        } else {
                                            0
                                        };
                                        proof {
                                            lemma_mul_bound(
                                                e as int,
                                                800_000_000,
                                                SCALE as int,
                                                SCALE as int,
                                            );
                                            clamp_div_by_len(e as int, len as int);
                                        }
                                        let q = div_fix(e * SCALE, len);
                                        clamp_param_exec(q)
                                    }
                                },
                            }
                        },
                    }
                },
            }
        },
    }
}

fn sweep_vs_sphere(cr: i64, start: Vec3, dir: Vec3, len: i64, other_pos: Vec3) -> (t: i64)
    requires
        0 < cr <= 3 * MAX_COORD,
        start@.bounded(2 * MAX_COORD as int),
        dir@.bounded(SCALE as int),
        0 < len <= 8 * MAX_COORD,
        other_pos@.bounded(MAX_COORD as int),
    ensures
        t as int == sweep_vs_sphere_spec(cr as int, start@, dir@, len as int, other_pos@),
        0 <= t <= SCALE,
{
    let oc = start.minus(other_pos);
    proof {
        lemma_mul_bound(oc@.x, 3 * MAX_COORD as int, dir@.x, SCALE as int);
        lemma_mul_bound(oc@.y, 3 * MAX_COORD as int, dir@.y, SCALE as int);
        lemma_mul_bound(oc@.z, 3 * MAX_COORD as int, dir@.z, SCALE as int);
        lemma_tdiv_le(oc@.dot(dir@), SCALE as int, 900_000_000);
        lemma_mul_bound(oc@.x, 300_000_000, oc@.x, 300_000_000);
        lemma_mul_bound(oc@.y, 300_000_000, oc@.y, 300_000_000);
        lemma_mul_bound(oc@.z, 300_000_000, oc@.z, 300_000_000);
        lemma_mul_bound(cr as int, 300_000_000, cr as int, 300_000_000);
    }
    let b = 2 * div_fix(oc.dot(dir), SCALE);
    let c = oc.dot(oc) - cr * cr;
    if c < 0 {
        return SCALE;
    }
    proof {
        lemma_mul_bound(b as int, 1_800_000_000, b as int, 1_800_000_000);
    }
    let disc = b * b - 4 * c;
    if disc < 0 {
        return SCALE;
    }
    proof {
        assert(disc < 0x4000_0000_0000_0000i64);
    }
    let sq = isqrt(disc as u64) as i64;
    proof {
        lemma_tdiv_bound(-(b as int) - sq as int, 2);
    }
    let t_contact = div_fix(-b - sq, 2);
    if t_contact < 0 || t_contact > len {
        return SCALE;
    }
    proof {
        lemma_mul_bound(t_contact as int, 800_000_000, SCALE as int, SCALE as int);
        clamp_div_by_len(t_contact as int, len as int);
    }
    let q = div_fix(t_contact * SCALE, len);
    clamp_param_exec(q)
}

/// For `0 <= e <= len`, dividing `e*SCALE` by `len` clamps into `[0, SCALE]`.
proof fn clamp_div_by_len(e: int, len: int)
    requires
        0 <= e <= len,
        0 < len,
    ensures
        0 <= tdiv(e * SCALE, len),
{
    assert(e * SCALE >= 0) by (nonlinear_arith)
        requires e >= 0, SCALE as int > 0;
    lemma_tdiv_bound(e * SCALE, len);
}

fn clamp_param_exec(t: i64) -> (r: i64)
    ensures
        r as int == clamp_param(t as int),
        0 <= r <= SCALE,
{
    if t < 0 {
        0
    } else if t > SCALE {
        SCALE
    } else {
        t
    }
}

pub fn max3_exec(a: i64, b: i64, c: i64) -> (r: i64)
    ensures
        r as int == max3(a as int, b as int, c as int),
{
    if a >= b && a >= c {
        a
    } else if b >= c {
        b
    } else {
        c
    }
}

pub fn min3_exec(a: i64, b: i64, c: i64) -> (r: i64)
    ensures
        r as int == min3(a as int, b as int, c as int),
{
    if a <= b && a <= c {
        a
    } else if b <= c {
        b
    } else {
        c
    }
}

} // verus!

verus! {

/// Minimum sweep fraction against the static colliders among the first `k`
/// bodies, excluding those in `skip`.
pub open spec fn sweep_min_spec(
    s: Seq<Body>,
    skip: Seq<usize>,
    radius: int,
    start: V3,
    dir: V3,
    len: int,
    k: int,
) -> int
    decreases k,
{
    if k <= 0 {
        SCALE as int
    } else {
        let rest = sweep_min_spec(s, skip, radius, start, dir, len, k - 1);
        if s[k - 1].static_body is Some && s[k - 1].collider is Some && !skip.contains(
            (k - 1) as usize,
        ) {
            let t = sweep_sphere_vs_spec(
                radius,
                start,
                dir,
                len,
                s[k - 1].global.position@,
                kind_of(s[k - 1].collider->0),
            );
            if t <= rest {
                t
            } else {
                rest
            }
        } else {
            rest
        }
    }
}

/// The full static sweep: `SCALE` for a zero-length motion, else the minimum
/// fraction over all static geometry along the normalized direction.
pub open spec fn sweep_static_spec(
    s: Seq<Body>,
    skip: Seq<usize>,
    radius: int,
    start: V3,
    delta: V3,
) -> int {
    let len = delta.len();
    if len == 0 {
        SCALE as int
    } else {
        sweep_min_spec(s, skip, radius, start, norm_or_up_spec(delta, len), len, s.len() as int)
    }
}

/// Sweep a sphere of `radius` from `start` along `delta` against all static
/// geometry, excluding the entities in `skip`. Returns the fraction of
/// `delta` (in milli, `SCALE` = the whole motion) safely traversable before
/// first contact.
pub fn sweep_sphere_static(
    w: &World,
    radius: i64,
    start: Vec3,
    delta: Vec3,
    skip: &Vec<usize>,
) -> (t: i64)
    requires
        w.wf(),
        0 < radius <= MAX_COORD,
        start@.bounded(MAX_COORD as int),
        delta@.bounded(4 * MAX_COORD as int),
    ensures
        t as int == sweep_static_spec(w.bodies@, skip@, radius as int, start@, delta@),
        0 <= t <= SCALE,
{
    let len = delta.length();
    if len == 0 {
        return SCALE;
    }
    proof {
        lemma_component_le_len(delta@);
        assert(delta@.norm2() <= 480_000_000_000_000_000) by (nonlinear_arith)
            requires delta@.bounded(400_000_000);
        if len as int >= 800_000_000 {
            assert((len as int) * (len as int) >= 640_000_000_000_000_000) by (nonlinear_arith)
                requires len as int >= 800_000_000;
        }
    }
    let dir = normal_from_diff(delta, len);
    let n = w.len();
    let mut best: i64 = SCALE;
    let mut i: usize = 0;
    while i < n
        invariant
            w.wf(),
            n == w.n(),
            i <= n,
            0 < radius <= MAX_COORD,
            start@.bounded(MAX_COORD as int),
            dir@.bounded(SCALE as int),
            0 < len <= 8 * MAX_COORD,
            best as int == sweep_min_spec(
                w.bodies@,
                skip@,
                radius as int,
                start@,
                dir@,
                len as int,
                i as int,
            ),
            0 <= best <= SCALE,
        decreases n - i,
    {
        let is_static = w.bodies[i].static_body.is_some();
        let in_skip = crate::world::contains_id(skip, i);
        if is_static && !in_skip {
            match &w.bodies[i].collider {
                Some(c) => {
                    let kind = collider_to_kind(c);
                    proof {
                        assert(w.bodies@[i as int].ok(w.n()));
                    }
                    let tt = sweep_sphere_vs(radius, start, dir, len, w.bodies[i].global.position, &kind);
                    if tt < best {
                        best = tt;
                    }
                },
                None => {},
            }
        }
        i = i + 1;
    }
    best
}

/// The per-entity result of an ad-hoc overlap query: the direction to push
/// the test collider to resolve the overlap, and the depth.
pub open spec fn query_hit_spec(test: ColliderEntry, s: Seq<Body>, e: int) -> Option<(V3, int)> {
    if s[e].collider is Some && s[e].held is None {
        match test_pair_spec(test, entry_of(s, e)) {
            Some(c) => Some(
                (
                    if c.a == test.entity as int {
                        c.normal.neg()
                    } else {
                        c.normal
                    },
                    c.pen,
                ),
            ),
            None => None,
        }
    } else {
        None
    }
}

/// The hypothetical entry an overlap query tests: a dangling entity id.
pub open spec fn query_test_entry(c: Collider, pos: Vec3) -> ColliderEntry {
    ColliderEntry {
        entity: usize::MAX,
        position: pos,
        collider_kind: kind_of(c),
        body_owner: None,
    }
}

/// The exact hit tuple the overlap query reports for entity `e`.
pub open spec fn query_hit_tuple(test: ColliderEntry, s: Seq<Body>, e: int) -> (
    Vec3,
    i64,
    usize,
    bool,
) {
    let h = query_hit_spec(test, s, e)->0;
    (vec3_of(h.0), h.1 as i64, e as usize, s[e].static_body is None)
}

/// The exact, entity-ordered hit list of the overlap query over the first
/// `k` bodies.
pub open spec fn query_hits_upto(
    test: ColliderEntry,
    s: Seq<Body>,
    skip: Seq<usize>,
    k: int,
) -> Seq<(Vec3, i64, usize, bool)>
    decreases k,
{
    if k <= 0 {
        Seq::empty()
    } else {
        let rest = query_hits_upto(test, s, skip, k - 1);
        if !skip.contains((k - 1) as usize) && query_hit_spec(test, s, k - 1) is Some {
            rest.push(query_hit_tuple(test, s, k - 1))
        } else {
            rest
        }
    }
}

/// Query overlaps for a hypothetical collider placed at `world_pos`: each
/// returned tuple is (push direction for the test collider, depth, entity,
/// entity is dynamic). Skips held entities and everything in `skip`.
pub fn query_collisions_at(
    w: &World,
    test_collider: &Collider,
    world_pos: Vec3,
    skip: &Vec<usize>,
) -> (hits: Vec<(Vec3, i64, usize, bool)>)
    requires
        w.wf(),
        w.n() < usize::MAX as int,
        test_collider.wf(),
        world_pos@.bounded(MAX_COORD as int),
    ensures
        forall|k: int|
            0 <= k < hits@.len() ==> {
                let h = #[trigger] hits@[k];
                &&& h.2 < w.n()
                &&& !skip@.contains(h.2)
                &&& query_hit_spec(query_test_entry(*test_collider, world_pos), w.bodies@, h.2 as int)
                    is Some
                &&& h.0@ == (query_hit_spec(
                    query_test_entry(*test_collider, world_pos),
                    w.bodies@,
                    h.2 as int,
                )->0).0
                &&& h.1 as int == (query_hit_spec(
                    query_test_entry(*test_collider, world_pos),
                    w.bodies@,
                    h.2 as int,
                )->0).1
                &&& h.3 == (w.bodies@[h.2 as int].static_body is None)
                &&& h.0@.bounded(NORM_LIM as int)
                &&& 0 < h.1 <= 2 * DOT_LIM
            },
        forall|e: int|
            0 <= e < w.n() && !skip@.contains(e as usize) && (#[trigger] query_hit_spec(
                query_test_entry(*test_collider, world_pos),
                w.bodies@,
                e,
            )) is Some ==> exists|k: int| 0 <= k < hits@.len() && (#[trigger] hits@[k]).2 == e,
        hits@ == query_hits_upto(
            query_test_entry(*test_collider, world_pos),
            w.bodies@,
            skip@,
            w.n(),
        ),
{
    let ghost test_g = query_test_entry(*test_collider, world_pos);
    let test_entry = ColliderEntry {
        entity: usize::MAX,
        position: world_pos,
        collider_kind: collider_to_kind(test_collider),
        body_owner: None,
    };
    let n = w.len();
    let mut hits: Vec<(Vec3, i64, usize, bool)> = Vec::new();
    let mut i: usize = 0;
    while i < n
        invariant
            w.wf(),
            n == w.n(),
            n < usize::MAX,
            i <= n,
            test_entry == (ColliderEntry {
                entity: usize::MAX,
                position: world_pos,
                collider_kind: kind_of(*test_collider),
                body_owner: None,
            }),
            test_g == test_entry,
            test_entry.wf(),
            forall|k: int|
                0 <= k < hits@.len() ==> {
                    let h = #[trigger] hits@[k];
                    &&& h.2 < n
                    &&& !skip@.contains(h.2)
                    &&& query_hit_spec(test_g, w.bodies@, h.2 as int) is Some
                    &&& h.0@ == (query_hit_spec(test_g, w.bodies@, h.2 as int)->0).0
                    &&& h.1 as int == (query_hit_spec(test_g, w.bodies@, h.2 as int)->0).1
                    &&& h.3 == (w.bodies@[h.2 as int].static_body is None)
                    &&& h.0@.bounded(NORM_LIM as int)
                    &&& 0 < h.1 <= 2 * DOT_LIM
                },
            forall|e: int|
                0 <= e < i && !skip@.contains(e as usize) && (#[trigger] query_hit_spec(
                    test_g,
                    w.bodies@,
                    e,
                )) is Some ==> exists|k: int| 0 <= k < hits@.len() && (#[trigger] hits@[k]).2 == e,
            hits@ == query_hits_upto(test_g, w.bodies@, skip@, i as int),
        decreases n - i,
    {
        let ghost pre = hits@;
        let in_skip = crate::world::contains_id(skip, i);
        let held = w.bodies[i].held.is_some();
        if !in_skip && !held {
            match &w.bodies[i].collider {
                Some(c) => {
                    proof {
                        assert(w.bodies@[i as int].ok(w.n()));
                        lemma_entries_wf(w.bodies@, w.n());
                    }
                    let position = match w.bodies[i].parent {
                        None => w.bodies[i].local.position,
                        Some(_) => w.bodies[i].global.position,
                    };
                    let other_entry = ColliderEntry {
                        entity: i,
                        position,
                        collider_kind: collider_to_kind(c),
                        body_owner: match &w.bodies[i].owner {
                            Some(o) => Some(o.0),
                            None => None,
                        },
                    };
                    assert(other_entry == entry_of(w.bodies@, i as int));
                    proof {
                        match w.bodies@[i as int].collider->0 {
                            Collider::Capsule { radius, height } => {
                                assert(0 <= height / 2 <= MAX_COORD);
                            },
                            _ => {},
                        }
                    }
                    match test_pair(&test_entry, &other_entry) {
                        Some(ev) => {
                            let push = if ev.entity_a == usize::MAX {
                                ev.contact_normal.neg()
                            } else {
                                ev.contact_normal
                            };
                            let is_dynamic = w.bodies[i].static_body.is_none();
                            proof {
                                lemma_test_pair_entities(test_g, entry_of(w.bodies@, i as int));
                            }
                            hits.push((push, ev.penetration_depth, i, is_dynamic));
                            proof {
                                assert(push == vec3_of(
                                    (query_hit_spec(test_g, w.bodies@, i as int)->0).0,
                                ));
                                assert(hits@[hits@.len() - 1] == query_hit_tuple(
                                    test_g,
                                    w.bodies@,
                                    i as int,
                                ));
                                assert(hits@ =~= query_hits_upto(
                                    test_g,
                                    w.bodies@,
                                    skip@,
                                    i as int + 1,
                                ));
                                assert forall|e: int|
                                    0 <= e < i + 1 && !skip@.contains(e as usize) && (
                                    #[trigger] query_hit_spec(test_g, w.bodies@, e)) is Some
                                    implies exists|k: int|
                                    0 <= k < hits@.len() && (#[trigger] hits@[k]).2 == e by {
                                    if e < i {
                                        let k0 = choose|k0: int|
                                            0 <= k0 < pre.len() && (#[trigger] pre[k0]).2 == e;
                                        assert(hits@[k0] == pre[k0]);
                                    } else {
                                        assert(hits@[hits@.len() - 1].2 == i);
                                    }
                                }
                            }
                        },
                        None => {},
                    }
                },
                None => {},
            }
        }
        i = i + 1;
    }
    hits
}

} // verus!

verus! {

// ---------------------------------------------------------------------------
// Laws of the narrowphase and the solver
// ---------------------------------------------------------------------------

/// Normal canonicalization for the sphere-plane pair: both call orders yield
/// the very same event, with the sphere named first and the normal pointing
/// from the sphere toward the plane.
pub proof fn lemma_sphere_plane_canonical(a: ColliderEntry, b: ColliderEntry)
    requires
        a.collider_kind is Sphere,
        b.collider_kind is Plane,
    ensures
        test_pair_spec(a, b) == test_pair_spec(b, a),
{
}

/// Normal canonicalization for the sphere-sphere pair: swapping the call
/// order swaps the named entities and exactly negates the contact normal,
/// whenever the centers do not coincide.
pub proof fn lemma_sphere_sphere_swap(a: ColliderEntry, b: ColliderEntry)
    requires
        a.collider_kind is Sphere,
        b.collider_kind is Sphere,
        b.position@.minus(a.position@).norm2() > 0,
    ensures
        test_pair_spec(a, b) is Some <==> test_pair_spec(b, a) is Some,
        test_pair_spec(a, b) is Some ==> {
            let c1 = test_pair_spec(a, b)->0;
            let c2 = test_pair_spec(b, a)->0;
            &&& c1.pen == c2.pen
            &&& c1.a == a.entity as int && c1.b == b.entity as int
            &&& c2.a == b.entity as int && c2.b == a.entity as int
            &&& c2.normal == c1.normal.neg()
        },
{
    let d = b.position@.minus(a.position@);
    let dneg = a.position@.minus(b.position@);
    assert(dneg == d.neg());
    assert(d.neg().norm2() == d.norm2()) by (nonlinear_arith);
    let n2 = d.norm2();
    lemma_sqrt_floor_exists(n2);
    let dist = sqrt_floor(n2);
    if dist == 0 {
        assert(n2 < (dist + 1) * (dist + 1));
        assert((dist + 1) * (dist + 1) == 1) by (nonlinear_arith)
            requires dist == 0;
        assert(false);
    }
    assert(d.neg().len() == d.len());
    lemma_norm_or_up_neg(d, dist);
}

/// Rescaling a nonzero integer vector by the fixed-point scale gives a
/// squared norm of at least the scale squared.
pub proof fn lemma_fine_dist2_pos(d: V3)
    requires
        d.norm2() > 0,
    ensures
        (V3 {
            x: d.x * (SCALE as int),
            y: d.y * (SCALE as int),
            z: d.z * (SCALE as int),
        }).norm2() >= (SCALE as int) * (SCALE as int),
        sqrt_floor(
            (V3 {
                x: d.x * (SCALE as int),
                y: d.y * (SCALE as int),
                z: d.z * (SCALE as int),
            }).norm2(),
        ) >= SCALE as int,
{
    let sc = SCALE as int;
    let d2 = V3 { x: d.x * sc, y: d.y * sc, z: d.z * sc };
    assert((d.x * sc) * (d.x * sc) == (d.x * d.x) * (sc * sc)) by (nonlinear_arith);
    assert((d.y * sc) * (d.y * sc) == (d.y * d.y) * (sc * sc)) by (nonlinear_arith);
    assert((d.z * sc) * (d.z * sc) == (d.z * d.z) * (sc * sc)) by (nonlinear_arith);
    assert(d2.norm2() == (d.x * d.x) * (sc * sc) + (d.y * d.y) * (sc * sc) + (d.z * d.z) * (sc
        * sc));
    assert(d2.norm2() == d.norm2() * (sc * sc)) by (nonlinear_arith)
        requires d2.norm2() == (d.x * d.x) * (sc * sc) + (d.y * d.y) * (sc * sc) + (d.z * d.z) * (
        sc * sc);
    assert(d.norm2() * (sc * sc) >= sc * sc) by (nonlinear_arith)
        requires d.norm2() >= 1;
    crate::math::lemma_sqrt_floor_exists(d2.norm2());
    let r = sqrt_floor(d2.norm2());
    if r < sc {
        assert((r + 1) * (r + 1) <= sc * sc) by (nonlinear_arith)
            requires 0 <= r + 1, r + 1 <= sc;
        assert(false);
    }
}

/// Normalization is odd: negating the difference negates the normal, exactly,
/// whenever the difference is nonzero.
pub proof fn lemma_norm_or_up_neg(d: V3, dist: int)
    requires
        dist > 0,
        d.norm2() > 0,
    ensures
        norm_or_up_spec(d.neg(), dist) == norm_or_up_spec(d, dist).neg(),
{
    let sc = SCALE as int;
    if dist >= sc {
        crate::math::lemma_tdiv_neg(d.x * sc, dist);
        crate::math::lemma_tdiv_neg(d.y * sc, dist);
        crate::math::lemma_tdiv_neg(d.z * sc, dist);
        assert(d.neg().x * sc == -(d.x * sc)) by (nonlinear_arith);
        assert(d.neg().y * sc == -(d.y * sc)) by (nonlinear_arith);
        assert(d.neg().z * sc == -(d.z * sc)) by (nonlinear_arith);
    } else {
        let d2 = V3 { x: d.x * sc, y: d.y * sc, z: d.z * sc };
        let e2 = V3 { x: d.neg().x * sc, y: d.neg().y * sc, z: d.neg().z * sc };
        assert(e2.x == -d2.x) by (nonlinear_arith)
            requires e2.x == (-d.x) * sc, d2.x == d.x * sc;
        assert(e2.y == -d2.y) by (nonlinear_arith)
            requires e2.y == (-d.y) * sc, d2.y == d.y * sc;
        assert(e2.z == -d2.z) by (nonlinear_arith)
            requires e2.z == (-d.z) * sc, d2.z == d.z * sc;
        assert(e2.norm2() == d2.norm2()) by (nonlinear_arith)
            requires e2.x == -d2.x, e2.y == -d2.y, e2.z == -d2.z;
        lemma_fine_dist2_pos(d);
        assert(d.neg().norm2() == d.norm2()) by (nonlinear_arith);
        lemma_fine_dist2_pos(d.neg());
        let dist2 = sqrt_floor(d2.norm2());
        assert(dist2 >= sc);
        crate::math::lemma_tdiv_neg(d2.x * sc, dist2);
        crate::math::lemma_tdiv_neg(d2.y * sc, dist2);
        crate::math::lemma_tdiv_neg(d2.z * sc, dist2);
        assert(e2.x * sc == -(d2.x * sc)) by (nonlinear_arith)
            requires e2.x == -d2.x;
        assert(e2.y * sc == -(d2.y * sc)) by (nonlinear_arith)
            requires e2.y == -d2.y;
        assert(e2.z * sc == -(d2.z * sc)) by (nonlinear_arith)
            requires e2.z == -d2.z;
    }
}

/// Normal canonicalization for the box-box pair: swapping the call order
/// swaps the named entities and exactly negates the contact normal, whenever
/// the centers differ on every axis.
pub proof fn lemma_box_box_swap(a: ColliderEntry, b: ColliderEntry)
    requires
        a.collider_kind is Box,
        b.collider_kind is Box,
        b.position@.x != a.position@.x,
        b.position@.y != a.position@.y,
        b.position@.z != a.position@.z,
    ensures
        test_pair_spec(a, b) is Some <==> test_pair_spec(b, a) is Some,
        test_pair_spec(a, b) is Some ==> {
            let c1 = test_pair_spec(a, b)->0;
            let c2 = test_pair_spec(b, a)->0;
            &&& c1.pen == c2.pen
            &&& c1.a == a.entity as int && c1.b == b.entity as int
            &&& c2.a == b.entity as int && c2.b == a.entity as int
            &&& c2.normal == c1.normal.neg()
        },
{
}

/// Penetration monotonicity for overlapping spheres: a configuration at a
/// larger center distance reports no deeper a penetration, and the report
/// vanishes exactly once the distance reaches the summed radii.
pub proof fn lemma_sphere_penetration_monotone(
    ae: int,
    pa: V3,
    r1: int,
    be: int,
    pb1: V3,
    pb2: V3,
    r2: int,
)
    requires
        pb1.minus(pa).norm2() <= pb2.minus(pa).norm2(),
        pb1.minus(pa).norm2() >= 0,
    ensures
        sphere_sphere_spec(ae, pa, r1, be, pb2, r2) is Some ==> sphere_sphere_spec(
            ae,
            pa,
            r1,
            be,
            pb1,
            r2,
        ) is Some && sphere_sphere_spec(ae, pa, r1, be, pb2, r2)->0.pen <= sphere_sphere_spec(
            ae,
            pa,
            r1,
            be,
            pb1,
            r2,
        )->0.pen,
        sphere_sphere_spec(ae, pa, r1, be, pb1, r2) is None <==> pb1.minus(pa).len() >= r1 + r2,
{
    lemma_sqrt_floor_monotone(pb1.minus(pa).norm2(), pb2.minus(pa).norm2());
}

/// Self-collision exemption: no emitted event ever pairs two entities that
/// carry the same self-collision owner.
pub proof fn lemma_self_collision_exempt(s: Seq<Body>, events: Seq<CollisionEvent>, k: int)
    requires
        wf_seq(s),
        s.len() <= usize::MAX as int,
        sound_events(entries_of(s, s.len() as int), events),
        0 <= k < events.len(),
    ensures
        !(s[events[k].entity_a as int].owner is Some && s[events[k].entity_b as int].owner is Some
            && s[events[k].entity_a as int].owner == s[events[k].entity_b as int].owner),
{
    let entries = entries_of(s, s.len() as int);
    let (p, q) = choose|p: int, q: int|
        0 <= p < q < entries.len() && owners_differ(entries[p], entries[q]) && (
        #[trigger] test_pair_spec(entries[p], entries[q])) is Some && event_matches(
            events[k],
            test_pair_spec(entries[p], entries[q])->0,
        );
    lemma_test_pair_entities(entries[p], entries[q]);
    lemma_entries_of_map(s, s.len() as int);
    assert(entries[p] == entry_of(s, entries[p].entity as int));
    assert(entries[q] == entry_of(s, entries[q].entity as int));
}

/// Every broadphase entry is the snapshot of the body it names.
pub proof fn lemma_entries_of_map(s: Seq<Body>, k: int)
    requires
        0 <= k <= s.len(),
        s.len() <= usize::MAX as int,
    ensures
        forall|i: int|
            0 <= i < entries_of(s, k).len() ==> (#[trigger] entries_of(s, k)[i]).entity < k
                && entries_of(s, k)[i] == entry_of(s, entries_of(s, k)[i].entity as int),
    decreases k,
{
    if k > 0 {
        lemma_entries_of_map(s, k - 1);
        if s[k - 1].collider is Some {
            let es = entries_of(s, k);
            assert(es[es.len() - 1] == entry_of(s, k - 1));
            assert forall|i: int|
                0 <= i < es.len() implies (#[trigger] es[i]).entity < k && es[i] == entry_of(
                s,
                es[i].entity as int,
            ) by {
                if i < es.len() - 1 {
                    assert(es[i] == entries_of(s, k - 1)[i]);
                    assert((entries_of(s, k - 1)[i]).entity < k - 1);
                    assert(entries_of(s, k - 1)[i] == entry_of(
                        s,
                        entries_of(s, k - 1)[i].entity as int,
                    ));
                } else {
                    assert(es[i] == entry_of(s, k - 1));
                    assert(es[i].entity == (k - 1) as usize);
                }
            }
        }
    }
}

/// Rest-threshold no-jitter: resolving a slow approach against an exact axis
/// normal zeroes the normal velocity component outright, and a body already
/// at rest along the normal is left untouched, so repeated ticks cannot
/// oscillate.
pub proof fn lemma_rest_threshold_no_jitter(v: V3, s: int, e: int, mu: int)
    requires
        s == SCALE as int || s == -(SCALE as int),
    ensures
        ({
            let pn = V3 { x: 0, y: s, z: 0 };
            let van = tdiv(v.dot(pn), SCALE as int);
            &&& (van < 0 && -van < REST_VELOCITY_THRESHOLD ==> body_bounce_spec(
                v,
                pn,
                e,
                mu,
            ).y == 0)
            &&& (van == 0 ==> body_bounce_spec(v, pn, e, mu) == v)
        }),
{
    let pn = V3 { x: 0, y: s, z: 0 };
    assert(v.dot(pn) == v.y * s);
    if s == SCALE as int {
        crate::math::lemma_tdiv_cancel(v.y, SCALE as int);
    } else {
        assert(v.y * s == -(v.y * (SCALE as int))) by (nonlinear_arith)
            requires s == -(SCALE as int);
        crate::math::lemma_tdiv_cancel(v.y, SCALE as int);
        crate::math::lemma_tdiv_neg(v.y * (SCALE as int), SCALE as int);
    }
    let van = tdiv(v.dot(pn), SCALE as int);
    if van < 0 && -van < REST_VELOCITY_THRESHOLD {
        let r = bounce_spec(v, pn, e);
        let v1 = r.0;
        assert(van * pn.y == van * s);
        if s == SCALE as int {
            crate::math::lemma_tdiv_cancel(van, SCALE as int);
        } else {
            assert(van * s == -(van * (SCALE as int))) by (nonlinear_arith)
                requires s == -(SCALE as int);
            crate::math::lemma_tdiv_cancel(van, SCALE as int);
            crate::math::lemma_tdiv_neg(van * (SCALE as int), SCALE as int);
        }
        assert(v1.y == 0);
        assert(tdiv(van * pn.x, SCALE as int) == 0) by {
            assert(van * 0 == 0) by (nonlinear_arith);
        }
        assert(tdiv(van * pn.z, SCALE as int) == 0) by {
            assert(van * 0 == 0) by (nonlinear_arith);
        }
        let v1c = clamp_v3(v1, MAX_COORD as int);
        assert(v1c.y == 0);
        let fr = friction_spec(v1c, pn, mu, r.1);
        assert(v1c.dot(pn) == v1c.y * s);
        assert(v1c.y * s == 0) by (nonlinear_arith)
            requires v1c.y == 0;
        let van1 = tdiv(v1c.dot(pn), SCALE as int);
        assert(van1 == 0);
        assert(tdiv(van1 * pn.y, SCALE as int) == 0) by {
            assert(van1 * pn.y == 0) by (nonlinear_arith)
                requires van1 == 0;
        }
        assert(tdiv(van1 * pn.x, SCALE as int) == 0) by {
            assert(van1 * pn.x == 0) by (nonlinear_arith)
                requires van1 == 0;
        }
        assert(tdiv(van1 * pn.z, SCALE as int) == 0) by {
            assert(van1 * pn.z == 0) by (nonlinear_arith)
                requires van1 == 0;
        }
        let t = V3 {
            x: v1c.x - tdiv(van1 * pn.x, SCALE as int),
            y: v1c.y - tdiv(van1 * pn.y, SCALE as int),
            z: v1c.z - tdiv(van1 * pn.z, SCALE as int),
        };
        assert(t.y == 0);
        let speed = t.len();
        assert(t.norm2() >= 0) by (nonlinear_arith);
        lemma_sqrt_floor_exists(t.norm2());
        if speed != 0 {
            assert(speed > 0);
            let dir = norm_or_up_spec(t, speed);
            assert(t.y * (SCALE as int) == 0) by (nonlinear_arith)
                requires t.y == 0;
            assert((t.y * (SCALE as int)) * (SCALE as int) == 0) by (nonlinear_arith)
                requires t.y * (SCALE as int) == 0;
            if speed < SCALE as int {
                if t.norm2() == 0 {
                    crate::math::lemma_sqrt_floor_unique(0, 0);
                    assert(false);
                }
                lemma_fine_dist2_pos(t);
            }
            assert(dir.y == 0);
            let fi0 = tdiv(mu * r.1 * (crate::physics::PHYSICS_DT_US as int), 1_000_000_000);
            let fi = if fi0 <= speed {
                fi0
            } else {
                speed
            };
            assert(tdiv(dir.y * fi, SCALE as int) == 0) by {
                assert(dir.y * fi == 0) by (nonlinear_arith)
                    requires dir.y == 0;
            }
            assert(fr.y == 0);
        } else {
            assert(fr.y == 0);
        }
        assert(body_bounce_spec(v, pn, e, mu).y == clamp_int(fr.y, MAX_COORD as int));
    }
}

/// A clear path sweeps the full motion: with no static obstacle among the
/// bodies outside the skip list, the static sweep returns exactly `SCALE`.
pub proof fn lemma_sweep_clear(
    s: Seq<Body>,
    skip: Seq<usize>,
    radius: int,
    start: V3,
    dir: V3,
    len: int,
    k: int,
)
    requires
        0 <= k <= s.len(),
        forall|e: int|
            0 <= e < k ==> !((#[trigger] s[e]).static_body is Some && s[e].collider is Some
                && !skip.contains(e as usize)),
    ensures
        sweep_min_spec(s, skip, radius, start, dir, len, k) == SCALE as int,
    decreases k,
{
    if k > 0 {
        lemma_sweep_clear(s, skip, radius, start, dir, len, k - 1);
    }
}

/// A blocked obstacle caps the sweep: the static sweep never exceeds the
/// per-obstacle fraction of any static collider outside the skip list.
pub proof fn lemma_sweep_blocked(
    s: Seq<Body>,
    skip: Seq<usize>,
    radius: int,
    start: V3,
    dir: V3,
    len: int,
    k: int,
    e: int,
)
    requires
        0 <= e < k <= s.len(),
        s[e].static_body is Some,
        s[e].collider is Some,
        !skip.contains(e as usize),
    ensures
        sweep_min_spec(s, skip, radius, start, dir, len, k) <= sweep_sphere_vs_spec(
            radius,
            start,
            dir,
            len,
            s[e].global.position@,
            kind_of(s[e].collider->0),
        ),
    decreases k,
{
    if e < k - 1 {
        lemma_sweep_blocked(s, skip, radius, start, dir, len, k - 1, e);
    }
}

} // verus!

verus! {

/// Ring identity behind the normalization error bound: from `a == q*b + r`,
/// the square of `q*b` decomposes against `a` and the remainder.
proof fn lemma_sq_decomp(a: int, b: int, q: int, r: int)
    requires
        a == q * b + r,
    ensures
        (q * q) * (b * b) == a * a - 2 * (a * r) + r * r,
{
    assert((q * b) * (q * b) == (a - r) * (a - r)) by (nonlinear_arith)
        requires a == q * b + r;
    assert((a - r) * (a - r) == a * a - 2 * (a * r) + r * r) by (nonlinear_arith);
    assert((q * b) * (q * b) == (q * q) * (b * b)) by (nonlinear_arith);
}

/// Core arithmetic of fixed-point normalization: dividing a vector, scaled by
/// `SCALE`, by the floor of its own length lands within a fraction of a
/// percent of unit length, whenever that length is at least `SCALE`.
proof fn lemma_unit_quotient(v: V3, m: int)
    requires
        m >= SCALE as int,
        is_sqrt_floor(v.norm2(), m),
    ensures
        ({
            let n = V3 {
                x: tdiv(v.x * (SCALE as int), m),
                y: tdiv(v.y * (SCALE as int), m),
                z: tdiv(v.z * (SCALE as int), m),
            };
            994_000 <= n.norm2() <= 1_008_003
        }),
{
    let sc = SCALE as int;
    crate::math::lemma_sqrt_floor_unique(v.norm2(), m);
    crate::math::lemma_component_le_len(v);
    assert(v.len() == m);
    let nx = tdiv(v.x * sc, m);
    let ny = tdiv(v.y * sc, m);
    let nz = tdiv(v.z * sc, m);
    crate::math::lemma_tdiv_decomposition(v.x * sc, m);
    crate::math::lemma_tdiv_decomposition(v.y * sc, m);
    crate::math::lemma_tdiv_decomposition(v.z * sc, m);
    let rx = choose|r: int| v.x * sc == #[trigger] (tdiv(v.x * sc, m) * m + r) && -m < r && r < m;
    let ry = choose|r: int| v.y * sc == #[trigger] (tdiv(v.y * sc, m) * m + r) && -m < r && r < m;
    let rz = choose|r: int| v.z * sc == #[trigger] (tdiv(v.z * sc, m) * m + r) && -m < r && r < m;
    let qq = nx * nx + ny * ny + nz * nz;
    // Per component, (n_i*m)^2 expands to v_i^2*sc^2 - 2*sc*v_i*r_i + r_i^2.
    let ax = v.x * sc;
    let ay = v.y * sc;
    let az = v.z * sc;
    lemma_sq_decomp(ax, m, nx, rx);
    lemma_sq_decomp(ay, m, ny, ry);
    lemma_sq_decomp(az, m, nz, rz);
    assert(ax * ax == (v.x * v.x) * (sc * sc)) by (nonlinear_arith)
        requires ax == v.x * sc;
    assert(ay * ay == (v.y * v.y) * (sc * sc)) by (nonlinear_arith)
        requires ay == v.y * sc;
    assert(az * az == (v.z * v.z) * (sc * sc)) by (nonlinear_arith)
        requires az == v.z * sc;
    assert(ax * rx == sc * (v.x * rx)) by (nonlinear_arith)
        requires ax == v.x * sc;
    assert(ay * ry == sc * (v.y * ry)) by (nonlinear_arith)
        requires ay == v.y * sc;
    assert(az * rz == sc * (v.z * rz)) by (nonlinear_arith)
        requires az == v.z * sc;
    assert(qq * (m * m) == (nx * nx) * (m * m) + (ny * ny) * (m * m) + (nz * nz) * (m * m))
        by (nonlinear_arith)
        requires qq == nx * nx + ny * ny + nz * nz;
    assert(v.norm2() * (sc * sc) == (v.x * v.x) * (sc * sc) + (v.y * v.y) * (sc * sc) + (v.z * v.z)
        * (sc * sc)) by (nonlinear_arith);
    assert(2 * (sc * (v.x * rx)) + 2 * (sc * (v.y * ry)) + 2 * (sc * (v.z * rz)) == 2 * sc * (v.x
        * rx + v.y * ry + v.z * rz)) by (nonlinear_arith);
    assert(qq * (m * m) == (v.norm2()) * (sc * sc) - 2 * sc * (v.x * rx + v.y * ry + v.z * rz) + (
    rx * rx + ry * ry + rz * rz));
    let tt = v.x * rx + v.y * ry + v.z * rz;
    let rr = rx * rx + ry * ry + rz * rz;
    assert(-(3 * (m * m)) <= tt && tt <= 3 * (m * m)) by (nonlinear_arith)
        requires
            tt == v.x * rx + v.y * ry + v.z * rz,
            -m <= v.x <= m,
            -m <= v.y <= m,
            -m <= v.z <= m,
            -m < rx < m,
            -m < ry < m,
            -m < rz < m,
            m > 0;
    assert(0 <= rr && rr <= 3 * (m * m)) by (nonlinear_arith)
        requires
            rr == rx * rx + ry * ry + rz * rz,
            -m < rx < m,
            -m < ry < m,
            -m < rz < m,
            m > 0;
    assert(v.norm2() < (m + 1) * (m + 1));
    assert((m + 1) * (m + 1) == m * m + 2 * m + 1) by (nonlinear_arith);
    assert(m * m <= v.norm2() && v.norm2() <= m * m + 2 * m);
    // Lower bound: qq*m^2 >= (sc^2 - 6*sc)*m^2.
    assert(qq * (m * m) >= (sc * sc - 6 * sc) * (m * m)) by (nonlinear_arith)
        requires
            qq * (m * m) == v.norm2() * (sc * sc) - 2 * sc * tt + rr,
            v.norm2() >= m * m,
            tt <= 3 * (m * m),
            rr >= 0,
            m > 0,
            sc > 0;
    assert(qq >= sc * sc - 6 * sc) by (nonlinear_arith)
        requires qq * (m * m) >= (sc * sc - 6 * sc) * (m * m), m > 0;
    // Upper bound: using m >= sc, the 2*m*sc^2 slack is at most 2*sc*m^2.
    assert(qq * (m * m) <= (sc * sc + 8 * sc + 3) * (m * m)) by (nonlinear_arith)
        requires
            qq * (m * m) == v.norm2() * (sc * sc) - 2 * sc * tt + rr,
            v.norm2() <= m * m + 2 * m,
            -(3 * (m * m)) <= tt,
            rr <= 3 * (m * m),
            m >= sc,
            sc > 0;
    assert(qq <= sc * sc + 8 * sc + 3) by (nonlinear_arith)
        requires qq * (m * m) <= (sc * sc + 8 * sc + 3) * (m * m), m > 0;
}

/// Every normal the narrowphase fabricates from a difference vector is unit
/// length to within a fraction of a percent: its squared fixed-point norm
/// lies within [994000, 1008003] around `SCALE²` = 1000000 — for any
/// separation, sub-unit ones included; the coincident-center fallback `up`
/// is exactly unit.
pub proof fn lemma_normal_near_unit(d: V3, dist: int)
    requires
        dist == d.len(),
        d.norm2() >= 0,
    ensures
        994_000 <= norm_or_up_spec(d, dist).norm2() <= 1_008_003,
{
    let sc = SCALE as int;
    crate::math::lemma_sqrt_floor_exists(d.norm2());
    if dist <= 0 {
        assert(up_v().norm2() == sc * sc) by (nonlinear_arith)
            requires up_v().x == 0 && up_v().y == sc && up_v().z == 0;
    } else if dist >= sc {
        lemma_unit_quotient(d, dist);
    } else {
        assert(d.norm2() >= dist * dist);
        assert(d.norm2() >= 1) by (nonlinear_arith)
            requires d.norm2() >= dist * dist, dist >= 1;
        lemma_fine_dist2_pos(d);
        let d2 = V3 { x: d.x * sc, y: d.y * sc, z: d.z * sc };
        crate::math::lemma_sqrt_floor_exists(d2.norm2());
        lemma_unit_quotient(d2, sqrt_floor(d2.norm2()));
    }
}

/// Normal canonicalization for the capsule-plane pair: both call orders
/// yield the very same event, capsule named first.
pub proof fn lemma_capsule_plane_canonical(a: ColliderEntry, b: ColliderEntry)
    requires
        a.collider_kind is Capsule,
        b.collider_kind is Plane,
    ensures
        test_pair_spec(a, b) == test_pair_spec(b, a),
{
}

/// The closest point of a capsule entry's central segment to `p`.
pub open spec fn capsule_closest_to(a: ColliderEntry, p: V3) -> V3 {
    match a.collider_kind {
        ColliderKind::Capsule { radius, half_height } => {
            let top = V3 { x: a.position@.x, y: a.position@.y + half_height, z: a.position@.z };
            let bottom = V3 { x: a.position@.x, y: a.position@.y - half_height, z: a.position@.z };
            seg_closest_spec(bottom, top, p)
        },
        _ => a.position@,
    }
}

/// Normal canonicalization for the capsule-sphere pair: swapping the call
/// order swaps the named entities and exactly negates the contact normal,
/// whenever the sphere center does not coincide with the capsule's closest
/// segment point.
pub proof fn lemma_capsule_sphere_swap(a: ColliderEntry, b: ColliderEntry)
    requires
        a.collider_kind is Capsule,
        b.collider_kind is Sphere,
        b.position@.minus(capsule_closest_to(a, b.position@)).norm2() > 0,
    ensures
        test_pair_spec(a, b) is Some <==> test_pair_spec(b, a) is Some,
        test_pair_spec(a, b) is Some ==> {
            let c1 = test_pair_spec(a, b)->0;
            let c2 = test_pair_spec(b, a)->0;
            &&& c1.pen == c2.pen
            &&& c1.a == a.entity as int && c1.b == b.entity as int
            &&& c2.a == b.entity as int && c2.b == a.entity as int
            &&& c2.normal == c1.normal.neg()
        },
{
    let closest = capsule_closest_to(a, b.position@);
    let d = b.position@.minus(closest);
    let dneg = closest.minus(b.position@);
    assert(dneg == d.neg());
    assert(d.neg().norm2() == d.norm2()) by (nonlinear_arith);
    crate::math::lemma_sqrt_floor_exists(d.norm2());
    let dist = sqrt_floor(d.norm2());
    if dist == 0 {
        assert(d.norm2() < (dist + 1) * (dist + 1));
        assert((dist + 1) * (dist + 1) == 1) by (nonlinear_arith)
            requires dist == 0;
        assert(false);
    }
    assert(d.neg().len() == d.len());
    lemma_norm_or_up_neg(d, dist);
}

/// Normal canonicalization for the box-sphere pair: both orderings run the
/// same core test, so swapping the call order swaps the named entities and
/// exactly negates the contact normal — including the inside case.
pub proof fn lemma_box_sphere_swap(a: ColliderEntry, b: ColliderEntry)
    requires
        a.collider_kind is Box,
        b.collider_kind is Sphere,
    ensures
        test_pair_spec(a, b) is Some <==> test_pair_spec(b, a) is Some,
        test_pair_spec(a, b) is Some ==> {
            let c1 = test_pair_spec(a, b)->0;
            let c2 = test_pair_spec(b, a)->0;
            &&& c1.pen == c2.pen
            &&& c1.a == a.entity as int && c1.b == b.entity as int
            &&& c2.a == b.entity as int && c2.b == a.entity as int
            &&& c2.normal == c1.normal.neg()
        },
{
}

/// Normal canonicalization for the box-capsule pair: both orderings run the
/// same core test against the capsule's closest segment point, so swapping
/// the call order swaps the named entities and exactly negates the normal.
pub proof fn lemma_box_capsule_swap(a: ColliderEntry, b: ColliderEntry)
    requires
        a.collider_kind is Box,
        b.collider_kind is Capsule,
    ensures
        test_pair_spec(a, b) is Some <==> test_pair_spec(b, a) is Some,
        test_pair_spec(a, b) is Some ==> {
            let c1 = test_pair_spec(a, b)->0;
            let c2 = test_pair_spec(b, a)->0;
            &&& c1.pen == c2.pen
            &&& c1.a == a.entity as int && c1.b == b.entity as int
            &&& c2.a == b.entity as int && c2.b == a.entity as int
            &&& c2.normal == c1.normal.neg()
        },
{
}

} // verus!

verus! {

/// Unit-length invariant at the event level: the normal of every
/// sphere-sphere contact is unit length to within a fraction of a percent
/// (the coincident-center fallback is exactly unit).
pub proof fn lemma_sphere_event_normal_near_unit(a: ColliderEntry, b: ColliderEntry)
    requires
        a.collider_kind is Sphere,
        b.collider_kind is Sphere,
        test_pair_spec(a, b) is Some,
    ensures
        994_000 <= test_pair_spec(a, b)->0.normal.norm2() <= 1_008_003,
{
    let d = b.position@.minus(a.position@);
    assert(d.norm2() >= 0) by (nonlinear_arith);
    lemma_normal_near_unit(d, d.len());
}

} // verus!
