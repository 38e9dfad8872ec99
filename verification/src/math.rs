//! Fixed-point scalar and vector math for the simulation core.
//!
//! All spatial quantities (positions, velocities, radii, plane offsets) are
//! carried as `i64` milli-units: one world unit is `SCALE` = 1000. Unit-length
//! directions (contact normals, view directions) are carried at the same
//! scale, so an exact axis normal has one component equal to `±SCALE`.
//!
//! Spec-level reasoning uses the unbounded mirror type [`V3`] with `int`
//! fields; every executable operation states its result exactly over that
//! mirror.

use vstd::prelude::*;
use vstd::arithmetic::div_mod::lemma_fundamental_div_mod;
use vstd::arithmetic::div_mod::lemma_mod_bound;

verus! {

/// Fixed-point scale: one world unit in milli-units.
pub const SCALE: i64 = 1000;

/// Largest coordinate magnitude the simulation admits (100 000 world units).
/// Keeping every coordinate within this range makes all products and sums in
/// the collision math fit in `i64`.
pub const MAX_COORD: i64 = 100_000_000;

/// Bound under which dot products of two vectors are overflow-free.
pub const DOT_LIM: i64 = 1_000_000_000;

/// Magnitude bound on the components of a near-unit contact normal.
pub const NORM_LIM: i64 = 1_100;

/// Truncating division (rounds toward zero), the semantics of Rust's `/` on
/// signed integers. Meaningful for `b > 0`.
pub open spec fn tdiv(a: int, b: int) -> int
    recommends
        b > 0,
{
    if a >= 0 {
        a / b
    } else {
        -((-a) / b)
    }
}

/// `r` is the floor of the square root of `n`.
pub open spec fn is_sqrt_floor(n: int, r: int) -> bool {
    0 <= r && r * r <= n && n < (r + 1) * (r + 1)
}

/// The floor of the square root of a non-negative integer.
pub open spec fn sqrt_floor(n: int) -> int {
    choose|r: int| is_sqrt_floor(n, r)
}

/// Every non-negative integer has a square-root floor.
pub proof fn lemma_sqrt_floor_exists(n: int)
    requires
        n >= 0,
    ensures
        is_sqrt_floor(n, sqrt_floor(n)),
    decreases n,
{
    if n == 0 {
        assert(is_sqrt_floor(0, 0));
        let r = choose|r: int| is_sqrt_floor(0, r);
        assert(is_sqrt_floor(n, sqrt_floor(n)));
    } else {
        lemma_sqrt_floor_exists(n - 1);
        let r = sqrt_floor(n - 1);
        if (r + 1) * (r + 1) <= n {
            assert(n <= (r + 1) * (r + 1)) by {
                assert(n - 1 < (r + 1) * (r + 1));
            }
            assert(is_sqrt_floor(n, r + 1)) by {
                assert((r + 2) * (r + 2) > (r + 1) * (r + 1)) by (nonlinear_arith)
                    requires r >= 0;
            }
        } else {
            assert(is_sqrt_floor(n, r));
        }
        assert(is_sqrt_floor(n, sqrt_floor(n)));
    }
}

/// The square-root floor is unique, so any witness equals `sqrt_floor`.
pub proof fn lemma_sqrt_floor_unique(n: int, r: int)
    requires
        is_sqrt_floor(n, r),
    ensures
        sqrt_floor(n) == r,
{
    lemma_sqrt_floor_exists(n);
    let r2 = sqrt_floor(n);
    if r < r2 {
        assert((r + 1) * (r + 1) <= r2 * r2) by (nonlinear_arith)
            requires 0 <= r + 1, r + 1 <= r2;
        assert(false);
    }
    if r2 < r {
        assert((r2 + 1) * (r2 + 1) <= r * r) by (nonlinear_arith)
            requires 0 <= r2 + 1, r2 + 1 <= r;
        assert(false);
    }
}

/// Square roots do not decrease when their argument grows.
pub proof fn lemma_sqrt_floor_monotone(a: int, b: int)
    requires
        0 <= a,
        a <= b,
    ensures
        sqrt_floor(a) <= sqrt_floor(b),
{
    lemma_sqrt_floor_exists(a);
    lemma_sqrt_floor_exists(b);
    let ra = sqrt_floor(a);
    let rb = sqrt_floor(b);
    if rb < ra {
        assert((rb + 1) * (rb + 1) <= ra * ra) by (nonlinear_arith)
            requires 0 <= rb + 1, rb + 1 <= ra;
        assert(false);
    }
}

/// Floor of the square root, by binary search on the answer.
pub fn isqrt(n: u64) -> (r: u64)
    requires
        n < 0x4000_0000_0000_0000u64,
    ensures
        is_sqrt_floor(n as int, r as int),
        r == sqrt_floor(n as int),
        r <= 0x8000_0000u64,
{
    let mut lo: u64 = 0;
    let mut hi: u64 = 0x8000_0000u64;
    assert(0x8000_0000u64 as int * 0x8000_0000u64 as int == 0x4000_0000_0000_0000u64 as int)
        by (nonlinear_arith);
    while hi - lo > 1
        invariant
            lo < hi,
            hi <= 0x8000_0000u64,
            n < 0x4000_0000_0000_0000u64,
            (lo as int) * (lo as int) <= n as int,
            (n as int) < (hi as int) * (hi as int),
        decreases hi - lo,
    {
        let mid: u64 = lo + (hi - lo) / 2;
        assert((mid as int) * (mid as int) <= 0x4000_0000_0000_0000) by (nonlinear_arith)
            requires mid <= 0x8000_0000u64;
        if mid * mid <= n {
            lo = mid;
        } else {
            hi = mid;
        }
    }
    assert(hi == lo + 1);
    proof {
        lemma_sqrt_floor_unique(n as int, lo as int);
    }
    lo
}

/// Truncating division of milli-unit quantities by a positive divisor.
pub fn div_fix(a: i64, b: i64) -> (q: i64)
    requires
        b > 0,
    ensures
        q == tdiv(a as int, b as int),
        a >= 0 ==> 0 <= q <= a,
        a < 0 ==> a <= q <= 0,
{
    proof {
        lemma_tdiv_bound(a as int, b as int);
    }
    a / b
}

/// `tdiv` never grows in magnitude.
pub proof fn lemma_tdiv_bound(a: int, b: int)
    requires
        b > 0,
    ensures
        a >= 0 ==> 0 <= tdiv(a, b) && tdiv(a, b) <= a,
        a < 0 ==> a <= tdiv(a, b) && tdiv(a, b) <= 0,
{
    if a >= 0 {
        assert(0 <= a / b && a / b <= a) by (nonlinear_arith)
            requires a >= 0, b >= 1;
    } else {
        assert(0 <= (-a) / b && (-a) / b <= -a) by (nonlinear_arith)
            requires -a >= 0, b >= 1;
    }
}

/// Exact characterization of `tdiv` by its remainder.
pub proof fn lemma_tdiv_decomposition(a: int, b: int)
    requires
        b > 0,
    ensures
        exists|rem: int| a == #[trigger] (tdiv(a, b) * b + rem) && -b < rem && rem < b,
{
    if a >= 0 {
        lemma_fundamental_div_mod(a, b);
        lemma_mod_bound(a, b);
        let q = a / b;
        assert(a == tdiv(a, b) * b + a % b) by (nonlinear_arith)
            requires a == b * q + a % b, q == tdiv(a, b);
        assert(a == tdiv(a, b) * b + a % b && -b < a % b && a % b < b);
    } else {
        let n = -a;
        lemma_fundamental_div_mod(n, b);
        lemma_mod_bound(n, b);
        let q = n / b;
        let rem = -(n % b);
        assert(a == (-q) * b + rem) by (nonlinear_arith)
            requires n == b * q + (-rem), a == -n;
        assert(a == tdiv(a, b) * b + rem && -b < rem && rem < b);
    }
}

/// Spec mirror of [`Vec3`] with unbounded integer components.
pub struct V3 {
    pub x: int,
    pub y: int,
    pub z: int,
}

impl V3 {
    pub open spec fn plus(self, o: V3) -> V3 {
        V3 { x: self.x + o.x, y: self.y + o.y, z: self.z + o.z }
    }

    pub open spec fn minus(self, o: V3) -> V3 {
        V3 { x: self.x - o.x, y: self.y - o.y, z: self.z - o.z }
    }

    pub open spec fn neg(self) -> V3 {
        V3 { x: -self.x, y: -self.y, z: -self.z }
    }

    pub open spec fn dot(self, o: V3) -> int {
        self.x * o.x + self.y * o.y + self.z * o.z
    }

    pub open spec fn norm2(self) -> int {
        self.dot(self)
    }

    /// Fixed-point length: floor of the Euclidean norm, in milli-units.
    pub open spec fn len(self) -> int {
        sqrt_floor(self.norm2())
    }

    /// All components within `m` in magnitude.
    pub open spec fn bounded(self, m: int) -> bool {
        -m <= self.x <= m && -m <= self.y <= m && -m <= self.z <= m
    }
}

/// A point or direction in world space, in milli-units.
#[derive(Clone, Copy, PartialEq, Eq, Structural, Debug)]
pub struct Vec3 {
    pub x: i64,
    pub y: i64,
    pub z: i64,
}

impl View for Vec3 {
    type V = V3;

    open spec fn view(&self) -> V3 {
        V3 { x: self.x as int, y: self.y as int, z: self.z as int }
    }
}

impl Vec3 {
    pub fn new(x: i64, y: i64, z: i64) -> (r: Vec3)
        ensures
            r@ == (V3 { x: x as int, y: y as int, z: z as int }),
    {
        Vec3 { x, y, z }
    }

    pub fn zero() -> (r: Vec3)
        ensures
            r@ == (V3 { x: 0, y: 0, z: 0 }),
    {
        Vec3 { x: 0, y: 0, z: 0 }
    }

    /// The unit `+Y` direction at fixed-point scale.
    pub fn unit_y() -> (r: Vec3)
        ensures
            r@ == (V3 { x: 0, y: SCALE as int, z: 0 }),
    {
        Vec3 { x: 0, y: SCALE, z: 0 }
    }

    pub fn plus(self, o: Vec3) -> (r: Vec3)
        requires
            self@.bounded(0x3fff_ffff_ffff_ffff),
            o@.bounded(0x3fff_ffff_ffff_ffff),
        ensures
            r@ == self@.plus(o@),
    {
        Vec3 { x: self.x + o.x, y: self.y + o.y, z: self.z + o.z }
    }

    pub fn minus(self, o: Vec3) -> (r: Vec3)
        requires
            self@.bounded(0x3fff_ffff_ffff_ffff),
            o@.bounded(0x3fff_ffff_ffff_ffff),
        ensures
            r@ == self@.minus(o@),
    {
        Vec3 { x: self.x - o.x, y: self.y - o.y, z: self.z - o.z }
    }

    pub fn neg(self) -> (r: Vec3)
        requires
            self@.bounded(0x7fff_ffff_ffff_fffe),
        ensures
            r@ == self@.neg(),
    {
        Vec3 { x: -self.x, y: -self.y, z: -self.z }
    }

    /// Component-wise scaling by a raw integer factor (no rescaling).
    pub fn scaled(self, k: i64) -> (r: Vec3)
        requires
            self@.bounded(DOT_LIM as int * 4),
            -(DOT_LIM as int) <= k as int <= DOT_LIM as int,
        ensures
            r@ == (V3 { x: self@.x * k, y: self@.y * k, z: self@.z * k }),
    {
        proof {
            lemma_mul_bound(self@.x, 4 * DOT_LIM as int, k as int, DOT_LIM as int);
            lemma_mul_bound(self@.y, 4 * DOT_LIM as int, k as int, DOT_LIM as int);
            lemma_mul_bound(self@.z, 4 * DOT_LIM as int, k as int, DOT_LIM as int);
        }
        Vec3 { x: self.x * k, y: self.y * k, z: self.z * k }
    }

    /// Scale by a milli-unit factor and renormalize: `r == v * k / SCALE`,
    /// component-wise with truncating division.
    pub fn scaled_fix(self, k: i64) -> (r: Vec3)
        requires
            self@.bounded(DOT_LIM as int * 4),
            -(DOT_LIM as int) <= k as int <= DOT_LIM as int,
        ensures
            r@ == (V3 {
                x: tdiv(self@.x * k, SCALE as int),
                y: tdiv(self@.y * k, SCALE as int),
                z: tdiv(self@.z * k, SCALE as int),
            }),
    {
        let p = self.scaled(k);
        Vec3 {
            x: div_fix(p.x, SCALE),
            y: div_fix(p.y, SCALE),
            z: div_fix(p.z, SCALE),
        }
    }

    pub fn dot(self, o: Vec3) -> (r: i64)
        requires
            self@.bounded(DOT_LIM as int),
            o@.bounded(DOT_LIM as int),
        ensures
            r == self@.dot(o@),
    {
        proof {
            lemma_mul_bound(self@.x, DOT_LIM as int, o@.x, DOT_LIM as int);
            lemma_mul_bound(self@.y, DOT_LIM as int, o@.y, DOT_LIM as int);
            lemma_mul_bound(self@.z, DOT_LIM as int, o@.z, DOT_LIM as int);
        }
        self.x * o.x + self.y * o.y + self.z * o.z
    }

    /// Euclidean length, rounded down to milli-units.
    pub fn length(self) -> (r: i64)
        requires
            self@.bounded(DOT_LIM as int),
        ensures
            r == self@.len(),
            0 <= r <= 2 * DOT_LIM as int,
    {
        let n2 = self.dot(self);
        proof {
            lemma_mul_bound(self@.x, DOT_LIM as int, self@.x, DOT_LIM as int);
            lemma_mul_bound(self@.y, DOT_LIM as int, self@.y, DOT_LIM as int);
            lemma_mul_bound(self@.z, DOT_LIM as int, self@.z, DOT_LIM as int);
            assert(self@.norm2() >= 0) by (nonlinear_arith);
            assert((1u64 << 62) > 3_000_000_000_000_000_000u64) by (bit_vector);
        }
        let r = isqrt(n2 as u64);
        proof {
            let rr = r as int;
            assert(rr * rr <= 4 * (DOT_LIM as int) * (DOT_LIM as int));
            assert(rr <= 2 * DOT_LIM as int) by (nonlinear_arith)
                requires rr >= 0, rr * rr <= 4 * (DOT_LIM as int) * (DOT_LIM as int);
        }
        r as i64
    }

    /// Whether all components lie within `m` in magnitude.
    pub fn is_bounded(self, m: i64) -> (r: bool)
        requires
            m >= 0,
        ensures
            r == self@.bounded(m as int),
    {
        -m <= self.x && self.x <= m && -m <= self.y && self.y <= m && -m <= self.z && self.z <= m
    }

    /// Clamp each component into `[-m, m]`.
    pub fn clamped(self, m: i64) -> (r: Vec3)
        requires
            m >= 0,
        ensures
            r@ == clamp_v3(self@, m as int),
            r@.bounded(m as int),
    {
        Vec3 {
            x: clamp_i64(self.x, m),
            y: clamp_i64(self.y, m),
            z: clamp_i64(self.z, m),
        }
    }
}

/// Absolute value of a fixed-point scalar.
pub fn abs_fix(a: i64) -> (r: i64)
    requires
        a != i64::MIN,
    ensures
        r == abs_int(a as int),
{
    if a >= 0 {
        a
    } else {
        -a
    }
}

/// Clamp a scalar into `[-m, m]`.
pub open spec fn clamp_int(a: int, m: int) -> int {
    if a < -m {
        -m
    } else if a > m {
        m
    } else {
        a
    }
}

/// Component-wise clamp into `[-m, m]`.
pub open spec fn clamp_v3(v: V3, m: int) -> V3 {
    V3 { x: clamp_int(v.x, m), y: clamp_int(v.y, m), z: clamp_int(v.z, m) }
}

pub fn clamp_i64(a: i64, m: i64) -> (r: i64)
    requires
        m >= 0,
    ensures
        r == clamp_int(a as int, m as int),
{
    if a < -m {
        -m
    } else if a > m {
        m
    } else {
        a
    }
}

/// Spec mirror of [`Rot`] with unbounded integer components.
pub struct R2 {
    pub c: int,
    pub s: int,
}

/// A planar rotation as a fixed-point `(cos, sin)` pair at `SCALE`.
///
/// The player's yaw is a rotation in the XZ plane; the camera pitch used by
/// the hold-pose computation is a rotation in the YZ plane. A rotation is
/// *unit* when `c² + s²` is within [`ROT_TOL`] of `SCALE²`; rounding an exact
/// cosine/sine pair to milli-units always lands well inside that band.
///
/// Child-local poses are stored at *fine* scale (multiplied by `SCALE`, and
/// `SCALE²` for rotations) so that attaching and detaching an entity round
/// trips without rounding: see [`Rot::to_local_fine`] / [`Rot::from_local_fine`].
#[derive(Clone, Copy, PartialEq, Eq, Structural, Debug)]
pub struct Rot {
    pub c: i64,
    pub s: i64,
}

/// Magnitude bound on the components of a world-scale rotation.
pub const ROT_LIM: i64 = 2_000;

/// Tolerance on `c² + s² - SCALE²` for a rotation to count as unit.
pub const ROT_TOL: i64 = 5_000;

impl View for Rot {
    type V = R2;

    open spec fn view(&self) -> R2 {
        R2 { c: self.c as int, s: self.s as int }
    }
}

impl R2 {
    /// Components in range for a world-scale rotation.
    pub open spec fn bounded(self) -> bool {
        -ROT_LIM <= self.c <= ROT_LIM && -ROT_LIM <= self.s <= ROT_LIM
    }

    /// `c² + s²` close enough to `SCALE²` to act as a unit rotation.
    pub open spec fn is_unit(self) -> bool {
        (SCALE * SCALE) - ROT_TOL <= self.c * self.c + self.s * self.s
            && self.c * self.c + self.s * self.s <= (SCALE * SCALE) + ROT_TOL
    }
}

/// The identity rotation as a spec value.
pub open spec fn rot_identity() -> R2 {
    R2 { c: SCALE as int, s: 0 }
}

impl Rot {
    /// The identity rotation (angle zero), which is exactly unit.
    pub fn identity() -> (r: Rot)
        ensures
            r@ == rot_identity(),
            r@.is_unit(),
            r@.bounded(),
    {
        Rot { c: SCALE, s: 0 }
    }

    /// The inverse rotation: the conjugate, which is exact.
    pub fn inverse(self) -> (r: Rot)
        requires
            self@.bounded(),
        ensures
            r@ == (R2 { c: self@.c, s: -self@.s }),
    {
        Rot { c: self.c, s: -self.s }
    }

    pub fn is_bounded(self) -> (r: bool)
        ensures
            r == self@.bounded(),
    {
        -ROT_LIM <= self.c && self.c <= ROT_LIM && -ROT_LIM <= self.s && self.s <= ROT_LIM
    }

    /// Rotate `v` in the XZ plane (yaw): the local-to-world direction map.
    pub fn apply_yaw(self, v: Vec3) -> (r: Vec3)
        requires
            self@.bounded(),
            v@.bounded(MAX_COORD as int * 4),
        ensures
            r@ == yaw_apply(self@, v@),
            v@.bounded(4 * MAX_COORD as int) ==> r@.bounded(16 * MAX_COORD as int),
    {
        proof {
            lemma_mul_bound(self@.c, ROT_LIM as int, v@.x, 4 * MAX_COORD as int);
            lemma_mul_bound(self@.s, ROT_LIM as int, v@.z, 4 * MAX_COORD as int);
            lemma_mul_bound(self@.s, ROT_LIM as int, v@.x, 4 * MAX_COORD as int);
            lemma_mul_bound(self@.c, ROT_LIM as int, v@.z, 4 * MAX_COORD as int);
            lemma_tdiv_le(self@.c * v@.x - self@.s * v@.z, SCALE as int, 1_600_000_000);
            lemma_tdiv_le(self@.s * v@.x + self@.c * v@.z, SCALE as int, 1_600_000_000);
        }
        Vec3 {
            x: div_fix(self.c * v.x - self.s * v.z, SCALE),
            y: v.y,
            z: div_fix(self.s * v.x + self.c * v.z, SCALE),
        }
    }

    /// Rotate `v` in the YZ plane (pitch).
    pub fn apply_pitch(self, v: Vec3) -> (r: Vec3)
        requires
            self@.bounded(),
            v@.bounded(MAX_COORD as int * 4),
        ensures
            r@ == pitch_apply(self@, v@),
            v@.bounded(4 * MAX_COORD as int) ==> r@.bounded(16 * MAX_COORD as int),
    {
        proof {
            lemma_mul_bound(self@.c, ROT_LIM as int, v@.y, 4 * MAX_COORD as int);
            lemma_mul_bound(self@.s, ROT_LIM as int, v@.z, 4 * MAX_COORD as int);
            lemma_mul_bound(self@.s, ROT_LIM as int, v@.y, 4 * MAX_COORD as int);
            lemma_mul_bound(self@.c, ROT_LIM as int, v@.z, 4 * MAX_COORD as int);
            lemma_tdiv_le(self@.c * v@.y - self@.s * v@.z, SCALE as int, 1_600_000_000);
            lemma_tdiv_le(self@.s * v@.y + self@.c * v@.z, SCALE as int, 1_600_000_000);
        }
        Vec3 {
            x: v.x,
            y: div_fix(self.c * v.y - self.s * v.z, SCALE),
            z: div_fix(self.s * v.y + self.c * v.z, SCALE),
        }
    }

    /// World offset to child-local position at fine scale (×`SCALE`), applying
    /// the inverse of this yaw without any rounding.
    pub fn to_local_fine(self, w: Vec3) -> (r: Vec3)
        requires
            self@.bounded(),
            w@.bounded(MAX_COORD as int * 4),
        ensures
            r@ == to_local_fine_spec(self@, w@),
            r@.bounded(8 * ROT_LIM as int * MAX_COORD as int),
    {
        proof {
            lemma_mul_bound(self@.c, ROT_LIM as int, w@.x, 4 * MAX_COORD as int);
            lemma_mul_bound(self@.s, ROT_LIM as int, w@.z, 4 * MAX_COORD as int);
            lemma_mul_bound(self@.s, ROT_LIM as int, w@.x, 4 * MAX_COORD as int);
            lemma_mul_bound(self@.c, ROT_LIM as int, w@.z, 4 * MAX_COORD as int);
            lemma_mul_bound(SCALE as int, SCALE as int, w@.y, 4 * MAX_COORD as int);
        }
        Vec3 {
            x: self.c * w.x + self.s * w.z,
            y: SCALE * w.y,
            z: self.c * w.z - self.s * w.x,
        }
    }

    /// Child-local fine position back to a world offset, rotating by this yaw
    /// and dividing out the fine scale last.
    pub fn from_local_fine(self, l: Vec3) -> (r: Vec3)
        requires
            self@.bounded(),
            l@.bounded(8 * ROT_LIM as int * MAX_COORD as int),
        ensures
            r@ == from_local_fine_spec(self@, l@),
    {
        proof {
            let lim = 8 * ROT_LIM as int * MAX_COORD as int;
            lemma_mul_bound(self@.c, ROT_LIM as int, l@.x, lim);
            lemma_mul_bound(self@.s, ROT_LIM as int, l@.z, lim);
            lemma_mul_bound(self@.s, ROT_LIM as int, l@.x, lim);
            lemma_mul_bound(self@.c, ROT_LIM as int, l@.z, lim);
        }
        Vec3 {
            x: div_fix(self.c * l.x - self.s * l.z, SCALE * SCALE),
            y: div_fix(l.y, SCALE),
            z: div_fix(self.s * l.x + self.c * l.z, SCALE * SCALE),
        }
    }

    /// World orientation to child-local orientation at fine scale (×`SCALE²`),
    /// composing with the inverse of this yaw without any rounding.
    pub fn rot_to_local_fine(self, w: Rot) -> (r: Rot)
        requires
            self@.bounded(),
            w@.bounded(),
        ensures
            r@ == rot_to_local_fine_spec(self@, w@),
            -2 * ROT_LIM as int * ROT_LIM as int <= r@.c <= 2 * ROT_LIM as int * ROT_LIM as int,
            -2 * ROT_LIM as int * ROT_LIM as int <= r@.s <= 2 * ROT_LIM as int * ROT_LIM as int,
    {
        proof {
            lemma_mul_bound(self@.c, ROT_LIM as int, w@.c, ROT_LIM as int);
            lemma_mul_bound(self@.s, ROT_LIM as int, w@.s, ROT_LIM as int);
            lemma_mul_bound(self@.c, ROT_LIM as int, w@.s, ROT_LIM as int);
            lemma_mul_bound(self@.s, ROT_LIM as int, w@.c, ROT_LIM as int);
        }
        Rot { c: self.c * w.c + self.s * w.s, s: self.c * w.s - self.s * w.c }
    }

    /// Child-local fine orientation back to world scale, composing with this
    /// yaw and dividing out the fine scale last.
    pub fn rot_from_local_fine(self, l: Rot) -> (r: Rot)
        requires
            self@.bounded(),
            -(FINE_ROT_LIM as int) <= l@.c <= FINE_ROT_LIM as int,
            -(FINE_ROT_LIM as int) <= l@.s <= FINE_ROT_LIM as int,
        ensures
            r@ == rot_from_local_fine_spec(self@, l@),
    {
        proof {
            lemma_mul_bound(self@.c, ROT_LIM as int, l@.c, FINE_ROT_LIM as int);
            lemma_mul_bound(self@.s, ROT_LIM as int, l@.s, FINE_ROT_LIM as int);
            lemma_mul_bound(self@.s, ROT_LIM as int, l@.c, FINE_ROT_LIM as int);
            lemma_mul_bound(self@.c, ROT_LIM as int, l@.s, FINE_ROT_LIM as int);
        }
        Rot {
            c: div_fix(self.c * l.c - self.s * l.s, SCALE * SCALE),
            s: div_fix(self.s * l.c + self.c * l.s, SCALE * SCALE),
        }
    }
}

/// Magnitude bound on the components of a fine-scale (child-local) rotation.
pub const FINE_ROT_LIM: i64 = 8_000_000;

pub open spec fn yaw_apply(q: R2, v: V3) -> V3 {
    V3 {
        x: tdiv(q.c * v.x - q.s * v.z, SCALE as int),
        y: v.y,
        z: tdiv(q.s * v.x + q.c * v.z, SCALE as int),
    }
}

pub open spec fn pitch_apply(q: R2, v: V3) -> V3 {
    V3 {
        x: v.x,
        y: tdiv(q.c * v.y - q.s * v.z, SCALE as int),
        z: tdiv(q.s * v.y + q.c * v.z, SCALE as int),
    }
}

pub open spec fn to_local_fine_spec(q: R2, w: V3) -> V3 {
    V3 {
        x: q.c * w.x + q.s * w.z,
        y: SCALE * w.y,
        z: q.c * w.z - q.s * w.x,
    }
}

pub open spec fn from_local_fine_spec(q: R2, l: V3) -> V3 {
    V3 {
        x: tdiv(q.c * l.x - q.s * l.z, SCALE as int * SCALE as int),
        y: tdiv(l.y, SCALE as int),
        z: tdiv(q.s * l.x + q.c * l.z, SCALE as int * SCALE as int),
    }
}

pub open spec fn rot_to_local_fine_spec(q: R2, w: R2) -> R2 {
    R2 { c: q.c * w.c + q.s * w.s, s: q.c * w.s - q.s * w.c }
}

pub open spec fn rot_from_local_fine_spec(q: R2, l: R2) -> R2 {
    R2 {
        c: tdiv(q.c * l.c - q.s * l.s, SCALE as int * SCALE as int),
        s: tdiv(q.s * l.c + q.c * l.s, SCALE as int * SCALE as int),
    }
}

/// Attaching a world offset under a yaw and detaching it again is exact for a
/// unit rotation: the cross terms cancel before any division happens.
pub proof fn lemma_local_round_trip(q: R2, w: V3)
    requires
        q.is_unit(),
        q.bounded(),
        w.bounded(4 * MAX_COORD as int),
    ensures
        from_local_fine_spec(q, to_local_fine_spec(q, w)).y == w.y,
        q.c * q.c + q.s * q.s == SCALE as int * SCALE as int ==> from_local_fine_spec(
            q,
            to_local_fine_spec(q, w),
        ) == w,
        abs_int(from_local_fine_spec(q, to_local_fine_spec(q, w)).x - w.x) <= round_trip_err(w.x),
        abs_int(from_local_fine_spec(q, to_local_fine_spec(q, w)).z - w.z) <= round_trip_err(w.z),
{
    let s2 = SCALE as int * SCALE as int;
    let l = to_local_fine_spec(q, w);
    let k = q.c * q.c + q.s * q.s;
    assert(q.c * l.x - q.s * l.z == k * w.x) by (nonlinear_arith)
        requires
            l.x == q.c * w.x + q.s * w.z,
            l.z == q.c * w.z - q.s * w.x,
            k == q.c * q.c + q.s * q.s;
    assert(q.s * l.x + q.c * l.z == k * w.z) by (nonlinear_arith)
        requires
            l.x == q.c * w.x + q.s * w.z,
            l.z == q.c * w.z - q.s * w.x,
            k == q.c * q.c + q.s * q.s;
    assert(tdiv(SCALE as int * w.y, SCALE as int) == w.y) by (nonlinear_arith)
        requires SCALE as int > 0;
    lemma_near_unit_div(k, w.x);
    lemma_near_unit_div(k, w.z);
    if k == s2 {
        assert(tdiv(k * w.x, s2) == w.x) by (nonlinear_arith)
            requires k == s2, s2 > 0;
        assert(tdiv(k * w.z, s2) == w.z) by (nonlinear_arith)
            requires k == s2, s2 > 0;
    }
}

/// Absolute value of an integer.
pub open spec fn abs_int(a: int) -> int {
    if a >= 0 {
        a
    } else {
        -a
    }
}

/// Error bound for one coordinate of a near-unit round trip.
pub open spec fn round_trip_err(x: int) -> int {
    (ROT_TOL as int * abs_int(x)) / (SCALE as int * SCALE as int) + 1
}

/// Dividing `k*x` by `SCALE²` lands within `round_trip_err(x)` of `x` when
/// `k` is within `ROT_TOL` of `SCALE²`.
pub proof fn lemma_near_unit_div(k: int, x: int)
    requires
        SCALE as int * SCALE as int - ROT_TOL <= k,
        k <= SCALE as int * SCALE as int + ROT_TOL,
    ensures
        abs_int(tdiv(k * x, SCALE as int * SCALE as int) - x) <= round_trip_err(x),
{
    let s2 = SCALE as int * SCALE as int;
    let d = k - s2;
    assert(k * x == x * s2 + d * x) by (nonlinear_arith)
        requires d == k - s2;
    lemma_tdiv_near_multiple(x, d * x, s2);
    assert(abs_int(tdiv(k * x, s2) - x) <= abs_int(d * x) / s2 + 1);
    assert(abs_int(d * x) <= ROT_TOL as int * abs_int(x)) by (nonlinear_arith)
        requires -(ROT_TOL as int) <= d <= ROT_TOL as int;
    assert((abs_int(d * x)) / s2 <= (ROT_TOL as int * abs_int(x)) / s2) by {
        vstd::arithmetic::div_mod::lemma_div_is_ordered(
            abs_int(d * x),
            ROT_TOL as int * abs_int(x),
            s2,
        );
    }
    assert(abs_int(tdiv(k * x, s2) - x) <= round_trip_err(x));
}

/// `tdiv(a*b + e, b)` is within `|e|/b + 1` of `a`.
pub proof fn lemma_tdiv_near_multiple(a: int, e: int, b: int)
    requires
        b > 0,
    ensures
        abs_int(tdiv(a * b + e, b) - a) <= abs_int(e) / b + 1,
{
    let x = a * b + e;
    lemma_tdiv_decomposition(x, b);
    let rem = choose|rem: int| x == #[trigger] (tdiv(x, b) * b + rem) && -b < rem && rem < b;
    let q = tdiv(x, b);
    assert((q - a) * b == e - rem) by (nonlinear_arith)
        requires x == q * b + rem, x == a * b + e;
    assert(abs_int(q - a) * b <= abs_int(e) + b) by (nonlinear_arith)
        requires (q - a) * b == e - rem, -b < rem < b, b > 0;
    assert(abs_int(q - a) <= abs_int(e) / b + 1) by (nonlinear_arith)
        requires abs_int(q - a) * b <= abs_int(e) + b, b > 0, abs_int(q - a) >= 0, abs_int(e) >= 0;
}

/// For `0 <= a < b*c`, the quotient `a/b` lies in `[0, c)` and agrees with
/// truncating division.
pub proof fn lemma_pos_div_lt(a: int, b: int, c: int)
    requires
        b > 0,
        c > 0,
        0 <= a,
        a < b * c,
    ensures
        0 <= a / b < c,
        tdiv(a, b) == a / b,
{
    lemma_fundamental_div_mod(a, b);
    lemma_mod_bound(a, b);
    vstd::arithmetic::div_mod::lemma_div_pos_is_pos(a, b);
    assert(a / b < c) by (nonlinear_arith)
        requires b > 0, c > 0, a < b * c, a == b * (a / b) + a % b, 0 <= a % b;
}

/// Truncating division by `b` keeps quotients within `c` when `|a| <= c*b`.
pub proof fn lemma_tdiv_le(a: int, b: int, c: int)
    requires
        b > 0,
        c >= 0,
        -(c * b) <= a <= c * b,
    ensures
        -c <= tdiv(a, b) <= c,
{
    if a >= 0 {
        vstd::arithmetic::div_mod::lemma_div_is_ordered(a, c * b, b);
        vstd::arithmetic::div_mod::lemma_div_multiples_vanish(c, b);
        assert(a / b <= (b * c) / b) by {
            assert(c * b == b * c) by (nonlinear_arith);
        }
        lemma_tdiv_bound(a, b);
    } else {
        vstd::arithmetic::div_mod::lemma_div_is_ordered(-a, c * b, b);
        vstd::arithmetic::div_mod::lemma_div_multiples_vanish(c, b);
        assert((-a) / b <= (b * c) / b) by {
            assert(c * b == b * c) by (nonlinear_arith);
        }
        lemma_tdiv_bound(a, b);
    }
}

/// Each component of a vector is bounded by the vector's fixed-point length.
pub proof fn lemma_component_le_len(v: V3)
    ensures
        v.norm2() >= 0,
        is_sqrt_floor(v.norm2(), v.len()),
        -v.len() <= v.x <= v.len(),
        -v.len() <= v.y <= v.len(),
        -v.len() <= v.z <= v.len(),
{
    assert(v.norm2() >= v.x * v.x && v.norm2() >= v.y * v.y && v.norm2() >= v.z * v.z
        && v.norm2() >= 0) by (nonlinear_arith);
    lemma_sqrt_floor_exists(v.norm2());
    let l = v.len();
    lemma_sq_le_implies_le(v.x, l, v.norm2());
    lemma_sq_le_implies_le(v.y, l, v.norm2());
    lemma_sq_le_implies_le(v.z, l, v.norm2());
}

/// If `c² <= n < (l+1)²` then `|c| <= l`.
proof fn lemma_sq_le_implies_le(c: int, l: int, n: int)
    requires
        0 <= l,
        c * c <= n,
        n < (l + 1) * (l + 1),
    ensures
        -l <= c <= l,
{
    if c > l {
        assert((l + 1) * (l + 1) <= c * c) by (nonlinear_arith)
            requires 0 <= l + 1, l + 1 <= c;
    }
    if c < -l {
        assert((l + 1) * (l + 1) <= c * c) by (nonlinear_arith)
            requires 0 <= l + 1, l + 1 <= -c;
    }
}

/// `|a*b| <= ma*mb` when `|a| <= ma` and `|b| <= mb`.
pub proof fn lemma_mul_bound(a: int, ma: int, b: int, mb: int)
    requires
        -ma <= a <= ma,
        -mb <= b <= mb,
    ensures
        -(ma * mb) <= a * b <= ma * mb,
{
    assert(-(ma * mb) <= a * b <= ma * mb) by (nonlinear_arith)
        requires -ma <= a <= ma, -mb <= b <= mb;
}

} // verus!

verus! {

/// Linear interpolation of a scalar by a milli-scaled factor.
pub open spec fn lerp_int(a: int, b: int, alpha: int) -> int {
    a + tdiv((b - a) * alpha, SCALE as int)
}

/// Component-wise linear interpolation by a milli-scaled factor.
pub open spec fn lerp_v3(a: V3, b: V3, alpha: int) -> V3 {
    V3 {
        x: lerp_int(a.x, b.x, alpha),
        y: lerp_int(a.y, b.y, alpha),
        z: lerp_int(a.z, b.z, alpha),
    }
}

/// Interpolate a scalar; the result stays in the hull of its endpoints.
pub fn lerp_fix(a: i64, b: i64, alpha: i64) -> (r: i64)
    requires
        0 <= alpha <= SCALE,
        -0x2000_0000_0000_0000 < a < 0x2000_0000_0000_0000,
        -0x2000_0000_0000_0000 < b < 0x2000_0000_0000_0000,
        -0x1000_0000_0000 < b - a < 0x1000_0000_0000,
    ensures
        r == lerp_int(a as int, b as int, alpha as int),
        a <= b ==> a <= r <= b,
        b < a ==> b <= r <= a,
{
    let d = b - a;
    proof {
        if d >= 0 {
            lemma_mul_bound(d as int, d as int, alpha as int, SCALE as int);
            lemma_tdiv_le(d as int * alpha as int, SCALE as int, d as int);
            assert(d as int * alpha as int >= 0) by (nonlinear_arith)
                requires (d as int) >= 0, (alpha as int) >= 0;
            lemma_tdiv_bound(d as int * alpha as int, SCALE as int);
        } else {
            lemma_mul_bound(d as int, -(d as int), alpha as int, SCALE as int);
            lemma_tdiv_le(d as int * alpha as int, SCALE as int, -(d as int));
            assert(d as int * alpha as int <= 0) by (nonlinear_arith)
                requires (d as int) < 0, (alpha as int) >= 0;
            lemma_tdiv_bound(d as int * alpha as int, SCALE as int);
        }
    }
    a + div_fix(d * alpha, SCALE)
}

} // verus!

verus! {

/// Attaching an orientation under a yaw and detaching it again is exact for
/// an exactly-unit rotation, and `y`-independent cross terms cancel before
/// any division in every case.
pub proof fn lemma_rot_round_trip(q: R2, w: R2)
    requires
        q.bounded(),
        -ROT_LIM <= w.c <= ROT_LIM,
        -ROT_LIM <= w.s <= ROT_LIM,
    ensures
        q.c * q.c + q.s * q.s == SCALE as int * SCALE as int ==> rot_from_local_fine_spec(
            q,
            rot_to_local_fine_spec(q, w),
        ) == w,
{
    let s2 = SCALE as int * SCALE as int;
    let l = rot_to_local_fine_spec(q, w);
    let k = q.c * q.c + q.s * q.s;
    assert(q.c * l.c - q.s * l.s == k * w.c) by (nonlinear_arith)
        requires
            l.c == q.c * w.c + q.s * w.s,
            l.s == q.c * w.s - q.s * w.c,
            k == q.c * q.c + q.s * q.s;
    assert(q.s * l.c + q.c * l.s == k * w.s) by (nonlinear_arith)
        requires
            l.c == q.c * w.c + q.s * w.s,
            l.s == q.c * w.s - q.s * w.c,
            k == q.c * q.c + q.s * q.s;
    if k == s2 {
        assert(tdiv(k * w.c, s2) == w.c) by (nonlinear_arith)
            requires k == s2, s2 > 0;
        assert(tdiv(k * w.s, s2) == w.s) by (nonlinear_arith)
            requires k == s2, s2 > 0;
    }
}

} // verus!

verus! {

/// Multiplying and dividing by the same positive factor is the identity.
pub proof fn lemma_tdiv_cancel(a: int, b: int)
    requires
        b > 0,
    ensures
        tdiv(a * b, b) == a,
{
    if a >= 0 {
        vstd::arithmetic::div_mod::lemma_div_multiples_vanish(a, b);
        assert(a * b == b * a) by (nonlinear_arith);
    } else {
        vstd::arithmetic::div_mod::lemma_div_multiples_vanish(-a, b);
        assert(-(a * b) == b * (-a)) by (nonlinear_arith);
    }
}

/// Truncating division is odd in its dividend.
pub proof fn lemma_tdiv_neg(a: int, b: int)
    requires
        b > 0,
    ensures
        tdiv(-a, b) == -tdiv(a, b),
{
}

} // verus!
