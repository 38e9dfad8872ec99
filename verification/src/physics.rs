//! Fixed-step integration and the render-decoupled accumulator.
//!
//! Frame time arrives in integer microseconds. The accumulator converts it
//! into a whole number of fixed physics ticks plus a fractional remainder;
//! because the arithmetic is exact, the number of ticks run for a given total
//! time is independent of how that time was chunked across frames.

use vstd::prelude::*;
use crate::collision::collision_system;
use crate::collision::events_bounded;
use crate::collision::same_except_motion;
use crate::components::CollisionEvent;
use crate::components::PreviousPosition;
use crate::components::Velocity;
use crate::math::clamp_i64;
use crate::math::clamp_int;
use crate::math::clamp_v3;
use crate::math::div_fix;
use crate::math::lemma_mul_bound;
use crate::math::lemma_tdiv_bound;
use crate::math::tdiv;
use crate::math::Vec3;
use crate::math::V3;
use crate::math::MAX_COORD;
use crate::math::SCALE;
use crate::world::Body;
use crate::world::World;

verus! {

/// One fixed physics step in microseconds (sixty steps per second).
pub const PHYSICS_DT_US: u64 = 16667;

/// Gravitational acceleration along `-Y`, milli-units per second squared.
pub const GRAVITY_Y: i64 = -9_810;

/// Largest frame delta the accumulator accepts, in microseconds.
pub const MAX_FRAME_DT_US: u64 = 1_000_000_000_000;

/// Semi-implicit Euler velocity update for one fixed step: gravity, then
/// acceleration, then drag damping, saturated into the velocity range.
pub open spec fn step_velocity_spec(
    v: V3,
    gravity: bool,
    accel: Option<V3>,
    drag: Option<int>,
) -> V3 {
    let dt = PHYSICS_DT_US as int;
    let v1 = if gravity {
        V3 { x: v.x, y: v.y + tdiv(GRAVITY_Y as int * dt, 1_000_000), z: v.z }
    } else {
        v
    };
    let v2 = match accel {
        Some(a) => V3 {
            x: v1.x + tdiv(a.x * dt, 1_000_000),
            y: v1.y + tdiv(a.y * dt, 1_000_000),
            z: v1.z + tdiv(a.z * dt, 1_000_000),
        },
        None => v1,
    };
    let v3 = match drag {
        Some(d) => {
            let damping = if SCALE as int - tdiv(d * dt, 1_000_000) >= 0 {
                SCALE as int - tdiv(d * dt, 1_000_000)
            } else {
                0
            };
            V3 {
                x: tdiv(v2.x * damping, SCALE as int),
                y: tdiv(v2.y * damping, SCALE as int),
                z: tdiv(v2.z * damping, SCALE as int),
            }
        },
        None => v2,
    };
    clamp_v3(v3, MAX_COORD as int)
}

/// Position update with the post-update velocity, saturated into range.
pub open spec fn step_position_spec(p: V3, v: V3) -> V3 {
    let dt = PHYSICS_DT_US as int;
    clamp_v3(
        V3 {
            x: p.x + tdiv(v.x * dt, 1_000_000),
            y: p.y + tdiv(v.y * dt, 1_000_000),
            z: p.z + tdiv(v.z * dt, 1_000_000),
        },
        MAX_COORD as int,
    )
}

fn step_velocity(v: Vec3, gravity: bool, accel: Option<Vec3>, drag: Option<i64>) -> (r: Vec3)
    requires
        v@.bounded(MAX_COORD as int),
        accel is Some ==> (accel->0)@.bounded(MAX_COORD as int),
        drag is Some ==> 0 <= drag->0 <= 1_000_000,
    ensures
        r@ == step_velocity_spec(
            v@,
            gravity,
            match accel {
                Some(a) => Some(a@),
                None => None,
            },
            match drag {
                Some(d) => Some(d as int),
                None => None,
            },
        ),
        r@.bounded(MAX_COORD as int),
{
    let dt = PHYSICS_DT_US as i64;
    let v1 = if gravity {
        Vec3 { x: v.x, y: v.y + div_fix(GRAVITY_Y * dt, 1_000_000), z: v.z }
    } else {
        v
    };
    let v2 = match accel {
        Some(a) => {
            proof {
                lemma_mul_bound(a@.x, MAX_COORD as int, dt as int, 20_000);
                lemma_mul_bound(a@.y, MAX_COORD as int, dt as int, 20_000);
                lemma_mul_bound(a@.z, MAX_COORD as int, dt as int, 20_000);
                lemma_tdiv_bound(a@.x * dt as int, 1_000_000);
                lemma_tdiv_bound(a@.y * dt as int, 1_000_000);
                lemma_tdiv_bound(a@.z * dt as int, 1_000_000);
            }
            Vec3 {
                x: v1.x + div_fix(a.x * dt, 1_000_000),
                y: v1.y + div_fix(a.y * dt, 1_000_000),
                z: v1.z + div_fix(a.z * dt, 1_000_000),
            }
        },
        None => v1,
    };
    let v3 = match drag {
        Some(d) => {
            proof {
                lemma_mul_bound(d as int, 1_000_000, dt as int, 20_000);
                lemma_tdiv_bound(d as int * dt as int, 1_000_000);
            }
            let slow = div_fix(d * dt, 1_000_000);
            let damping = if SCALE - slow >= 0 {
                SCALE - slow
            } else {
                0
            };
            proof {
                let vb = 3 * MAX_COORD as int;
                lemma_mul_bound(v2@.x, vb, damping as int, SCALE as int);
                lemma_mul_bound(v2@.y, vb, damping as int, SCALE as int);
                lemma_mul_bound(v2@.z, vb, damping as int, SCALE as int);
                lemma_tdiv_bound(v2@.x * damping as int, SCALE as int);
                lemma_tdiv_bound(v2@.y * damping as int, SCALE as int);
                lemma_tdiv_bound(v2@.z * damping as int, SCALE as int);
            }
            Vec3 {
                x: div_fix(v2.x * damping, SCALE),
                y: div_fix(v2.y * damping, SCALE),
                z: div_fix(v2.z * damping, SCALE),
            }
        },
        None => v2,
    };
    v3.clamped(MAX_COORD)
}

/// Everything about a body except its motion state and its previous-position
/// snapshot (which one physics tick may rewrite).
pub open spec fn same_except_physics(a: Body, b: Body) -> bool {
    &&& same_except_motion(
        Body { prev_position: b.prev_position, ..a },
        b,
    )
}

/// Frame condition of a whole physics frame.
pub open spec fn physics_change(s0: Seq<Body>, s1: Seq<Body>) -> bool {
    &&& s1.len() == s0.len()
    &&& forall|k: int|
        0 <= k < s0.len() ==> same_except_physics(s0[k], #[trigger] s1[k]) && (s0[k].held is Some
            ==> s1[k] == s0[k])
}

/// The exact state of one integrated body after a fixed step: previous
/// position snapshotted, velocity stepped, position integrated with the
/// post-update velocity.
pub open spec fn integrated_body_spec(b: Body) -> Body {
    let nv = step_velocity_spec(
        (b.velocity->0).0@,
        b.gravity is Some,
        match b.acceleration {
            Some(a) => Some(a.0@),
            None => None,
        },
        match b.drag {
            Some(d) => Some(d.0 as int),
            None => None,
        },
    );
    Body {
        prev_position: Some(PreviousPosition(b.local.position)),
        velocity: Some(Velocity(crate::collision::vec3_of(nv))),
        local: crate::components::LocalTransform {
            position: crate::collision::vec3_of(step_position_spec(b.local.position@, nv)),
            rotation: b.local.rotation,
        },
        ..b
    }
}

/// The exact world state after the integration pass of one physics tick.
pub open spec fn integrate_spec(s: Seq<Body>) -> Seq<Body> {
    Seq::new(
        s.len(),
        |k: int|
            if is_integrated(s[k]) {
                integrated_body_spec(s[k])
            } else {
                s[k]
            },
    )
}

/// Snapshot previous positions and integrate every unheld root body that
/// carries a velocity: gravity, acceleration, drag, then semi-implicit Euler.
fn integrate_bodies(w: &mut World)
    requires
        old(w).wf(),
    ensures
        final(w).wf(),
        final(w).n() == old(w).n(),
        physics_change(old(w).bodies@, final(w).bodies@),
        forall|k: int|
            0 <= k < old(w).n() && is_integrated(old(w).bodies@[k]) ==> {
                let b0 = old(w).bodies@[k];
                let b1 = final(w).bodies@[k];
                let nv = step_velocity_spec(
                    (b0.velocity->0).0@,
                    b0.gravity is Some,
                    match b0.acceleration {
                        Some(a) => Some(a.0@),
                        None => None,
                    },
                    match b0.drag {
                        Some(d) => Some(d.0 as int),
                        None => None,
                    },
                );
                &&& b1.prev_position == Some(PreviousPosition(b0.local.position))
                &&& b1.velocity is Some
                &&& (b1.velocity->0).0@ == nv
                &&& b1.local.position@ == step_position_spec(b0.local.position@, nv)
            },
        forall|k: int|
            0 <= k < old(w).n() && !is_integrated(old(w).bodies@[k]) ==> final(w).bodies@[k] == old(
                w,
            ).bodies@[k],
        final(w).bodies@ == integrate_spec(old(w).bodies@),
{
    let ghost s0 = w.bodies@;
    let n = w.len();
    let mut i: usize = 0;
    while i < n
        invariant
            w.wf(),
            w.n() == n as int,
            n == s0.len(),
            i <= n,
            forall|k: int| i <= k < n ==> w.bodies@[k] == s0[k],
            forall|k: int|
                0 <= k < i && is_integrated(s0[k]) ==> {
                    let b0 = s0[k];
                    let b1 = w.bodies@[k];
                    let nv = step_velocity_spec(
                        (b0.velocity->0).0@,
                        b0.gravity is Some,
                        match b0.acceleration {
                            Some(a) => Some(a.0@),
                            None => None,
                        },
                        match b0.drag {
                            Some(d) => Some(d.0 as int),
                            None => None,
                        },
                    );
                    &&& b1.prev_position == Some(PreviousPosition(b0.local.position))
                    &&& b1.velocity is Some
                    &&& (b1.velocity->0).0@ == nv
                    &&& b1.local.position@ == step_position_spec(b0.local.position@, nv)
                },
            forall|k: int| 0 <= k < i && !is_integrated(s0[k]) ==> w.bodies@[k] == s0[k],
            forall|k: int| 0 <= k < i ==> w.bodies@[k] == integrate_spec(s0)[k],
            forall|k: int|
                0 <= k < n ==> same_except_physics(s0[k], #[trigger] w.bodies@[k]) && (s0[k].held
                    is Some ==> w.bodies@[k] == s0[k]),
        decreases n - i,
    {
        let ghost pre = w.bodies@;
        let integr = w.bodies[i].velocity.is_some() && w.bodies[i].held.is_none()
            && w.bodies[i].parent.is_none();
        if integr {
            let p = w.bodies[i].local.position;
            w.bodies[i].prev_position = Some(PreviousPosition(p));
            let v = match &w.bodies[i].velocity {
                Some(vv) => vv.0,
                None => Vec3 { x: 0, y: 0, z: 0 },
            };
            let accel = match &w.bodies[i].acceleration {
                Some(a) => Some(a.0),
                None => None,
            };
            let drag = match &w.bodies[i].drag {
                Some(d) => Some(d.0),
                None => None,
            };
            let gravity = w.bodies[i].gravity.is_some();
            let nv = step_velocity(v, gravity, accel, drag);
            w.bodies[i].velocity = Some(Velocity(nv));
            let dt = PHYSICS_DT_US as i64;
            proof {
                lemma_mul_bound(nv@.x, MAX_COORD as int, dt as int, 20_000);
                lemma_mul_bound(nv@.y, MAX_COORD as int, dt as int, 20_000);
                lemma_mul_bound(nv@.z, MAX_COORD as int, dt as int, 20_000);
                lemma_tdiv_bound(nv@.x * dt as int, 1_000_000);
                lemma_tdiv_bound(nv@.y * dt as int, 1_000_000);
                lemma_tdiv_bound(nv@.z * dt as int, 1_000_000);
            }
            let np = Vec3 {
                x: clamp_i64(p.x + div_fix(nv.x * dt, 1_000_000), MAX_COORD),
                y: clamp_i64(p.y + div_fix(nv.y * dt, 1_000_000), MAX_COORD),
                z: clamp_i64(p.z + div_fix(nv.z * dt, 1_000_000), MAX_COORD),
            };
            w.bodies[i].local.position = np;
            proof {
                let s = w.bodies@;
                assert forall|t: int| 0 <= t < s.len() implies (#[trigger] s[t]).ok(
                    s.len() as int,
                ) && (s[t].parent is Some ==> s[s[t].parent->0 as int].parent is None) by {
                    assert(pre[t].ok(pre.len() as int));
                    if s[t].parent is Some {
                        let pp = s[t].parent->0 as int;
                        assert(s[pp].parent == pre[pp].parent);
                    }
                }
            }
        }
        proof {
            if integr {
                assert(w.bodies@[i as int].prev_position == integrated_body_spec(
                    s0[i as int],
                ).prev_position);
                assert(w.bodies@[i as int].velocity == integrated_body_spec(s0[i as int]).velocity);
                assert(w.bodies@[i as int].local == integrated_body_spec(s0[i as int]).local);
                assert(w.bodies@[i as int] == integrated_body_spec(s0[i as int]));
            }
        }
        i = i + 1;
    }
    proof {
        assert(w.bodies@ =~= integrate_spec(s0));
    }
}

/// One full physics tick from a world state: integrate, then detect and
/// resolve. The events of the tick are the all-pairs list of the integrated
/// state's broadphase snapshot.
pub open spec fn tick_events_spec(s: Seq<Body>) -> Seq<CollisionEvent> {
    crate::collision::all_pair_events(
        crate::collision::entries_of(integrate_spec(s), s.len() as int),
    )
}

pub open spec fn tick_spec(s: Seq<Body>) -> Seq<Body> {
    crate::collision::respond_upto_spec(
        integrate_spec(s),
        tick_events_spec(s),
        tick_events_spec(s).len() as int,
    )
}

/// The world after `k` physics ticks.
pub open spec fn ticks_spec(s: Seq<Body>, k: int) -> Seq<Body>
    decreases k,
{
    if k <= 0 {
        s
    } else {
        tick_spec(ticks_spec(s, k - 1))
    }
}

/// All collision events of `k` physics ticks, in tick order.
pub open spec fn ticks_events_spec(s: Seq<Body>, k: int) -> Seq<CollisionEvent>
    decreases k,
{
    if k <= 0 {
        Seq::empty()
    } else {
        ticks_events_spec(s, k - 1) + tick_events_spec(ticks_spec(s, k - 1))
    }
}

/// Whether one physics tick integrates this body: it carries a velocity, is
/// not held, and is a hierarchy root.
pub open spec fn is_integrated(b: Body) -> bool {
    b.velocity is Some && b.held is None && b.parent is None
}

/// Advance the fixed-timestep simulation by one render frame.
///
/// Adds `frame_dt` microseconds to the accumulator and runs one full physics
/// tick (integration plus collision detection and response) per whole
/// `PHYSICS_DT_US` contained in it. Returns all collision events of those
/// ticks, the interpolation alpha in milli (0..1000), and the tick count.
pub fn physics_system(world: &mut World, accumulator: &mut u64, frame_dt: u64) -> (r: (
    Vec<CollisionEvent>,
    i64,
    usize,
))
    requires
        old(world).wf(),
        *old(accumulator) < PHYSICS_DT_US,
        frame_dt <= MAX_FRAME_DT_US,
    ensures
        final(world).wf(),
        final(world).n() == old(world).n(),
        r.2 as int == (*old(accumulator) + frame_dt) as int / PHYSICS_DT_US as int,
        *final(accumulator) == (*old(accumulator) + frame_dt) as int % PHYSICS_DT_US as int,
        *final(accumulator) < PHYSICS_DT_US,
        r.1 as int == (*final(accumulator) as int * SCALE as int) / PHYSICS_DT_US as int,
        0 <= r.1 < SCALE,
        events_bounded(r.0@, old(world).n()),
        r.2 == 0 ==> final(world).bodies@ == old(world).bodies@ && r.0@.len() == 0,
        final(world).bodies@ == ticks_spec(old(world).bodies@, r.2 as int),
        r.0@ == ticks_events_spec(old(world).bodies@, r.2 as int),
        forall|k: int|
            0 <= k < old(world).n() && old(world).bodies@[k].held is Some
                ==> final(world).bodies@[k] == old(world).bodies@[k],
{
    let ghost n0 = world.n();
    let ghost s_init = world.bodies@;
    let mut acc: u64 = *accumulator + frame_dt;
    let ghost total = acc as int;
    let mut all_events: Vec<CollisionEvent> = Vec::new();
    let mut ticks: usize = 0;
    while acc >= PHYSICS_DT_US
        invariant
            world.wf(),
            world.n() == n0,
            s_init.len() == n0,
            total == acc as int + ticks as int * PHYSICS_DT_US as int,
            ticks as int * PHYSICS_DT_US as int <= total,
            total <= MAX_FRAME_DT_US as int + PHYSICS_DT_US as int,
            events_bounded(all_events@, n0),
            ticks == 0 ==> world.bodies@ == old(world).bodies@ && all_events@.len() == 0,
            world.bodies@ == ticks_spec(s_init, ticks as int),
            all_events@ == ticks_events_spec(s_init, ticks as int),
            forall|k: int|
                0 <= k < n0 && s_init[k].held is Some ==> world.bodies@[k] == s_init[k],
        decreases acc,
    {
        let ghost s_pre = world.bodies@;
        integrate_bodies(world);
        let events = collision_system(world);
        proof {
            assert(events@ == tick_events_spec(s_pre));
            assert(world.bodies@ == tick_spec(s_pre));
        }
        let ghost all_pre = all_events@;
        let mut k: usize = 0;
        while k < events.len()
            invariant
                events_bounded(events@, n0),
                events_bounded(all_events@, n0),
                k <= events@.len(),
                all_events@ == all_pre + events@.subrange(0, k as int),
            decreases events@.len() - k,
        {
            all_events.push(events[k]);
            proof {
                assert(events@.subrange(0, k as int + 1) =~= events@.subrange(0, k as int).push(
                    events@[k as int],
                ));
                assert(all_events@ =~= all_pre + events@.subrange(0, k as int + 1));
            }
            k = k + 1;
        }
        proof {
            assert(events@.subrange(0, events@.len() as int) =~= events@);
            assert(all_events@ == all_pre + events@);
            assert(all_events@ == ticks_events_spec(s_init, ticks as int + 1));
            assert forall|q: int|
                0 <= q < n0 && s_init[q].held is Some implies world.bodies@[q] == s_init[q] by {
                assert(s_pre[q] == s_init[q]);
                assert(crate::collision::same_except_motion(s_pre[q], world.bodies@[q])
                    || world.bodies@[q] == s_pre[q]);
            }
        }
        acc = acc - PHYSICS_DT_US;
        ticks = ticks + 1;
        proof {
            assert(ticks as int * PHYSICS_DT_US as int == (ticks - 1) as int * PHYSICS_DT_US as int
                + PHYSICS_DT_US as int) by (nonlinear_arith);
        }
    }
    *accumulator = acc;
    proof {
        vstd::arithmetic::div_mod::lemma_fundamental_div_mod_converse(
            total,
            PHYSICS_DT_US as int,
            ticks as int,
            acc as int,
        );
        assert((acc as int) * (SCALE as int) < (PHYSICS_DT_US as int) * (SCALE as int))
            by (nonlinear_arith)
            requires (acc as int) < (PHYSICS_DT_US as int), (SCALE as int) > 0;
        assert((acc as int) * (SCALE as int) >= 0) by (nonlinear_arith)
            requires (acc as int) >= 0, (SCALE as int) > 0;
        crate::math::lemma_pos_div_lt(
            (acc as int) * (SCALE as int),
            PHYSICS_DT_US as int,
            SCALE as int,
        );
    }
    let alpha = ((acc * (SCALE as u64)) / PHYSICS_DT_US) as i64;
    (all_events, alpha, ticks)
}

// ---------------------------------------------------------------------------
// Accumulator determinism
// ---------------------------------------------------------------------------

/// Ticks run by one frame starting from remainder `acc`.
pub open spec fn frame_ticks(acc: int, dt: int) -> int {
    (acc + dt) / PHYSICS_DT_US as int
}

/// Remainder left after one frame starting from remainder `acc`.
pub open spec fn frame_rem(acc: int, dt: int) -> int {
    (acc + dt) % PHYSICS_DT_US as int
}

/// Total ticks run across a sequence of frame deltas.
pub open spec fn run_ticks(acc: int, dts: Seq<int>) -> int
    decreases dts.len(),
{
    if dts.len() == 0 {
        0
    } else {
        frame_ticks(acc, dts[0]) + run_ticks(frame_rem(acc, dts[0]), dts.drop_first())
    }
}

/// Sum of a sequence of frame deltas.
pub open spec fn seq_sum(dts: Seq<int>) -> int
    decreases dts.len(),
{
    if dts.len() == 0 {
        0
    } else {
        dts[0] + seq_sum(dts.drop_first())
    }
}

/// Accumulator determinism: however a total time is chunked into frames, the
/// number of physics ticks executed is exactly the total divided by the
/// fixed step, and the leftover is the total's remainder.
pub proof fn lemma_accumulator_determinism(acc: int, dts: Seq<int>)
    requires
        0 <= acc < PHYSICS_DT_US as int,
        forall|i: int| 0 <= i < dts.len() ==> 0 <= #[trigger] dts[i],
    ensures
        run_ticks(acc, dts) == (acc + seq_sum(dts)) / PHYSICS_DT_US as int,
    decreases dts.len(),
{
    let d = PHYSICS_DT_US as int;
    if dts.len() == 0 {
        vstd::arithmetic::div_mod::lemma_basic_div(acc, d);
    } else {
        let dt0 = dts[0];
        let q = frame_ticks(acc, dt0);
        let r = frame_rem(acc, dt0);
        vstd::arithmetic::div_mod::lemma_fundamental_div_mod(acc + dt0, d);
        vstd::arithmetic::div_mod::lemma_mod_bound(acc + dt0, d);
        assert(seq_sum(dts) == dt0 + seq_sum(dts.drop_first()));
        assert(forall|i: int|
            0 <= i < dts.drop_first().len() ==> 0 <= #[trigger] dts.drop_first()[i]) by {
            assert(forall|i: int|
                0 <= i < dts.drop_first().len() ==> dts.drop_first()[i] == dts[i + 1]);
        }
        lemma_accumulator_determinism(r, dts.drop_first());
        let rest = seq_sum(dts.drop_first());
        assert(rest >= 0) by {
            lemma_seq_sum_nonneg(dts.drop_first());
        }
        assert(acc + seq_sum(dts) == d * q + (r + rest));
        vstd::arithmetic::div_mod::lemma_fundamental_div_mod(r + rest, d);
        vstd::arithmetic::div_mod::lemma_mod_bound(r + rest, d);
        let q2 = (r + rest) / d;
        let r2 = (r + rest) % d;
        assert(d * (q + q2) + r2 == d * q + (r + rest)) by (nonlinear_arith)
            requires r + rest == d * q2 + r2;
        vstd::arithmetic::div_mod::lemma_fundamental_div_mod_converse(
            acc + seq_sum(dts),
            d,
            q + q2,
            r2,
        );
    }
}

/// Frame deltas are non-negative, so their sum is too.
pub proof fn lemma_seq_sum_nonneg(dts: Seq<int>)
    requires
        forall|i: int| 0 <= i < dts.len() ==> 0 <= #[trigger] dts[i],
    ensures
        seq_sum(dts) >= 0,
    decreases dts.len(),
{
    if dts.len() > 0 {
        assert(forall|i: int|
            0 <= i < dts.drop_first().len() ==> 0 <= #[trigger] dts.drop_first()[i]) by {
            assert(forall|i: int|
                0 <= i < dts.drop_first().len() ==> dts.drop_first()[i] == dts[i + 1]);
        }
        lemma_seq_sum_nonneg(dts.drop_first());
    }
}

} // verus!
