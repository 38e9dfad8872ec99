//! Player locomotion: the discrete movement state machine, its transition
//! rules, movement-speed application, and grounded-state derivation from the
//! tick's collision events.

use vstd::prelude::*;
use crate::collision::events_bounded;
use crate::components::CollisionEvent;
use crate::components::Grounded;
use crate::components::PlayerState;
use crate::components::Velocity;
use crate::fsm::sat_add;
use crate::fsm::same_variant;
use crate::fsm::StateMachine;
use crate::math::clamp_int;
use crate::math::clamp_v3;
use crate::math::div_fix;
use crate::math::isqrt;
use crate::math::lemma_component_le_len;
use crate::math::lemma_mul_bound;
use crate::math::lemma_tdiv_bound;
use crate::math::lemma_tdiv_le;
use crate::math::sqrt_floor;
use crate::math::tdiv;
use crate::math::Rot;
use crate::math::Vec3;
use crate::math::V3;
use crate::math::MAX_COORD;
use crate::math::DOT_LIM;
use crate::math::ROT_LIM;
use crate::math::SCALE;
use crate::world::root_of;
use crate::world::Body;
use crate::world::World;

verus! {

/// Horizontal walk speed, milli-units per second.
pub const PLAYER_WALK_SPEED: i64 = 6_000;

/// Horizontal run speed, milli-units per second.
pub const PLAYER_RUN_SPEED: i64 = 10_000;

/// Upward velocity applied on the jump transition.
pub const JUMP_IMPULSE: i64 = 7_000;

/// Dash burst length, microseconds.
pub const DASH_DURATION: u64 = 200_000;

/// Landing recovery length, microseconds.
pub const LANDING_DURATION: u64 = 50_000;

/// Sheathe/unsheathe animation length, microseconds.
pub const SHEATHE_DURATION: u64 = 300_000;

/// Largest horizontal speed reachable through air steering.
pub const AIR_CONTROL_SPEED: i64 = 4_000;

/// Air-steering acceleration, milli-units per second squared.
pub const AIR_ACCELERATION: i64 = 10_000;

/// Upward contact-normal threshold for counting as ground (cosine in milli).
pub const GROUND_NORMAL_Y: i64 = 700;

/// Per-frame context for the player state transitions.
pub struct PlayerCtx {
    /// A movement key is held.
    pub moving: bool,
    /// The sprint key is held.
    pub sprinting: bool,
    /// The jump key is held.
    pub jump_held: bool,
    /// Ground contact was derived this frame.
    pub grounded: bool,
    /// The player's current velocity.
    pub velocity: Vec3,
    /// Frame delta, microseconds.
    pub dt: u64,
}

/// Timer advance inside timed state variants.
pub open spec fn tick_timers_spec(s: PlayerState, dt: u64) -> PlayerState {
    match s {
        PlayerState::Dashing { direction, timer, cooldown_remaining } => PlayerState::Dashing {
            direction,
            timer: sat_add(timer, dt),
            cooldown_remaining: if cooldown_remaining >= dt {
                (cooldown_remaining - dt) as u64
            } else {
                0
            },
        },
        PlayerState::Landing { timer } => PlayerState::Landing { timer: sat_add(timer, dt) },
        PlayerState::Sheathing { timer } => PlayerState::Sheathing { timer: sat_add(timer, dt) },
        PlayerState::Unsheathing { timer } => PlayerState::Unsheathing {
            timer: sat_add(timer, dt),
        },
        _ => s,
    }
}

/// The per-state transition rule: the next state, or `None` to stay.
pub open spec fn next_spec(
    s: PlayerState,
    moving: bool,
    sprinting: bool,
    jump_held: bool,
    grounded: bool,
    vy: int,
) -> Option<PlayerState> {
    match s {
        PlayerState::Idle => if moving {
            Some(PlayerState::Walking)
        } else {
            None
        },
        PlayerState::Walking => if !moving {
            Some(PlayerState::Idle)
        } else if sprinting {
            Some(PlayerState::Running)
        } else {
            None
        },
        PlayerState::Running => if !moving {
            Some(PlayerState::Idle)
        } else if !sprinting {
            Some(PlayerState::Walking)
        } else {
            None
        },
        PlayerState::Dashing { timer, .. } => if timer >= DASH_DURATION {
            Some(PlayerState::Falling)
        } else {
            None
        },
        PlayerState::Jumping { has_released_jump } => if vy <= 0 || (!jump_held
            && !has_released_jump) {
            Some(PlayerState::Falling)
        } else {
            None
        },
        PlayerState::Falling => if grounded {
            Some(PlayerState::Landing { timer: 0 })
        } else {
            None
        },
        PlayerState::Landing { timer } => if timer >= LANDING_DURATION {
            Some(PlayerState::Idle)
        } else {
            None
        },
        PlayerState::Sheathing { timer } => if timer >= SHEATHE_DURATION {
            Some(PlayerState::Idle)
        } else {
            None
        },
        PlayerState::Unsheathing { timer } => if timer >= SHEATHE_DURATION {
            Some(PlayerState::Idle)
        } else {
            None
        },
    }
}

/// The documented per-state transition table: everything `next` may return.
pub open spec fn transition_allowed(s: PlayerState, t: PlayerState) -> bool {
    match s {
        PlayerState::Idle => t is Walking,
        PlayerState::Walking => t is Idle || t is Running,
        PlayerState::Running => t is Idle || t is Walking,
        PlayerState::Dashing { .. } => t is Falling,
        PlayerState::Jumping { .. } => t is Falling,
        PlayerState::Falling => t is Landing,
        PlayerState::Landing { .. } => t is Idle,
        PlayerState::Sheathing { .. } => t is Idle,
        PlayerState::Unsheathing { .. } => t is Idle,
    }
}

/// The global transition rule, checked before the per-state rules: jump from
/// any grounded jump-permitting state, and fall when ground is lost under a
/// ground-locomotion state.
pub open spec fn global_spec(s: PlayerState, jump_held: bool, grounded: bool) -> Option<
    PlayerState,
> {
    if grounded && can_jump_spec(s) && jump_held {
        Some(PlayerState::Jumping { has_released_jump: false })
    } else if !grounded && (s is Idle || s is Walking || s is Running) {
        Some(PlayerState::Falling)
    } else {
        None
    }
}

pub open spec fn can_jump_spec(s: PlayerState) -> bool {
    s is Idle || s is Walking || s is Running || s is Landing
}

pub open spec fn is_airborne_spec(s: PlayerState) -> bool {
    s is Jumping || s is Falling
}

/// Authoritative horizontal speed for grounded states; `None` for airborne
/// and locked states.
pub open spec fn move_speed_spec(s: PlayerState) -> Option<i64> {
    match s {
        PlayerState::Idle => Some(0i64),
        PlayerState::Walking => Some(PLAYER_WALK_SPEED),
        PlayerState::Running => Some(PLAYER_RUN_SPEED),
        _ => None,
    }
}

impl PlayerState {
    /// Advance the timers embedded in timed state variants.
    pub fn tick_timers(&mut self, dt: u64)
        ensures
            *final(self) == tick_timers_spec(*old(self), dt),
    {
        match self {
            PlayerState::Dashing { timer, cooldown_remaining, .. } => {
                *timer = crate::fsm::saturating_add_u64(*timer, dt);
                *cooldown_remaining = if *cooldown_remaining >= dt {
                    *cooldown_remaining - dt
                } else {
                    0
                };
            },
            PlayerState::Landing { timer } => {
                *timer = crate::fsm::saturating_add_u64(*timer, dt);
            },
            PlayerState::Sheathing { timer } => {
                *timer = crate::fsm::saturating_add_u64(*timer, dt);
            },
            PlayerState::Unsheathing { timer } => {
                *timer = crate::fsm::saturating_add_u64(*timer, dt);
            },
            _ => {},
        }
    }

    /// The next state if a per-state transition fires, or `None` to stay.
    /// Whatever it returns is in the documented transition table.
    pub fn next(&self, ctx: &PlayerCtx) -> (r: Option<PlayerState>)
        ensures
            r == next_spec(
                *self,
                ctx.moving,
                ctx.sprinting,
                ctx.jump_held,
                ctx.grounded,
                ctx.velocity@.y,
            ),
            r is Some ==> transition_allowed(*self, r->0),
    {
        match self {
            PlayerState::Idle => if ctx.moving {
                Some(PlayerState::Walking)
            } else {
                None
            },
            PlayerState::Walking => if !ctx.moving {
                Some(PlayerState::Idle)
            } else if ctx.sprinting {
                Some(PlayerState::Running)
            } else {
                None
            },
            PlayerState::Running => if !ctx.moving {
                Some(PlayerState::Idle)
            } else if !ctx.sprinting {
                Some(PlayerState::Walking)
            } else {
                None
            },
            PlayerState::Dashing { timer, .. } => if *timer >= DASH_DURATION {
                Some(PlayerState::Falling)
            } else {
                None
            },
            PlayerState::Jumping { has_released_jump } => {
                let key_up = !ctx.jump_held;
                if ctx.velocity.y <= 0 || (key_up && !*has_released_jump) {
                    Some(PlayerState::Falling)
                } else {
                    None
                }
            },
            PlayerState::Falling => if ctx.grounded {
                Some(PlayerState::Landing { timer: 0 })
            } else {
                None
            },
            PlayerState::Landing { timer } => if *timer >= LANDING_DURATION {
                Some(PlayerState::Idle)
            } else {
                None
            },
            PlayerState::Sheathing { timer } => if *timer >= SHEATHE_DURATION {
                Some(PlayerState::Idle)
            } else {
                None
            },
            PlayerState::Unsheathing { timer } => if *timer >= SHEATHE_DURATION {
                Some(PlayerState::Idle)
            } else {
                None
            },
        }
    }

    /// Whether this state is airborne (air steering instead of direct
    /// velocity override).
    pub fn is_airborne(&self) -> (r: bool)
        ensures
            r == is_airborne_spec(*self),
    {
        match self {
            PlayerState::Jumping { .. } => true,
            PlayerState::Falling => true,
            _ => false,
        }
    }

    /// Horizontal move speed for grounded states; `None` leaves the velocity
    /// untouched (airborne or locked states).
    pub fn move_speed(&self) -> (r: Option<i64>)
        ensures
            r == move_speed_spec(*self),
    {
        match self {
            PlayerState::Idle => Some(0),
            PlayerState::Walking => Some(PLAYER_WALK_SPEED),
            PlayerState::Running => Some(PLAYER_RUN_SPEED),
            _ => None,
        }
    }

    /// Whether jump input is accepted in this state. Landing is included so
    /// a buffered jump fires on the first frame of ground contact.
    pub fn can_jump(&self) -> (r: bool)
        ensures
            r == can_jump_spec(*self),
    {
        match self {
            PlayerState::Idle => true,
            PlayerState::Walking => true,
            PlayerState::Running => true,
            PlayerState::Landing { .. } => true,
            _ => false,
        }
    }
}

/// A transition firing regardless of the current state, or `None`. Whatever
/// it returns is a jump or a fall.
pub fn check_global_transitions(state: &PlayerState, jump_held: bool, grounded: bool) -> (r:
    Option<PlayerState>)
    ensures
        r == global_spec(*state, jump_held, grounded),
        r is Some ==> r->0 is Jumping || r->0 is Falling,
{
    if grounded && state.can_jump() && jump_held {
        return Some(PlayerState::Jumping { has_released_jump: false });
    }
    let loco = match state {
        PlayerState::Idle => true,
        PlayerState::Walking => true,
        PlayerState::Running => true,
        _ => false,
    };
    if !grounded && loco {
        return Some(PlayerState::Falling);
    }
    None
}

/// One machine update as [`player_state_system`] performs it: advance the
/// frame timer, try the global transitions, else advance state timers and
/// try the per-state transition. Returns the new machine and whether a jump
/// fired this frame.
pub open spec fn state_step_spec(
    fsm: StateMachine,
    moving: bool,
    sprinting: bool,
    jump_held: bool,
    grounded: bool,
    vy: int,
    dt: u64,
) -> (StateMachine, bool) {
    let f1 = StateMachine {
        state: fsm.state,
        previous: fsm.previous,
        elapsed: sat_add(fsm.elapsed, dt),
        entered_this_frame: false,
    };
    match global_spec(f1.state, jump_held, grounded) {
        Some(g) => (go_spec(f1, g), g is Jumping),
        None => {
            let s2 = tick_timers_spec(f1.state, dt);
            let f2 = StateMachine {
                state: s2,
                previous: f1.previous,
                elapsed: f1.elapsed,
                entered_this_frame: f1.entered_this_frame,
            };
            match next_spec(s2, moving, sprinting, jump_held, grounded, vy) {
                Some(nx) => (go_spec(f2, nx), false),
                None => (f2, false),
            }
        },
    }
}

/// The effect of [`StateMachine::go`] as a spec value.
pub open spec fn go_spec(f: StateMachine, next: PlayerState) -> StateMachine {
    if same_variant(f.state, next) {
        f
    } else {
        StateMachine { state: next, previous: f.state, elapsed: 0, entered_this_frame: true }
    }
}

/// Drive the player locomotion machine for one frame. Runs before the
/// movement system; a jump transition writes the jump impulse into the
/// player's vertical velocity here, so the movement system never needs to.
pub fn player_state_system(
    world: &mut World,
    player: usize,
    fsm: &mut StateMachine,
    moving: bool,
    sprinting: bool,
    jump_held: bool,
    dt: u64,
)
    requires
        old(world).wf(),
        player < old(world).n(),
    ensures
        final(world).wf(),
        final(world).n() == old(world).n(),
        ({
            let b = old(world).bodies@[player as int];
            let grounded = b.grounded is Some;
            let vy = if b.velocity is Some {
                (b.velocity->0).0@.y
            } else {
                0int
            };
            let step = state_step_spec(*old(fsm), moving, sprinting, jump_held, grounded, vy, dt);
            &&& *final(fsm) == step.0
            &&& (step.1 && b.velocity is Some ==> final(world).bodies@ == old(
                world,
            ).bodies@.update(
                player as int,
                Body {
                    velocity: Some(
                        Velocity(
                            Vec3 {
                                x: (b.velocity->0).0.x,
                                y: JUMP_IMPULSE,
                                z: (b.velocity->0).0.z,
                            },
                        ),
                    ),
                    ..b
                },
            ))
            &&& (!(step.1 && b.velocity is Some) ==> final(world).bodies@ == old(world).bodies@)
        }),
{
    let ghost s0 = world.bodies@;
    let grounded = world.bodies[player].grounded.is_some();
    let velocity = match &world.bodies[player].velocity {
        Some(v) => v.0,
        None => Vec3 { x: 0, y: 0, z: 0 },
    };
    fsm.tick(dt);
    let global_next = check_global_transitions(&fsm.state, jump_held, grounded);
    match global_next {
        Some(next) => {
            let jumping = match next {
                PlayerState::Jumping { .. } => true,
                _ => false,
            };
            if jumping {
                match &world.bodies[player].velocity {
                    Some(v) => {
                        let nv = Vec3 { x: v.0.x, y: JUMP_IMPULSE, z: v.0.z };
                        world.bodies[player].velocity = Some(Velocity(nv));
                    },
                    None => {},
                }
            }
            fsm.go(next);
        },
        None => {
            fsm.state.tick_timers(dt);
            let ctx = PlayerCtx { moving, sprinting, jump_held, grounded, velocity, dt };
            let next = fsm.state.next(&ctx);
            match next {
                Some(nx) => {
                    fsm.go(nx);
                },
                None => {},
            }
        },
    }
    proof {
        let s = world.bodies@;
        assert forall|i: int| 0 <= i < s.len() implies (#[trigger] s[i]).ok(s.len() as int) && (
        s[i].parent is Some ==> s[s[i].parent->0 as int].parent is None) by {
            assert(s0[i].ok(s0.len() as int));
            if s[i].parent is Some {
                let pp = s[i].parent->0 as int;
                assert(s[pp].parent == s0[pp].parent);
            }
        }
    }
}

} // verus!

verus! {

/// The velocity after one frame of movement application.
///
/// Ground states override the horizontal velocity outright; airborne states
/// steer it toward the desired direction at a bounded acceleration; locked
/// states leave it untouched so momentum carries through.
pub open spec fn movement_velocity_spec(
    s: PlayerState,
    v: V3,
    dir: V3,
    mult: int,
    dt: u64,
) -> V3 {
    let has_input = !(dir.x == 0 && dir.y == 0 && dir.z == 0);
    if is_airborne_spec(s) {
        if has_input {
            let desired_x = tdiv(dir.x * AIR_CONTROL_SPEED * mult, SCALE as int * SCALE as int);
            let desired_z = tdiv(dir.z * AIR_CONTROL_SPEED * mult, SCALE as int * SCALE as int);
            let diff = V3 { x: desired_x - v.x, y: 0, z: desired_z - v.z };
            let dist = diff.len();
            if dist > 0 {
                let accel = tdiv(AIR_ACCELERATION as int * dt as int, 1_000_000);
                let step = if accel <= dist {
                    accel
                } else {
                    dist
                };
                clamp_v3(
                    V3 {
                        x: v.x + tdiv(diff.x * step, dist),
                        y: v.y,
                        z: v.z + tdiv(diff.z * step, dist),
                    },
                    MAX_COORD as int,
                )
            } else {
                v
            }
        } else {
            v
        }
    } else {
        match move_speed_spec(s) {
            Some(speed) => V3 {
                x: tdiv(dir.x * speed * mult, SCALE as int * SCALE as int),
                y: v.y,
                z: tdiv(dir.z * speed * mult, SCALE as int * SCALE as int),
            },
            None => v,
        }
    }
}

/// Apply movement for the current locomotion state. `move_dir` is the
/// camera-relative input direction (unit length at fixed-point scale, or
/// zero); `facing` is the yaw to face the player in, absent during free
/// look; `speed_multiplier` is milli-scaled (wind-up slowdown).
pub fn player_movement_system(
    world: &mut World,
    player: usize,
    fsm: &StateMachine,
    move_dir: Vec3,
    facing: Option<Rot>,
    speed_multiplier: i64,
    dt: u64,
)
    requires
        old(world).wf(),
        player < old(world).n(),
        old(world).bodies@[player as int].parent is None,
        move_dir@.bounded(SCALE as int),
        facing is Some ==> (facing->0)@.bounded(),
        0 <= speed_multiplier <= SCALE,
        dt <= crate::physics::MAX_FRAME_DT_US,
    ensures
        final(world).wf(),
        final(world).n() == old(world).n(),
        ({
            let b = old(world).bodies@[player as int];
            let rot = match facing {
                Some(f) => f,
                None => b.local.rotation,
            };
            let nv = if b.velocity is Some {
                Some(
                    movement_velocity_spec(
                        fsm.state,
                        (b.velocity->0).0@,
                        move_dir@,
                        speed_multiplier as int,
                        dt,
                    ),
                )
            } else {
                None
            };
            final(world).bodies@ == old(world).bodies@.update(
                player as int,
                Body {
                    local: crate::components::LocalTransform {
                        position: b.local.position,
                        rotation: rot,
                    },
                    velocity: match b.velocity {
                        Some(v0) => Some(
                            Velocity(
                                Vec3 { x: nv->0.x as i64, y: nv->0.y as i64, z: nv->0.z as i64 },
                            ),
                        ),
                        None => None,
                    },
                    ..b
                },
            )
        }),
{
    let ghost s0 = world.bodies@;
    match facing {
        Some(f) => {
            world.bodies[player].local.rotation = f;
        },
        None => {},
    }
    let has_input = !(move_dir.x == 0 && move_dir.y == 0 && move_dir.z == 0);
    match world.bodies[player].velocity {
        Some(v0) => {
            let v = v0.0;
            let nv: Vec3;
            if fsm.state.is_airborne() {
                if has_input {
                    proof {
                        lemma_mul_bound(move_dir@.x, SCALE as int, AIR_CONTROL_SPEED as int, 4_000);
                        lemma_mul_bound(
                            move_dir@.x * AIR_CONTROL_SPEED as int,
                            4_000_000,
                            speed_multiplier as int,
                            SCALE as int,
                        );
                        lemma_mul_bound(move_dir@.z, SCALE as int, AIR_CONTROL_SPEED as int, 4_000);
                        lemma_mul_bound(
                            move_dir@.z * AIR_CONTROL_SPEED as int,
                            4_000_000,
                            speed_multiplier as int,
                            SCALE as int,
                        );
                        lemma_tdiv_le(
                            move_dir@.x * AIR_CONTROL_SPEED as int * speed_multiplier as int,
                            SCALE as int * SCALE as int,
                            4_000,
                        );
                        lemma_tdiv_le(
                            move_dir@.z * AIR_CONTROL_SPEED as int * speed_multiplier as int,
                            SCALE as int * SCALE as int,
                            4_000,
                        );
                    }
                    let desired_x = div_fix(
                        move_dir.x * AIR_CONTROL_SPEED * speed_multiplier,
                        SCALE * SCALE,
                    );
                    let desired_z = div_fix(
                        move_dir.z * AIR_CONTROL_SPEED * speed_multiplier,
                        SCALE * SCALE,
                    );
                    let diff = Vec3 { x: desired_x - v.x, y: 0, z: desired_z - v.z };
                    let dist = diff.length();
                    if dist > 0 {
                        proof {
                            lemma_mul_bound(
                                AIR_ACCELERATION as int,
                                AIR_ACCELERATION as int,
                                dt as int,
                                crate::physics::MAX_FRAME_DT_US as int,
                            );
                            lemma_tdiv_bound(AIR_ACCELERATION as int * dt as int, 1_000_000);
                        }
                        let accel = div_fix(AIR_ACCELERATION * (dt as i64), 1_000_000);
                        let step = if accel <= dist {
                            accel
                        } else {
                            dist
                        };
                        proof {
                            lemma_component_le_len(diff@);
                            lemma_mul_bound(diff@.x, 2 * DOT_LIM as int, step as int, 2 * DOT_LIM as int);
                            lemma_mul_bound(diff@.z, 2 * DOT_LIM as int, step as int, 2 * DOT_LIM as int);
                            lemma_mul_bound(diff@.x, dist as int, step as int, dist as int);
                            lemma_mul_bound(diff@.z, dist as int, step as int, dist as int);
                            lemma_tdiv_le(diff@.x * step as int, dist as int, dist as int);
                            lemma_tdiv_le(diff@.z * step as int, dist as int, dist as int);
                        }
                        nv = Vec3 {
                            x: v.x + div_fix(diff.x * step, dist),
                            y: v.y,
                            z: v.z + div_fix(diff.z * step, dist),
                        }.clamped(MAX_COORD);
                    } else {
                        nv = v;
                    }
                } else {
                    nv = v;
                }
            } else {
                match fsm.state.move_speed() {
                    Some(speed) => {
                        proof {
                            lemma_mul_bound(move_dir@.x, SCALE as int, speed as int, 10_000);
                            lemma_mul_bound(
                                move_dir@.x * speed as int,
                                10_000_000,
                                speed_multiplier as int,
                                SCALE as int,
                            );
                            lemma_mul_bound(move_dir@.z, SCALE as int, speed as int, 10_000);
                            lemma_mul_bound(
                                move_dir@.z * speed as int,
                                10_000_000,
                                speed_multiplier as int,
                                SCALE as int,
                            );
                            lemma_tdiv_le(
                                move_dir@.x * speed as int * speed_multiplier as int,
                                SCALE as int * SCALE as int,
                                10_000,
                            );
                            lemma_tdiv_le(
                                move_dir@.z * speed as int * speed_multiplier as int,
                                SCALE as int * SCALE as int,
                                10_000,
                            );
                        }
                        let hx = div_fix(move_dir.x * speed * speed_multiplier, SCALE * SCALE);
                        let hz = div_fix(move_dir.z * speed * speed_multiplier, SCALE * SCALE);
                        nv = Vec3 { x: hx, y: v.y, z: hz };
                    },
                    None => {
                        nv = v;
                    },
                }
            }
            world.bodies[player].velocity = Some(Velocity(nv));
        },
        None => {},
    }
    proof {
        let s = world.bodies@;
        assert forall|i: int| 0 <= i < s.len() implies (#[trigger] s[i]).ok(s.len() as int) && (
        s[i].parent is Some ==> s[s[i].parent->0 as int].parent is None) by {
            assert(s0[i].ok(s0.len() as int));
            if s[i].parent is Some {
                let pp = s[i].parent->0 as int;
                assert(s[pp].parent == s0[pp].parent);
            }
        }
        assert(world.bodies@ =~= s0.update(player as int, world.bodies@[player as int]));
    }
}

/// Whether the tick's events contain an upward ground contact for root `k`.
pub open spec fn ground_contact(s: Seq<Body>, events: Seq<CollisionEvent>, k: int) -> bool {
    exists|t: int|
        0 <= t < events.len() && ((root_of(s, (#[trigger] events[t]).entity_a as int) == k
            && events[t].contact_normal@.y < -GROUND_NORMAL_Y) || (root_of(
            s,
            events[t].entity_b as int,
        ) == k && events[t].contact_normal@.y > GROUND_NORMAL_Y))
}

/// Everything about a body except its grounded marker.
pub open spec fn same_except_grounded(a: Body, b: Body) -> bool {
    b == (Body { grounded: b.grounded, ..a })
}

/// Rebuild the `Grounded` marker of every player from this frame's contact
/// events — but only if at least one physics tick actually ran. On a
/// render-only frame the markers are left exactly as they were, so a fast
/// render rate cannot cause spurious unground transitions.
pub fn grounded_system(world: &mut World, events: &Vec<CollisionEvent>, physics_ticks: usize)
    requires
        old(world).wf(),
        events_bounded(events@, old(world).n()),
    ensures
        final(world).wf(),
        final(world).n() == old(world).n(),
        physics_ticks == 0 ==> final(world).bodies@ == old(world).bodies@,
        forall|k: int|
            0 <= k < old(world).n() ==> same_except_grounded(
                old(world).bodies@[k],
                #[trigger] final(world).bodies@[k],
            ),
        physics_ticks > 0 ==> forall|k: int|
            0 <= k < old(world).n() ==> (#[trigger] final(world).bodies@[k]).grounded == (if old(
                world,
            ).bodies@[k].player is Some {
                if ground_contact(old(world).bodies@, events@, k) {
                    Some(Grounded)
                } else {
                    None
                }
            } else {
                old(world).bodies@[k].grounded
            }),
{
    if physics_ticks == 0 {
        return ;
    }
    let ghost s0 = world.bodies@;
    let n = world.len();
    let mut i: usize = 0;
    while i < n
        invariant
            world.wf(),
            world.n() == n as int,
            n == s0.len(),
            i <= n,
            forall|k: int|
                0 <= k < n ==> same_except_grounded(s0[k], #[trigger] world.bodies@[k]),
            forall|k: int| i <= k < n ==> world.bodies@[k] == s0[k],
            forall|k: int|
                0 <= k < i ==> (#[trigger] world.bodies@[k]).grounded == (if s0[k].player is Some {
                    None
                } else {
                    s0[k].grounded
                }),
        decreases n - i,
    {
        let ghost pre = world.bodies@;
        if world.bodies[i].player.is_some() {
            world.bodies[i].grounded = None;
        }
        proof {
            let s = world.bodies@;
            assert forall|t: int| 0 <= t < s.len() implies (#[trigger] s[t]).ok(s.len() as int)
                && (s[t].parent is Some ==> s[s[t].parent->0 as int].parent is None) by {
                assert(pre[t].ok(pre.len() as int));
                if s[t].parent is Some {
                    let pp = s[t].parent->0 as int;
                    assert(s[pp].parent == pre[pp].parent);
                }
            }
        }
        i = i + 1;
    }
    let mut t: usize = 0;
    while t < events.len()
        invariant
            world.wf(),
            world.n() == n as int,
            n == s0.len(),
            events_bounded(events@, n as int),
            forall|k: int|
                0 <= k < n ==> same_except_grounded(s0[k], #[trigger] world.bodies@[k]),
            forall|k: int|
                0 <= k < n ==> root_of(world.bodies@, k) == root_of(s0, k),
            forall|k: int|
                0 <= k < n ==> (#[trigger] world.bodies@[k]).grounded == (if s0[k].player is Some {
                    if ground_contact_upto(s0, events@, k, t as int) {
                        Some(Grounded)
                    } else {
                        None
                    }
                } else {
                    s0[k].grounded
                }),
        decreases events@.len() - t,
    {
        let ghost pre = world.bodies@;
        let ev = &events[t];
        let root_a = world.find_physics_root(ev.entity_a);
        let root_b = world.find_physics_root(ev.entity_b);
        if world.bodies[root_a].player.is_some() && ev.contact_normal.y < -GROUND_NORMAL_Y {
            world.bodies[root_a].grounded = Some(Grounded);
        }
        if world.bodies[root_b].player.is_some() && ev.contact_normal.y > GROUND_NORMAL_Y {
            world.bodies[root_b].grounded = Some(Grounded);
        }
        proof {
            let s = world.bodies@;
            assert forall|q: int| 0 <= q < s.len() implies (#[trigger] s[q]).ok(s.len() as int)
                && (s[q].parent is Some ==> s[s[q].parent->0 as int].parent is None) by {
                assert(pre[q].ok(pre.len() as int));
                if s[q].parent is Some {
                    let pp = s[q].parent->0 as int;
                    assert(s[pp].parent == pre[pp].parent);
                }
            }
            assert forall|k: int| 0 <= k < n implies (#[trigger] s[k]).grounded == (if s0[k].player
                is Some {
                if ground_contact_upto(s0, events@, k, t as int + 1) {
                    Some(Grounded)
                } else {
                    None
                }
            } else {
                s0[k].grounded
            }) by {
                if s0[k].player is Some {
                    if s[k].grounded is Some {
                        if pre[k].grounded is Some {
                            let w = choose|w: int|
                                0 <= w < t as int && ((root_of(
                                    s0,
                                    (#[trigger] events@[w]).entity_a as int,
                                ) == k && events@[w].contact_normal@.y < -GROUND_NORMAL_Y) || (
                                root_of(s0, events@[w].entity_b as int) == k
                                    && events@[w].contact_normal@.y > GROUND_NORMAL_Y));
                            assert(ground_contact_upto(s0, events@, k, t as int + 1));
                        } else {
                            assert(ground_contact_upto(s0, events@, k, t as int + 1));
                        }
                    } else {
                        assert(!ground_contact_upto(s0, events@, k, t as int));
                        assert(!((root_of(s0, events@[t as int].entity_a as int) == k
                            && events@[t as int].contact_normal@.y < -GROUND_NORMAL_Y) || (root_of(
                            s0,
                            events@[t as int].entity_b as int,
                        ) == k && events@[t as int].contact_normal@.y > GROUND_NORMAL_Y)));
                        assert(!ground_contact_upto(s0, events@, k, t as int + 1));
                    }
                }
            }
        }
        t = t + 1;
    }
    proof {
        assert forall|k: int|
            0 <= k < n && ground_contact_upto(s0, events@, k, events@.len() as int) implies
            ground_contact(s0, events@, k) by {}
        assert forall|k: int| 0 <= k < n && ground_contact(s0, events@, k) implies
            ground_contact_upto(s0, events@, k, events@.len() as int) by {}
    }
}

/// Ground contact among the first `m` events only.
pub open spec fn ground_contact_upto(
    s: Seq<Body>,
    events: Seq<CollisionEvent>,
    k: int,
    m: int,
) -> bool {
    exists|t: int|
        0 <= t < m && t < events.len() && ((root_of(s, (#[trigger] events[t]).entity_a as int) == k
            && events[t].contact_normal@.y < -GROUND_NORMAL_Y) || (root_of(
            s,
            events[t].entity_b as int,
        ) == k && events[t].contact_normal@.y > GROUND_NORMAL_Y))
}

} // verus!
