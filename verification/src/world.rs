//! The entity store: a flat arena of bodies with optional components and a
//! depth-one parent hierarchy (children attach directly under a root, which
//! is how characters carry limbs and held objects).

use vstd::prelude::*;
use crate::components::LocalTransform;
use crate::components::GlobalTransform;
use crate::components::Velocity;
use crate::components::Acceleration;
use crate::components::Mass;
use crate::components::GravityAffected;
use crate::components::Drag;
use crate::components::Restitution;
use crate::components::Friction;
use crate::components::Collider;
use crate::components::Static;
use crate::components::Held;
use crate::components::Grabbable;
use crate::components::Player;
use crate::components::Grounded;
use crate::components::PreviousPosition;
use crate::components::NoSelfCollision;
use crate::components::MeshHandle;
use crate::components::Hidden;
use crate::math::Vec3;
use crate::math::V3;
use crate::math::R2;
use crate::math::clamp_i64;
use crate::math::clamp_v3;
use crate::math::from_local_fine_spec;
use crate::math::rot_from_local_fine_spec;
use crate::math::lerp_fix;
use crate::math::lerp_v3;
use crate::math::lemma_mul_bound;
use crate::math::lemma_tdiv_le;
use crate::math::Rot;
use crate::math::rot_identity;
use crate::math::MAX_COORD;
use crate::math::ROT_LIM;
use crate::math::FINE_ROT_LIM;
use crate::math::SCALE;

verus! {

/// Magnitude bound on child-local (fine scale) positions.
pub const FINE_POS_LIM: i64 = 8 * ROT_LIM * MAX_COORD;

/// Magnitude bound on the components of a computed child world rotation.
pub const GLOBAL_ROT_LIM: i64 = 32_000;

/// One entity: a transform plus optional components, ECS style.
pub struct Body {
    pub local: LocalTransform,
    pub global: GlobalTransform,
    pub parent: Option<usize>,
    pub children: Vec<usize>,
    pub velocity: Option<Velocity>,
    pub acceleration: Option<Acceleration>,
    pub mass: Option<Mass>,
    pub gravity: Option<GravityAffected>,
    pub drag: Option<Drag>,
    pub restitution: Option<Restitution>,
    pub friction: Option<Friction>,
    pub collider: Option<Collider>,
    pub static_body: Option<Static>,
    pub held: Option<Held>,
    pub grabbable: Option<Grabbable>,
    pub player: Option<Player>,
    pub grounded: Option<Grounded>,
    pub prev_position: Option<PreviousPosition>,
    pub owner: Option<NoSelfCollision>,
    pub mesh: Option<MeshHandle>,
    pub hidden: Option<Hidden>,
}

impl Body {
    /// Per-body bounds for an arena of `n` entities. Root-local poses are
    /// world scale; child-local poses are fine scale.
    pub open spec fn ok(self, n: int) -> bool {
        &&& match self.parent {
            Some(p) => {
                &&& p < n
                &&& self.local.position@.bounded(FINE_POS_LIM as int)
                &&& -(FINE_ROT_LIM as int) <= self.local.rotation@.c <= FINE_ROT_LIM as int
                &&& -(FINE_ROT_LIM as int) <= self.local.rotation@.s <= FINE_ROT_LIM as int
            },
            None => {
                &&& self.local.position@.bounded(MAX_COORD as int)
                &&& self.local.rotation@.bounded()
            },
        }
        &&& self.global.position@.bounded(MAX_COORD as int)
        &&& -(GLOBAL_ROT_LIM as int) <= self.global.rotation@.c <= GLOBAL_ROT_LIM as int
        &&& -(GLOBAL_ROT_LIM as int) <= self.global.rotation@.s <= GLOBAL_ROT_LIM as int
        &&& (self.velocity is Some ==> (self.velocity->0).0@.bounded(MAX_COORD as int))
        &&& (self.acceleration is Some ==> (self.acceleration->0).0@.bounded(MAX_COORD as int))
        &&& (self.drag is Some ==> 0 <= (self.drag->0).0 <= 1_000_000)
        &&& (self.restitution is Some ==> 0 <= (self.restitution->0).0 <= SCALE)
        &&& (self.friction is Some ==> 0 <= (self.friction->0).0 <= SCALE)
        &&& (self.collider is Some ==> (self.collider->0).wf())
        &&& (self.prev_position is Some ==> (self.prev_position->0).0@.bounded(MAX_COORD as int))
        &&& (self.owner is Some ==> (self.owner->0).0 < n)
        &&& (forall|k: int| 0 <= k < self.children@.len() ==> self.children@[k] < n)
    }

    /// A fresh root body at `position` with no components attached.
    pub fn new(position: Vec3) -> (r: Body)
        requires
            position@.bounded(MAX_COORD as int),
        ensures
            r.ok(0),
            r.parent is None,
            r.local.position == position,
            r.local.rotation@ == rot_identity(),
            r.children@.len() == 0,
            r.velocity is None,
            r.acceleration is None,
            r.mass is None,
            r.gravity is None,
            r.drag is None,
            r.restitution is None,
            r.friction is None,
            r.collider is None,
            r.static_body is None,
            r.held is None,
            r.grabbable is None,
            r.player is None,
            r.grounded is None,
            r.prev_position is None,
            r.owner is None,
            r.mesh is None,
            r.hidden is None,
    {
        Body {
            local: LocalTransform::new(position),
            global: GlobalTransform { position, rotation: Rot::identity() },
            parent: None,
            children: Vec::new(),
            velocity: None,
            acceleration: None,
            mass: None,
            gravity: None,
            drag: None,
            restitution: None,
            friction: None,
            collider: None,
            static_body: None,
            held: None,
            grabbable: None,
            player: None,
            grounded: None,
            prev_position: None,
            owner: None,
            mesh: None,
            hidden: None,
        }
    }
}

/// All bodies in range for the arena, and every parent is itself a root
/// (the hierarchy has depth at most one).
pub open spec fn wf_seq(s: Seq<Body>) -> bool {
    forall|i: int|
        0 <= i < s.len() ==> (#[trigger] s[i]).ok(s.len() as int) && (s[i].parent is Some
            ==> s[s[i].parent->0 as int].parent is None)
}

/// The world: a flat arena of entities indexed by spawn order.
pub struct World {
    pub bodies: Vec<Body>,
}

impl World {
    pub open spec fn wf(self) -> bool {
        wf_seq(self.bodies@)
    }

    pub open spec fn n(self) -> int {
        self.bodies@.len() as int
    }

    pub fn new() -> (w: World)
        ensures
            w.wf(),
            w.n() == 0,
    {
        World { bodies: Vec::new() }
    }

    pub fn len(&self) -> (n: usize)
        ensures
            n == self.n(),
    {
        self.bodies.len()
    }

    /// Add a root body with no children; returns its entity id.
    pub fn spawn(&mut self, b: Body) -> (e: usize)
        requires
            old(self).wf(),
            b.ok(old(self).n() + 1),
            b.parent is None,
            b.children@.len() == 0,
        ensures
            final(self).wf(),
            final(self).n() == old(self).n() + 1,
            e == old(self).n(),
            final(self).bodies@ == old(self).bodies@.push(b),
    {
        let e = self.bodies.len();
        self.bodies.push(b);
        proof {
            let s = self.bodies@;
            assert forall|i: int| 0 <= i < s.len() implies (#[trigger] s[i]).ok(s.len() as int) && (
            s[i].parent is Some ==> s[s[i].parent->0 as int].parent is None) by {
                if i < s.len() - 1 {
                    assert(old(self).bodies@[i].ok(old(self).n()));
                    lemma_ok_larger(s[i], old(self).n(), s.len() as int);
                }
            }
        }
        e
    }

    /// The root that owns physics for `e`: its parent if it has one, else `e`
    /// itself. Walks the parent chain, which has depth at most one.
    pub fn find_physics_root(&self, e: usize) -> (r: usize)
        requires
            self.wf(),
            e < self.n(),
        ensures
            r == root_of(self.bodies@, e as int),
            r < self.n(),
            self.bodies@[r as int].parent is None,
    {
        match self.bodies[e].parent {
            Some(p) => p,
            None => e,
        }
    }

    /// Attach `child` under `parent`. The child must itself be a root with no
    /// children of its own, so the hierarchy keeps depth one.
    pub fn add_child(&mut self, parent: usize, child: usize)
        requires
            old(self).wf(),
            parent < old(self).n(),
            child < old(self).n(),
            parent != child,
            old(self).bodies@[parent as int].parent is None,
            old(self).bodies@[child as int].parent is None,
            forall|k: int|
                0 <= k < old(self).n() ==> (#[trigger] old(self).bodies@[k]).parent != Some(child),
        ensures
            final(self).wf(),
            final(self).n() == old(self).n(),
            final(self).bodies@[child as int].parent == Some(parent),
            final(self).bodies@[child as int].local == old(self).bodies@[child as int].local,
            forall|k: int|
                0 <= k < old(self).n() && k != child && k != parent ==> final(self).bodies@[k]
                    == old(self).bodies@[k],
            final(self).bodies@[parent as int].local == old(self).bodies@[parent as int].local,
            final(self).bodies@[parent as int].parent is None,
            final(self).bodies@[child as int].velocity == old(self).bodies@[child as int].velocity,
            final(self).bodies@[child as int].global == old(self).bodies@[child as int].global,
            final(self).bodies@[child as int].collider == old(self).bodies@[child as int].collider,
            final(self).bodies@[parent as int].velocity == old(
                self,
            ).bodies@[parent as int].velocity,
            same_except_children(old(self).bodies@[parent as int], final(self).bodies@[parent as int]),
            same_except_parent(old(self).bodies@[child as int], final(self).bodies@[child as int]),
            final(self).bodies@[parent as int].children@.contains(child),
    {
        let ghost pre = self.bodies@;
        let present = contains_id(&self.bodies[parent].children, child);
        if !present {
            self.bodies[parent].children.push(child);
            proof {
                let cs = self.bodies@[parent as int].children@;
                assert(cs[cs.len() - 1] == child);
                assert(cs.contains(child));
            }
        }
        self.bodies[child].parent = Some(parent);
        proof {
            let s = self.bodies@;
            assert(s[parent as int].ok(s.len() as int));
            assert forall|i: int| 0 <= i < s.len() implies (#[trigger] s[i]).ok(s.len() as int) && (
            s[i].parent is Some ==> s[s[i].parent->0 as int].parent is None) by {
                assert(pre[i].ok(pre.len() as int));
                if i == child as int {
                    assert(s[i].local == pre[i].local);
                    assert(s[i].local.position@.bounded(MAX_COORD as int));
                    assert(MAX_COORD <= FINE_POS_LIM);
                    assert(s[i].local.rotation@.bounded());
                    assert(ROT_LIM <= FINE_ROT_LIM);
                }
            }
        }
    }

    /// Detach `child` from `parent`, making it a root again. The caller must
    /// already have stored a world-scale pose in the child's local transform.
    pub fn remove_child(&mut self, parent: usize, child: usize)
        requires
            old(self).wf(),
            parent < old(self).n(),
            child < old(self).n(),
            parent != child,
            old(self).bodies@[child as int].local.position@.bounded(MAX_COORD as int),
            old(self).bodies@[child as int].local.rotation@.bounded(),
        ensures
            final(self).wf(),
            final(self).n() == old(self).n(),
            final(self).bodies@[child as int].parent is None,
            final(self).bodies@[child as int].local == old(self).bodies@[child as int].local,
            final(self).bodies@[child as int].velocity == old(self).bodies@[child as int].velocity,
            forall|k: int|
                0 <= k < old(self).n() && k != child && k != parent ==> final(self).bodies@[k]
                    == old(self).bodies@[k],
            final(self).bodies@[parent as int].local == old(self).bodies@[parent as int].local,
            final(self).bodies@[parent as int].parent == old(self).bodies@[parent as int].parent,
            same_except_children(old(self).bodies@[parent as int], final(self).bodies@[parent as int]),
            same_except_parent(old(self).bodies@[child as int], final(self).bodies@[child as int]),
            !final(self).bodies@[parent as int].children@.contains(child),
            forall|e: usize|
                final(self).bodies@[parent as int].children@.contains(e)
                    ==> old(self).bodies@[parent as int].children@.contains(e),
            forall|e: usize|
                old(self).bodies@[parent as int].children@.contains(e) && e != child
                    ==> final(self).bodies@[parent as int].children@.contains(e),
    {
        let ghost pre = self.bodies@;
        let kept = retain_without(&self.bodies[parent].children, child);
        self.bodies[parent].children = kept;
        self.bodies[child].parent = None;
        proof {
            let s = self.bodies@;
            assert forall|i: int| 0 <= i < s.len() implies (#[trigger] s[i]).ok(s.len() as int) && (
            s[i].parent is Some ==> s[s[i].parent->0 as int].parent is None) by {
                assert(pre[i].ok(pre.len() as int));
                if i == parent as int {
                    assert forall|k: int| 0 <= k < s[i].children@.len() implies #[trigger] s[i].children@[k]
                        < s.len() by {
                        let e = s[i].children@[k];
                        assert(s[i].children@.contains(e));
                        assert(pre[i].children@.contains(e));
                        let j = choose|j: int|
                            0 <= j < pre[i].children@.len() && pre[i].children@[j] == e;
                        assert(pre[i].children@[j] < pre.len());
                    }
                }
                if s[i].parent is Some {
                    let p = s[i].parent->0 as int;
                    assert(pre[i].parent == s[i].parent);
                    if p == child as int {
                    } else {
                        assert(s[p].parent == pre[p].parent);
                    }
                }
            }
        }
    }
}

/// Everything about a body except its children list.
pub open spec fn same_except_children(a: Body, b: Body) -> bool {
    b == (Body { children: b.children, ..a })
}

/// Everything about a body except its parent link.
pub open spec fn same_except_parent(a: Body, b: Body) -> bool {
    b == (Body { parent: b.parent, ..a })
}

/// The physics-owning root of entity `e` in a depth-one hierarchy.
pub open spec fn root_of(s: Seq<Body>, e: int) -> int {
    match s[e].parent {
        Some(p) => p as int,
        None => e,
    }
}

/// Whether `ids` contains `x`.
pub fn contains_id(ids: &Vec<usize>, x: usize) -> (r: bool)
    ensures
        r == ids@.contains(x),
{
    let mut i: usize = 0;
    while i < ids.len()
        invariant
            i <= ids@.len(),
            forall|k: int| 0 <= k < i ==> ids@[k] != x,
        decreases ids@.len() - i,
    {
        if ids[i] == x {
            return true;
        }
        i = i + 1;
    }
    false
}

/// A copy of `ids` with every occurrence of `x` removed, order kept.
pub fn retain_without(ids: &Vec<usize>, x: usize) -> (r: Vec<usize>)
    ensures
        !r@.contains(x),
        forall|e: usize| r@.contains(e) ==> ids@.contains(e),
        forall|e: usize| ids@.contains(e) && e != x ==> r@.contains(e),
{
    let mut r: Vec<usize> = Vec::new();
    let mut i: usize = 0;
    while i < ids.len()
        invariant
            i <= ids@.len(),
            forall|k: int| 0 <= k < r@.len() ==> r@[k] != x,
            forall|e: usize| r@.contains(e) ==> ids@.contains(e),
            forall|e: usize|
                (exists|k: int| 0 <= k < i && ids@[k] == e) && e != x ==> r@.contains(e),
        decreases ids@.len() - i,
    {
        let ghost pre = r@;
        if ids[i] != x {
            r.push(ids[i]);
            proof {
                assert(r@[r@.len() - 1] == ids@[i as int]);
                assert forall|e: usize| r@.contains(e) implies ids@.contains(e) by {
                    let k0 = choose|k0: int| 0 <= k0 < r@.len() && r@[k0] == e;
                    if k0 < pre.len() {
                        assert(pre[k0] == e);
                        assert(pre.contains(e));
                    } else {
                        assert(ids@[i as int] == e);
                    }
                }
                assert forall|e: usize|
                    (exists|k: int| 0 <= k < i + 1 && ids@[k] == e) && e != x implies r@.contains(
                    e,
                ) by {
                    let k0 = choose|k0: int| 0 <= k0 < i + 1 && ids@[k0] == e;
                    if k0 < i {
                        assert(exists|k: int| 0 <= k < i && ids@[k] == e) by {
                            assert(ids@[k0] == e);
                        }
                        assert(pre.contains(e));
                        let j0 = choose|j0: int| 0 <= j0 < pre.len() && pre[j0] == e;
                        assert(r@[j0] == e);
                        assert(r@.contains(e));
                    } else {
                        assert(r@[r@.len() - 1] == e);
                        assert(r@.contains(e));
                    }
                }
            }
        } else {
            proof {
                assert forall|e: usize|
                    (exists|k: int| 0 <= k < i + 1 && ids@[k] == e) && e != x implies r@.contains(
                    e,
                ) by {
                    let k0 = choose|k0: int| 0 <= k0 < i + 1 && ids@[k0] == e;
                    if k0 < i {
                    } else {
                        assert(e == x);
                    }
                }
            }
        }
        i = i + 1;
    }
    proof {
        assert forall|e: usize| ids@.contains(e) && e != x implies r@.contains(e) by {
            let k0 = choose|k0: int| 0 <= k0 < ids@.len() && ids@[k0] == e;
        }
        if r@.contains(x) {
            let k0 = choose|k0: int| 0 <= k0 < r@.len() && r@[k0] == x;
            assert(false);
        }
    }
    r
}

/// The first index of `x` in `ids`, if any.
pub fn find_id(ids: &Vec<usize>, x: usize) -> (r: Option<usize>)
    ensures
        match r {
            Some(k) => k < ids@.len() && ids@[k as int] == x,
            None => !ids@.contains(x),
        },
{
    let mut i: usize = 0;
    while i < ids.len()
        invariant
            i <= ids@.len(),
            forall|k: int| 0 <= k < i ==> ids@[k] != x,
        decreases ids@.len() - i,
    {
        if ids[i] == x {
            return Some(i);
        }
        i = i + 1;
    }
    None
}

/// `ok` is monotone in the arena size.
pub proof fn lemma_ok_larger(b: Body, n1: int, n2: int)
    requires
        b.ok(n1),
        n1 <= n2,
    ensures
        b.ok(n2),
{
}

} // verus!

verus! {

/// The interpolated world position of a root body: bodies carrying a
/// previous-position snapshot are lerped toward their current position by
/// the accumulator alpha, eliminating fixed-timestep jitter.
pub open spec fn root_pose_pos(b: Body, alpha: int) -> V3 {
    match b.prev_position {
        Some(p) => lerp_v3(p.0@, b.local.position@, alpha),
        None => b.local.position@,
    }
}

/// The world position of a child body under its root's pose.
pub open spec fn child_pose_pos(parent_pos: V3, parent_rot: R2, child_local: V3) -> V3 {
    clamp_v3(parent_pos.plus(from_local_fine_spec(parent_rot, child_local)), MAX_COORD as int)
}

/// Everything about a body except its computed global transform.
pub open spec fn same_except_global(a: Body, b: Body) -> bool {
    b == (Body { global: b.global, ..a })
}

impl World {
    /// Recompute every entity's world pose from the hierarchy: roots are
    /// interpolated by `alpha` between their previous and current physics
    /// positions; children combine their fine-scale local pose with their
    /// root's pose.
    pub fn transform_propagation_system(&mut self, alpha: i64)
        requires
            old(self).wf(),
            0 <= alpha <= SCALE,
        ensures
            final(self).wf(),
            final(self).n() == old(self).n(),
            forall|k: int|
                0 <= k < old(self).n() ==> same_except_global(
                    old(self).bodies@[k],
                    #[trigger] final(self).bodies@[k],
                ),
            forall|k: int|
                0 <= k < old(self).n() && old(self).bodies@[k].parent is None
                    ==> (#[trigger] final(self).bodies@[k]).global.position@ == root_pose_pos(
                    old(self).bodies@[k],
                    alpha as int,
                ) && final(self).bodies@[k].global.rotation == old(
                    self,
                ).bodies@[k].local.rotation,
            forall|k: int|
                0 <= k < old(self).n() && old(self).bodies@[k].parent is Some ==> {
                    let p = old(self).bodies@[k].parent->0 as int;
                    &&& (#[trigger] final(self).bodies@[k]).global.position@ == child_pose_pos(
                        root_pose_pos(old(self).bodies@[p], alpha as int),
                        old(self).bodies@[p].local.rotation@,
                        old(self).bodies@[k].local.position@,
                    )
                    &&& final(self).bodies@[k].global.rotation@ == rot_from_local_fine_spec(
                        old(self).bodies@[p].local.rotation@,
                        old(self).bodies@[k].local.rotation@,
                    )
                },
    {
        let ghost s0 = self.bodies@;
        let n = self.bodies.len();
        let mut i: usize = 0;
        while i < n
            invariant
                self.wf(),
                self.n() == n as int,
                n == s0.len(),
                i <= n,
                0 <= alpha <= SCALE,
                forall|k: int|
                    0 <= k < n ==> same_except_global(s0[k], #[trigger] self.bodies@[k]),
                forall|k: int| i <= k < n ==> self.bodies@[k] == s0[k],
                forall|k: int|
                    0 <= k < i && s0[k].parent is None
                        ==> (#[trigger] self.bodies@[k]).global.position@ == root_pose_pos(
                        s0[k],
                        alpha as int,
                    ) && self.bodies@[k].global.rotation == s0[k].local.rotation,
                forall|k: int|
                    0 <= k < i && s0[k].parent is Some ==> self.bodies@[k].global == s0[k].global,
            decreases n - i,
        {
            let ghost pre = self.bodies@;
            if self.bodies[i].parent.is_none() {
                let cur = self.bodies[i].local.position;
                let np = match &self.bodies[i].prev_position {
                    Some(p) => {
                        let prev = p.0;
                        Vec3 {
                            x: lerp_fix(prev.x, cur.x, alpha),
                            y: lerp_fix(prev.y, cur.y, alpha),
                            z: lerp_fix(prev.z, cur.z, alpha),
                        }
                    },
                    None => cur,
                };
                let rot = self.bodies[i].local.rotation;
                self.bodies[i].global = GlobalTransform { position: np, rotation: rot };
                proof {
                    lemma_wf_global_update(pre, self.bodies@, i as int);
                }
            }
            i = i + 1;
        }
        let ghost s1 = self.bodies@;
        let mut j: usize = 0;
        while j < n
            invariant
                self.wf(),
                self.n() == n as int,
                n == s0.len(),
                n == s1.len(),
                j <= n,
                0 <= alpha <= SCALE,
                forall|k: int|
                    0 <= k < n ==> same_except_global(s0[k], #[trigger] self.bodies@[k]),
                forall|k: int|
                    0 <= k < n && s0[k].parent is None
                        ==> (#[trigger] self.bodies@[k]).global.position@ == root_pose_pos(
                        s0[k],
                        alpha as int,
                    ) && self.bodies@[k].global.rotation == s0[k].local.rotation,
                forall|k: int|
                    0 <= k < j && s0[k].parent is Some ==> {
                        let p = s0[k].parent->0 as int;
                        &&& (#[trigger] self.bodies@[k]).global.position@ == child_pose_pos(
                            root_pose_pos(s0[p], alpha as int),
                            s0[p].local.rotation@,
                            s0[k].local.position@,
                        )
                        &&& self.bodies@[k].global.rotation@ == rot_from_local_fine_spec(
                            s0[p].local.rotation@,
                            s0[k].local.rotation@,
                        )
                    },
            decreases n - j,
        {
            let ghost pre = self.bodies@;
            match self.bodies[j].parent {
                Some(p) => {
                    proof {
                        assert(pre[j as int].ok(pre.len() as int));
                        assert(pre[p as int].parent is None);
                        assert(s0[p as int].parent is None);
                    }
                    let parent_pos = self.bodies[p].global.position;
                    let parent_rot = self.bodies[p].local.rotation;
                    let local = self.bodies[j].local.position;
                    let local_rot = self.bodies[j].local.rotation;
                    let off = parent_rot.from_local_fine(local);
                    proof {
                        let lim = 8 * ROT_LIM as int * MAX_COORD as int;
                        lemma_mul_bound(parent_rot@.c, ROT_LIM as int, local@.x, lim);
                        lemma_mul_bound(parent_rot@.s, ROT_LIM as int, local@.z, lim);
                        lemma_mul_bound(parent_rot@.s, ROT_LIM as int, local@.x, lim);
                        lemma_mul_bound(parent_rot@.c, ROT_LIM as int, local@.z, lim);
                        lemma_tdiv_le(
                            parent_rot@.c * local@.x - parent_rot@.s * local@.z,
                            SCALE as int * SCALE as int,
                            3_200_000_000_000,
                        );
                        lemma_tdiv_le(
                            parent_rot@.s * local@.x + parent_rot@.c * local@.z,
                            SCALE as int * SCALE as int,
                            3_200_000_000_000,
                        );
                        lemma_tdiv_le(local@.y, SCALE as int, 1_600_000_000_000);
                    }
                    let gp = Vec3 {
                        x: clamp_i64(parent_pos.x + off.x, MAX_COORD),
                        y: clamp_i64(parent_pos.y + off.y, MAX_COORD),
                        z: clamp_i64(parent_pos.z + off.z, MAX_COORD),
                    };
                    let gr = parent_rot.rot_from_local_fine(local_rot);
                    proof {
                        lemma_mul_bound(parent_rot@.c, ROT_LIM as int, local_rot@.c, FINE_ROT_LIM as int);
                        lemma_mul_bound(parent_rot@.s, ROT_LIM as int, local_rot@.s, FINE_ROT_LIM as int);
                        lemma_mul_bound(parent_rot@.s, ROT_LIM as int, local_rot@.c, FINE_ROT_LIM as int);
                        lemma_mul_bound(parent_rot@.c, ROT_LIM as int, local_rot@.s, FINE_ROT_LIM as int);
                        lemma_tdiv_le(
                            parent_rot@.c * local_rot@.c - parent_rot@.s * local_rot@.s,
                            SCALE as int * SCALE as int,
                            32_000,
                        );
                        lemma_tdiv_le(
                            parent_rot@.s * local_rot@.c + parent_rot@.c * local_rot@.s,
                            SCALE as int * SCALE as int,
                            32_000,
                        );
                    }
                    self.bodies[j].global = GlobalTransform { position: gp, rotation: gr };
                    proof {
                        lemma_wf_global_update(pre, self.bodies@, j as int);
                    }
                },
                None => {},
            }
            j = j + 1;
        }
    }
}

/// Updating only a body's global transform preserves well-formedness, as
/// long as the new global pose is in range.
proof fn lemma_wf_global_update(pre: Seq<Body>, s: Seq<Body>, i: int)
    requires
        wf_seq(pre),
        0 <= i < pre.len(),
        s.len() == pre.len(),
        forall|k: int| 0 <= k < s.len() && k != i ==> s[k] == pre[k],
        same_except_global(pre[i], s[i]),
        s[i].global.position@.bounded(MAX_COORD as int),
        -(GLOBAL_ROT_LIM as int) <= s[i].global.rotation@.c <= GLOBAL_ROT_LIM as int,
        -(GLOBAL_ROT_LIM as int) <= s[i].global.rotation@.s <= GLOBAL_ROT_LIM as int,
    ensures
        wf_seq(s),
{
    assert forall|k: int| 0 <= k < s.len() implies (#[trigger] s[k]).ok(s.len() as int) && (
    s[k].parent is Some ==> s[s[k].parent->0 as int].parent is None) by {
        assert(pre[k].ok(pre.len() as int));
        if s[k].parent is Some {
            let pp = s[k].parent->0 as int;
            assert(s[pp].parent == pre[pp].parent);
        }
    }
}

} // verus!
