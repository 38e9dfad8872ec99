//! Verified gameplay-simulation core: fixed-timestep rigid-body physics with
//! narrow-phase collision detection over four primitive shapes, impulse-based
//! resolution with restitution and Coulomb friction, swept-sphere continuous
//! collision queries, a collision-aware grab-and-throw controller, and the
//! player locomotion state machine.
//!
//! All spatial state is fixed-point (`i64` milli-units) and all time is
//! integer microseconds, so every simulation step is exact and deterministic;
//! the contracts in each module pin the arithmetic down to the rounding.

pub mod math;
pub mod raycast;
pub mod fsm;
pub mod player;
pub mod collision;
pub mod physics;
pub mod components;
pub mod grab;
pub mod world;

pub use math::Vec3;
pub use math::SCALE;
