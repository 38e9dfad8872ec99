//! Minimal finite-state-machine container for the player locomotion states.
//!
//! The machine tracks the current state, the previous state, and how long it
//! has been in the current state. Transition logic deliberately lives outside
//! the machine, in the locomotion system that drives it.

use vstd::prelude::*;
use crate::components::PlayerState;

verus! {

/// Two states carry the same variant, ignoring any embedded data.
pub open spec fn same_variant(a: PlayerState, b: PlayerState) -> bool {
    match (a, b) {
        (PlayerState::Idle, PlayerState::Idle) => true,
        (PlayerState::Walking, PlayerState::Walking) => true,
        (PlayerState::Running, PlayerState::Running) => true,
        (PlayerState::Dashing { .. }, PlayerState::Dashing { .. }) => true,
        (PlayerState::Jumping { .. }, PlayerState::Jumping { .. }) => true,
        (PlayerState::Falling, PlayerState::Falling) => true,
        (PlayerState::Landing { .. }, PlayerState::Landing { .. }) => true,
        (PlayerState::Sheathing { .. }, PlayerState::Sheathing { .. }) => true,
        (PlayerState::Unsheathing { .. }, PlayerState::Unsheathing { .. }) => true,
        _ => false,
    }
}

/// Whether two player states carry the same variant.
pub fn is_same_variant(a: &PlayerState, b: &PlayerState) -> (r: bool)
    ensures
        r == same_variant(*a, *b),
{
    match (a, b) {
        (PlayerState::Idle, PlayerState::Idle) => true,
        (PlayerState::Walking, PlayerState::Walking) => true,
        (PlayerState::Running, PlayerState::Running) => true,
        (PlayerState::Dashing { .. }, PlayerState::Dashing { .. }) => true,
        (PlayerState::Jumping { .. }, PlayerState::Jumping { .. }) => true,
        (PlayerState::Falling, PlayerState::Falling) => true,
        (PlayerState::Landing { .. }, PlayerState::Landing { .. }) => true,
        (PlayerState::Sheathing { .. }, PlayerState::Sheathing { .. }) => true,
        (PlayerState::Unsheathing { .. }, PlayerState::Unsheathing { .. }) => true,
        _ => false,
    }
}

/// State-machine container: current and previous state, the time spent in
/// the current state (microseconds), and a one-frame entry flag.
#[derive(Clone, Copy, PartialEq, Eq, Structural, Debug)]
pub struct StateMachine {
    pub state: PlayerState,
    pub previous: PlayerState,
    /// Microseconds spent in the current state; reset on each transition.
    pub elapsed: u64,
    pub entered_this_frame: bool,
}

impl StateMachine {
    /// A machine starting in `initial`; `just_entered` reads true until the
    /// first tick.
    pub fn new(initial: PlayerState) -> (r: StateMachine)
        ensures
            r.state == initial,
            r.previous == initial,
            r.elapsed == 0,
            r.entered_this_frame,
    {
        StateMachine { state: initial, previous: initial, elapsed: 0, entered_this_frame: true }
    }

    /// Transition to `next` only if it is a different variant from the
    /// current state; reset the elapsed timer and raise the entry flag.
    pub fn go(&mut self, next: PlayerState)
        ensures
            !same_variant(old(self).state, next) ==> *final(self) == (StateMachine {
                state: next,
                previous: old(self).state,
                elapsed: 0,
                entered_this_frame: true,
            }),
            same_variant(old(self).state, next) ==> *final(self) == *old(self),
    {
        if !is_same_variant(&self.state, &next) {
            self.previous = self.state;
            self.state = next;
            self.elapsed = 0;
            self.entered_this_frame = true;
        }
    }

    /// Like [`StateMachine::go`], but always transitions, even when the
    /// variant is the same (restarting a dash in a new direction).
    pub fn force_go(&mut self, next: PlayerState)
        ensures
            *final(self) == (StateMachine {
                state: next,
                previous: old(self).state,
                elapsed: 0,
                entered_this_frame: true,
            }),
    {
        self.previous = self.state;
        self.state = next;
        self.elapsed = 0;
        self.entered_this_frame = true;
    }

    /// Advance the elapsed-in-state timer (saturating) and clear the entry
    /// flag. Call once per frame, before processing transitions.
    pub fn tick(&mut self, dt: u64)
        ensures
            final(self).state == old(self).state,
            final(self).previous == old(self).previous,
            final(self).elapsed == sat_add(old(self).elapsed, dt),
            !final(self).entered_this_frame,
    {
        self.elapsed = saturating_add_u64(self.elapsed, dt);
        self.entered_this_frame = false;
    }

    /// True only on the first frame after entering the current state.
    pub fn just_entered(&self) -> (r: bool)
        ensures
            r == self.entered_this_frame,
    {
        self.entered_this_frame
    }
}

/// Saturating unsigned addition.
pub open spec fn sat_add(a: u64, b: u64) -> u64 {
    if a + b <= u64::MAX {
        (a + b) as u64
    } else {
        u64::MAX
    }
}

pub fn saturating_add_u64(a: u64, b: u64) -> (r: u64)
    ensures
        r == sat_add(a, b),
{
    if a <= u64::MAX - b {
        a + b
    } else {
        u64::MAX
    }
}

} // verus!
