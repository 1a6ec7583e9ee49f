//! What reaches the engine from outside during one tick.

use vstd::prelude::*;
use crate::component::Velocity;
use crate::random::{burst_fits, random_burst, within_speed, BURST_COUNT, BURST_SPEED};

verus! {

/// The state of the keys and the pointer at the start of a tick, and the
/// velocities drawn for the particles of this tick's burst.
pub struct TickInput {
    pub key_right: bool,
    pub key_left: bool,
    pub key_up: bool,
    pub key_down: bool,
    /// Where the pointer is.
    pub mouse_x: i32,
    pub mouse_y: i32,
    /// Whether the primary button went down since the last tick.
    pub mouse_pressed: bool,
    /// One velocity for each particle of a burst, none faster than a particle
    /// may be.
    pub burst: Vec<Velocity>,
}

/// What a tick's input holds.
pub struct InputView {
    pub key_right: bool,
    pub key_left: bool,
    pub key_up: bool,
    pub key_down: bool,
    pub mouse_x: i32,
    pub mouse_y: i32,
    pub mouse_pressed: bool,
    pub burst: Seq<Velocity>,
}

impl View for TickInput {
    type V = InputView;

    open spec fn view(&self) -> InputView {
        InputView {
            key_right: self.key_right,
            key_left: self.key_left,
            key_up: self.key_up,
            key_down: self.key_down,
            mouse_x: self.mouse_x,
            mouse_y: self.mouse_y,
            mouse_pressed: self.mouse_pressed,
            burst: self.burst@,
        }
    }
}

impl InputView {
    /// The burst holds one velocity for each particle, and none of them is
    /// faster than a particle may be.
    pub open spec fn wf(self) -> bool {
        burst_fits(self.burst)
    }
}

/// A burst whose particles all start at rest.
pub open spec fn burst_at_rest() -> Seq<Velocity> {
    Seq::new(BURST_COUNT as nat, |i: int| Velocity { vx: 0, vy: 0 })
}

impl TickInput {
    /// No key held, the pointer at the origin, no button pressed, and a
    /// burst whose particles start at rest.
    pub fn idle() -> (input: Self)
        ensures
            input@ == (InputView {
                key_right: false,
                key_left: false,
                key_up: false,
                key_down: false,
                mouse_x: 0,
                mouse_y: 0,
                mouse_pressed: false,
                burst: burst_at_rest(),
            }),
            input@.wf(),
    {
        let mut burst: Vec<Velocity> = Vec::new();
        let mut i: usize = 0;
        while i < BURST_COUNT
            invariant
                i <= BURST_COUNT,
                burst@.len() == i,
                forall|j: int| 0 <= j < i ==> burst@[j] == (Velocity { vx: 0, vy: 0 }),
            decreases BURST_COUNT - i,
        {
            burst.push(Velocity { vx: 0, vy: 0 });
            i = i + 1;
        }
        assert(burst@ =~= burst_at_rest());
        TickInput {
            key_right: false,
            key_left: false,
            key_up: false,
            key_down: false,
            mouse_x: 0,
            mouse_y: 0,
            mouse_pressed: false,
            burst,
        }
    }

    /// The input of a tick with the given keys and pointer, and with a
    /// burst drawn at random: one velocity for each particle, none faster
    /// than a particle may be.
    pub fn new(
        key_right: bool,
        key_left: bool,
        key_up: bool,
        key_down: bool,
        mouse_x: i32,
        mouse_y: i32,
        mouse_pressed: bool,
    ) -> (input: Self)
        ensures
            input@.key_right == key_right,
            input@.key_left == key_left,
            input@.key_up == key_up,
            input@.key_down == key_down,
            input@.mouse_x == mouse_x,
            input@.mouse_y == mouse_y,
            input@.mouse_pressed == mouse_pressed,
            input@.wf(),
    {
        TickInput {
            key_right,
            key_left,
            key_up,
            key_down,
            mouse_x,
            mouse_y,
            mouse_pressed,
            burst: random_burst(BURST_COUNT, BURST_SPEED),
        }
    }

    /// Whether the burst holds one velocity for each particle, none faster
    /// than a particle may be.
    pub fn is_valid(&self) -> (b: bool)
        ensures
            b == self@.wf(),
    {
        if self.burst.len() != BURST_COUNT {
            return false;
        }
        let mut i: usize = 0;
        while i < self.burst.len()
            invariant
                i <= self.burst@.len(),
                forall|j: int|
                    0 <= j < i ==> within_speed(#[trigger] self.burst@[j], BURST_SPEED as int),
            decreases self.burst@.len() - i,
        {
            let v = self.burst[i];
            if v.vx < -BURST_SPEED || v.vx > BURST_SPEED || v.vy < -BURST_SPEED || v.vy
                > BURST_SPEED {
                return false;
            }
            i = i + 1;
        }
        true
    }
}

} // verus!
