//! The random part of a tick: the velocities of the particles of a burst.

use vstd::prelude::*;
use rand::Rng;
use crate::component::Velocity;

verus! {

/// The number of particles in a burst.
pub const BURST_COUNT: usize = 9;

/// The most that a particle moves per tick, to the side and up or down.
pub const BURST_SPEED: i32 = 20;

/// Whether `v` moves by no more than `speed` to the side and by no more
/// than `speed` up or down.
pub open spec fn within_speed(v: Velocity, speed: int) -> bool {
    &&& -speed <= v.vx <= speed
    &&& -speed <= v.vy <= speed
}

/// Whether `burst` holds one velocity for each particle of a burst, none
/// faster than `BURST_SPEED` in either direction.
pub open spec fn burst_fits(burst: Seq<Velocity>) -> bool {
    &&& burst.len() == BURST_COUNT
    &&& forall|i: int|
        0 <= i < burst.len() ==> within_speed(#[trigger] burst[i], BURST_SPEED as int)
}

/// Draws a number from `lo` to `hi`, both included, with `random_range` of
/// the `rand` crate on the generator of the current thread. Believed, not
/// proved: the number lies in that range. Which number it is depends on
/// chance, so nothing more is said of it. The generator asks the operating
/// system for its seed when a thread first uses it.
#[verifier::external_body]
fn random_in_range(lo: i32, hi: i32) -> (r: i32)
    requires
        lo <= hi,
    ensures
        lo <= r <= hi,
{
    rand::rng().random_range(lo..=hi)
}

/// A velocity drawn at random that moves by no more than `speed` in
/// either direction.
pub fn random_velocity(speed: i32) -> (v: Velocity)
    requires
        0 <= speed,
    ensures
        within_speed(v, speed as int),
{
    let vx = random_in_range(-speed, speed);
    let vy = random_in_range(-speed, speed);
    Velocity { vx, vy }
}

/// The velocities for a burst of `count` particles, each drawn at random
/// and none faster than `speed` in either direction.
pub fn random_burst(count: usize, speed: i32) -> (burst: Vec<Velocity>)
    requires
        0 <= speed,
    ensures
        burst@.len() == count,
        forall|i: int| 0 <= i < count ==> within_speed(#[trigger] burst@[i], speed as int),
{
    let mut burst: Vec<Velocity> = Vec::new();
    let mut i: usize = 0;
    while i < count
        invariant
            0 <= speed,
            i <= count,
            burst@.len() == i,
            forall|j: int| 0 <= j < i ==> within_speed(#[trigger] burst@[j], speed as int),
        decreases count - i,
    {
        let v = random_velocity(speed);
        burst.push(v);
        i = i + 1;
    }
    burst
}

} // verus!
