//! The pseudo-random source used for split-axis choice, scattering
//! perturbation and sampling jitter.  Nothing is promised of a drawn
//! value beyond its range; every function that consumes one states
//! what holds whatever was drawn.

use vstd::prelude::*;
use crate::fixed::SCALE;

verus! {

/// Relies on rand::random: a fresh value of the asked type from the
/// thread-local generator.  Nothing can be promised of its value.
pub assume_specification<T>[ rand::random::<T> ]() -> (r: T)
    where
        rand::distributions::Standard: rand::distributions::Distribution<T>,
;

/// A pseudo-random axis index.
pub fn rand_axis() -> (ax: usize)
    ensures
        ax < 3,
{
    (rand::random::<u64>() % 3) as usize
}

/// A pseudo-random fixed-point value in `[0, 1)`.
pub fn rand_unit() -> (r: i64)
    ensures
        0 <= r < SCALE,
{
    (rand::random::<u64>() % 65536) as i64
}

/// A pseudo-random index below `n`.
pub fn rand_below(n: u64) -> (r: usize)
    requires
        1 <= n <= 0x10000,
    ensures
        r < n,
{
    (rand::random::<u64>() % n) as usize
}

/// A pseudo-random fixed-point value in `[-1, 1]`.
pub fn rand_symmetric() -> (r: i64)
    ensures
        -SCALE <= r <= SCALE,
{
    let v: u64 = rand::random::<u64>() % 131073;
    (v as i64) - 65536
}

} // verus!
