//! The one source of randomness the verified code draws from. Every other
//! random quantity an algorithm consumes (Poisson counts, exponential
//! variates, decay factors) involves floating-point inversion and is handed in
//! by the driver as a plain fixed-point argument instead.

use vstd::prelude::*;
use crate::event::SCALE;

verus! {

/// Relies on rand::random: one fresh draw of the requested type from the
/// thread-local generator. Nothing is promised of the value; callers state
/// what holds of every outcome.
pub assume_specification<T>[ rand::random::<T> ]() -> (r: T)
    where
        rand::distributions::Standard: rand::distributions::Distribution<T>,
;

/// One draw from `[0, SCALE)`: a fixed-point variate on the unit interval,
/// reduced from a full-width random word.
pub fn sample_unit_ticks() -> (u: i64)
    ensures
        0 <= u < SCALE,
{
    let w: u64 = rand::random::<u64>();
    let t: u64 = w % (SCALE as u64);
    t as i64
}

} // verus!
