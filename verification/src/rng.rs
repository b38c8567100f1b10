//! The one source of chance the simulation consumes: a random byte that
//! picks the enemy column to fire from.

use vstd::prelude::*;

verus! {

/// Relies on `rand::random`: draws a value from the thread-local generator.
/// Nothing is promised of the result; every caller must hold for every value.
pub assume_specification<T>[ rand::random::<T> ]() -> (r: T)
    where
        rand::distributions::Standard: rand::distributions::Distribution<T>,
;

/// Draws the random byte one tick consumes. No value is promised: the
/// simulation step is verified for every byte this may return.
pub fn random_byte() -> u8 {
    rand::random::<u8>()
}

} // verus!
