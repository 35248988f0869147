//! The source of randomness: a seeded generator of the `rand` crate.
//!
//! The generator is `StdRng`, which computes its stream from its seed alone;
//! whoever calls the library seeds it. Nothing is known here of a drawn value
//! but its type, so every function that draws states what holds whatever
//! came out, and what is done with the bits stands in functions that take
//! them as arguments.

use crate::fixed::{Fixed, ONE_RAW};
use rand::rngs::StdRng;
use rand::Rng;
use vstd::prelude::*;

verus! {

/// `rand::rngs::StdRng`, carried through verified code as an opaque value.
#[verifier::external_type_specification]
#[verifier::external_body]
pub struct ExStdRng(StdRng);

/// Calls `Rng::gen::<u32>` on the generator, which hands out the next 32
/// bits of its stream: the next word of the block that it holds, after
/// computing a new block from its own state where the old one is used up.
/// Nothing is claimed of the bits, nor of the generator afterwards.
#[verifier::external_body]
pub(crate) fn next_bits(rng: &mut StdRng) -> u32 {
    rng.gen::<u32>()
}

/// The scalar in `[0, 1)` whose 32 fractional bits are `bits`.
pub open spec fn unit_fraction_spec(bits: u32) -> Fixed {
    Fixed::saturating(bits as int)
}

/// Reads 32 bits as a scalar in `[0, 1)`: equally likely bits give equally
/// likely multiples of `2^-32`.
pub fn unit_fraction(bits: u32) -> (r: Fixed)
    ensures
        r == unit_fraction_spec(bits),
        r@ == bits,
        0 <= r@ < ONE_RAW,
{
    Fixed::from_raw(bits as i64)
}

/// Draws a scalar in `[0, 1)`.
pub fn random_unit(rng: &mut StdRng) -> (r: Fixed)
    ensures
        0 <= r@ < ONE_RAW,
{
    unit_fraction(next_bits(rng))
}

} // verus!
