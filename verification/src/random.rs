//! Draws of random values. Nothing is promised of what comes back beyond a
//! range, so everything proved downstream holds for every outcome.

use vstd::prelude::*;

use crate::ieee;

verus! {

/// The single in [0, 1) built from a draw's low fraction bits: laid under the
/// exponent of 1.0 they form a value in [1, 2), shifted down by one.
pub open spec fn unit_bits(f: u32) -> u32 {
    ieee::sub_bits((f & 0x007F_FFFF) | ieee::ONE_BITS, ieee::ONE_BITS)
}

/// Relies on rand::random: an arbitrary 32-bit value. Nothing is promised of
/// it.
#[verifier::external_body]
pub(crate) fn random_u32() -> u32 {
    rand::random::<u32>()
}

/// Relies on rand's Rng::gen_range over the thread-local generator: a value
/// drawn uniformly from `[0, bound)`. gen_range panics on an empty range, so
/// the bound must be positive.
#[verifier::external_body]
pub(crate) fn random_below(bound: usize) -> (r: usize)
    requires
        bound >= 1,
    ensures
        r < bound,
{
    rand::Rng::gen_range(&mut rand::thread_rng(), 0..bound)
}

/// A random single in [0, 1): 23 random fraction bits laid under the exponent
/// of 1.0 form a value in [1, 2), shifted down by one.
pub(crate) fn random_unit() -> (r: u32)
    ensures
        exists|f: u32| r == unit_bits(f),
{
    let f = random_u32();
    let r = ieee::sub_val((f & 0x007F_FFFF) | ieee::ONE_BITS, ieee::ONE_BITS);
    proof {
        assert(r == unit_bits(f));
    }
    r
}

} // verus!
