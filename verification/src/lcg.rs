//! The 64-bit linear congruential generator used to seed workloads.

use vstd::prelude::*;

verus! {

/// Multiplier of the generator.
pub const LCG_MULTIPLIER: u64 = 6364136223846793005;

/// The state that follows `state`: `state * LCG_MULTIPLIER + 1`, reduced
/// modulo 2^64.
pub open spec fn lcg_step(state: u64) -> u64 {
    ((state * LCG_MULTIPLIER + 1) % 0x1_0000_0000_0000_0000) as u64
}

/// Advances the generator by one step and returns the new state.
pub fn lcg_next(state: &mut u64) -> (out: u64)
    ensures
        *final(state) == lcg_step(*old(state)),
        out == *final(state),
{
    *state = state.wrapping_mul(LCG_MULTIPLIER).wrapping_add(1);
    *state
}

} // verus!
