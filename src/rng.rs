//! An explicit, seeded pseudo-random source: a 64-bit linear congruential
//! generator whose output is the high half of each new state.

use vstd::prelude::*;

verus! {

pub const MULTIPLIER: u64 = 6364136223846793005;

pub const INCREMENT: u64 = 1442695040888963407;

/// The state that follows `s`.
#[verifier::opaque]
pub open spec fn next_state(s: u64) -> u64 {
    s.wrapping_mul(MULTIPLIER).wrapping_add(INCREMENT)
}

/// The 32-bit value drawn from state `s`.
pub open spec fn output(s: u64) -> u32 {
    (next_state(s) >> 32u64) as u32
}

/// The value in `[0, n)` drawn from state `s`.
pub open spec fn draw_below(s: u64, n: u32) -> u32
    recommends
        n > 0,
{
    output(s) % n
}

pub struct Rng {
    state: u64,
}

impl View for Rng {
    type V = u64;

    closed spec fn view(&self) -> u64 {
        self.state
    }
}

impl Rng {
    /// A generator started from `seed`.
    pub fn new(seed: u64) -> (r: Rng)
        ensures
            r@ == seed,
    {
        Rng { state: seed }
    }

    /// Advances the state and returns the next 32-bit value.
    pub fn next_u32(&mut self) -> (r: u32)
        ensures
            final(self)@ == next_state(old(self)@),
            r == output(old(self)@),
    {
        proof {
            reveal(next_state);
        }
        self.state = self.state.wrapping_mul(MULTIPLIER).wrapping_add(INCREMENT);
        (self.state >> 32u64) as u32
    }

    /// Advances the state and returns a value in `[0, n)`.
    pub fn below(&mut self, n: u32) -> (r: u32)
        requires
            n > 0,
        ensures
            final(self)@ == next_state(old(self)@),
            r == draw_below(old(self)@, n),
            r < n,
    {
        let x = self.next_u32();
        x % n
    }
}

} // verus!
