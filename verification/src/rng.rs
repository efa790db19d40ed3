//! A seedable deterministic random stream.
//!
//! The whole simulation draws from one explicit stream so that a run is a
//! pure function of its seed.  The generator is a 64-bit linear
//! congruential step; bounded draws use the high bits of the new state.

use vstd::prelude::*;

verus! {

/// Multiplier of the congruential step.
pub const LCG_MUL: u64 = 6364136223846793005;

/// Increment of the congruential step.
pub const LCG_INC: u64 = 1442695040888963407;

/// One step of the generator: `state * LCG_MUL + LCG_INC` modulo `2^64`.
pub open spec fn spec_lcg(s: u64) -> u64 {
    ((s as int * LCG_MUL as int + LCG_INC as int) % 0x1_0000_0000_0000_0000) as u64
}

/// The state after `k` steps from `s`.
pub open spec fn lcg_iter(s: u64, k: nat) -> u64
    decreases k,
{
    if k == 0 {
        s
    } else {
        spec_lcg(lcg_iter(s, (k - 1) as nat))
    }
}

/// The value of a bounded draw made at state `s`: high bits of the next
/// state, reduced modulo `n`.
pub open spec fn draw_below(s: u64, n: u64) -> u64 {
    (spec_lcg(s) >> 33) % n
}

/// The value of the jitter draw made at state `s`: an integer in `[-2, 2]`.
pub open spec fn draw_jitter(s: u64) -> int {
    draw_below(s, 5) - 2
}

/// Stepping `a + b` times is stepping `a` times, then `b` times.
pub proof fn lemma_lcg_iter_add(s: u64, a: nat, b: nat)
    ensures
        lcg_iter(s, a + b) == lcg_iter(lcg_iter(s, a), b),
    decreases b,
{
    if b > 0 {
        lemma_lcg_iter_add(s, a, (b - 1) as nat);
    }
}

/// The explicit random stream: every draw advances `state` by one
/// congruential step and is a pure function of the new state.
pub struct RoverRng {
    pub state: u64,
}

impl RoverRng {
    /// A stream that will replay the same draws for the same seed.
    pub fn new(seed: u64) -> (r: RoverRng)
        ensures
            r.state == seed,
    {
        RoverRng { state: seed }
    }

    /// Advances the stream one step and returns the whole new state.
    pub fn next_u64(&mut self) -> (r: u64)
        ensures
            final(self).state == spec_lcg(old(self).state),
            r == final(self).state,
    {
        let s2 = step(self.state);
        self.state = s2;
        s2
    }

    /// A draw uniform over `0 .. n`.
    pub fn random_below(&mut self, n: u64) -> (r: u64)
        requires
            1 <= n,
        ensures
            final(self).state == spec_lcg(old(self).state),
            r == draw_below(old(self).state, n),
            r < n,
    {
        let s2 = step(self.state);
        self.state = s2;
        (s2 >> 33) % n
    }

    /// A draw uniform over the five threshold jitters `-2 ..= 2`.
    pub fn random_jitter(&mut self) -> (r: i32)
        ensures
            final(self).state == spec_lcg(old(self).state),
            r == draw_jitter(old(self).state),
            -2 <= r <= 2,
    {
        let d = self.random_below(5);
        (d as i32) - 2
    }
}

/// One congruential step, computed without overflow in 128 bits.
fn step(s: u64) -> (r: u64)
    ensures
        r == spec_lcg(s),
{
    proof {
        assert(s as int * LCG_MUL as int <= 0xFFFF_FFFF_FFFF_FFFFu64 as int * LCG_MUL as int)
            by (nonlinear_arith)
            requires
                s <= 0xFFFF_FFFF_FFFF_FFFFu64,
        ;
    }
    let wide: u128 = s as u128 * LCG_MUL as u128 + LCG_INC as u128;
    let r = (wide % 0x1_0000_0000_0000_0000u128) as u64;
    r
}

} // verus!
