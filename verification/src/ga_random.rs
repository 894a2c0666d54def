//! A seedable, reusable source of uniform integers, passed explicitly into
//! every operation that needs randomness. There is no global generator: two
//! contexts created from the same seed produce the same draws, so runs are
//! reproducible.

use vstd::prelude::*;

verus! {

/// Multiplier of the linear-congruential step (Knuth's MMIX constant).
pub const GA_RANDOM_MULTIPLIER: u64 = 6364136223846793005;

/// Increment of the linear-congruential step (Knuth's MMIX constant).
pub const GA_RANDOM_INCREMENT: u64 = 1442695040888963407;

/// The state that follows `s` in the linear-congruential sequence.
pub open spec fn lcg_next(s: u64) -> u64 {
    ((s * GA_RANDOM_MULTIPLIER + GA_RANDOM_INCREMENT) % 0x1_0000_0000_0000_0000) as u64
}

/// The draw produced from state `s`: the high 32 bits of the successor state,
/// reduced modulo `bound`.
pub open spec fn lcg_draw(s: u64, bound: u64) -> u64 {
    (lcg_next(s) / 0x1_0000_0000) % bound
}

/// Probabilities are fixed-point values in millionths: this constant stands
/// for certainty.
pub const GA_PROBABILITY_ONE: u32 = 1_000_000;

/// The draw produced from state `s` when two successive states are combined
/// into one 128-bit value and reduced modulo `bound`.
pub open spec fn lcg_draw_wide(s: u64, bound: i128) -> int {
    let s1 = lcg_next(s);
    let s2 = lcg_next(s1);
    (s1 * 0x1_0000_0000_0000_0000 + s2) % (bound as int)
}

/// An explicit random context: a linear-congruential generator whose whole
/// state is one 64-bit word.
pub struct GARandomCtx {
    state: u64,
}

/// The context whose state is `s`: the whole generator is that one word, so
/// this names random contexts in specifications.
pub closed spec fn ctx_with(s: u64) -> GARandomCtx {
    GARandomCtx { state: s }
}

/// `ctx_with` and `state_spec` are inverses: a context is nothing but its
/// state.
pub proof fn lemma_ctx_with(ctx: GARandomCtx)
    ensures
        ctx == ctx_with(ctx.state_spec()),
        ctx_with(ctx.state_spec()).state_spec() == ctx.state_spec(),
{
}

impl GARandomCtx {
    /// The current state of the generator.
    pub closed spec fn state_spec(&self) -> u64 {
        self.state
    }

    /// Creates a context whose draws are determined by `seed` alone.
    pub fn new(seed: u64) -> (ctx: GARandomCtx)
        ensures
            ctx.state_spec() == seed,
    {
        GARandomCtx { state: seed }
    }

    /// Advances the generator one step and returns the new state.
    pub fn next_u64(&mut self) -> (r: u64)
        ensures
            final(self).state_spec() == lcg_next(old(self).state_spec()),
            r == final(self).state_spec(),
    {
        proof {
            vstd::arithmetic::mul::lemma_mul_inequality(
                self.state as int,
                0xffff_ffff_ffff_ffff as int,
                GA_RANDOM_MULTIPLIER as int,
            );
        }
        let wide: u128 = (self.state as u128) * (GA_RANDOM_MULTIPLIER as u128) + (
        GA_RANDOM_INCREMENT as u128);
        let next: u128 = wide % 0x1_0000_0000_0000_0000;
        proof {
            vstd::arithmetic::div_mod::lemma_mod_bound(
                wide as int,
                0x1_0000_0000_0000_0000 as int,
            );
        }
        self.state = next as u64;
        self.state
    }

    /// Draws a value uniformly below `bound`.
    pub fn next_below(&mut self, bound: u64) -> (r: u64)
        requires
            bound >= 1,
        ensures
            final(self).state_spec() == lcg_next(old(self).state_spec()),
            r == lcg_draw(old(self).state_spec(), bound),
            r < bound,
    {
        let s = self.next_u64();
        let r = (s / 0x1_0000_0000) % bound;
        proof {
            vstd::arithmetic::div_mod::lemma_mod_bound((s / 0x1_0000_0000) as int, bound as int);
        }
        r
    }

    /// Draws a value uniformly below `bound`, combining two successor states
    /// so that bounds wider than one word are served too.
    pub fn next_wide_below(&mut self, bound: i128) -> (r: i128)
        requires
            bound >= 1,
        ensures
            final(self).state_spec() == lcg_next(lcg_next(old(self).state_spec())),
            r == lcg_draw_wide(old(self).state_spec(), bound),
            0 <= r < bound,
    {
        let s1 = self.next_u64();
        let s2 = self.next_u64();
        let wide: u128 = (s1 as u128) * 0x1_0000_0000_0000_0000 + (s2 as u128);
        proof {
            vstd::arithmetic::mul::lemma_mul_inequality(
                s1 as int,
                0xffff_ffff_ffff_ffff as int,
                0x1_0000_0000_0000_0000 as int,
            );
            vstd::arithmetic::div_mod::lemma_mod_bound(wide as int, bound as int);
        }
        let r: u128 = wide % (bound as u128);
        r as i128
    }

    /// Decides an event of probability `p` (in millionths): true on a draw
    /// strictly below `p`.
    pub fn flip(&mut self, p: u32) -> (r: bool)
        ensures
            final(self).state_spec() == lcg_next(old(self).state_spec()),
            r == (lcg_draw(old(self).state_spec(), GA_PROBABILITY_ONE as u64) < p),
    {
        let draw = self.next_below(GA_PROBABILITY_ONE as u64);
        draw < (p as u64)
    }
}

} // verus!
