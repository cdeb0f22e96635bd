use vstd::prelude::*;
use vstd::arithmetic::div_mod::lemma_add_mod_noop;

verus! {

/// Multiplier of the linear congruential generator.
pub const LCG_MULTIPLIER: u64 = 6364136223846793005;

/// Increment of the linear congruential generator.
pub const LCG_INCREMENT: u64 = 1442695040888963407;

/// The modulus of the generator: arithmetic on `u64` wraps at 2^64.
pub open spec fn lcg_modulus() -> nat {
    0x1_0000_0000_0000_0000
}

/// One step of the generator: `state * MULTIPLIER + INCREMENT` modulo 2^64.
#[verifier::opaque]
pub open spec fn lcg_step(state: u64) -> u64 {
    ((state as nat * LCG_MULTIPLIER as nat + LCG_INCREMENT as nat) % lcg_modulus()) as u64
}

/// The state after `n` steps of the generator from `state`; the draws of a
/// generator seeded with `s` are `lcg_iter(s, 1)`, `lcg_iter(s, 2)`, ...
pub open spec fn lcg_iter(state: u64, n: nat) -> u64
    decreases n,
{
    if n == 0 {
        state
    } else {
        lcg_step(lcg_iter(state, (n - 1) as nat))
    }
}

/// `b` steps after `a` steps are `a + b` steps.
pub proof fn lemma_lcg_iter_add(state: u64, a: nat, b: nat)
    ensures
        lcg_iter(lcg_iter(state, a), b) == lcg_iter(state, a + b),
    decreases b,
{
    if b > 0 {
        lemma_lcg_iter_add(state, a, (b - 1) as nat);
    }
}

/// Advances the generator held in `state` by one step and returns the new state,
/// which is also the number drawn.
pub fn lcg_next(state: &mut u64) -> (r: u64)
    ensures
        *final(state) == lcg_step(*old(state)),
        r == *final(state),
{
    let s: u64 = *state;
    let m: u64 = s.wrapping_mul(LCG_MULTIPLIER);
    let n: u64 = m.wrapping_add(LCG_INCREMENT);
    proof {
        reveal(lcg_step);
        let p: int = s as int * LCG_MULTIPLIER as int;
        let md: int = lcg_modulus() as int;
        assert(m as int == p % md);
        assert(n as int == (m as int + LCG_INCREMENT as int) % md) by {
            assert(0 <= m as int + LCG_INCREMENT as int);
            assert((m as int + LCG_INCREMENT as int) < 2 * md);
        }
        lemma_add_mod_noop(p, LCG_INCREMENT as int, md);
        assert((LCG_INCREMENT as int) % md == LCG_INCREMENT as int);
        assert((m as int + LCG_INCREMENT as int) % md == (p + LCG_INCREMENT as int) % md) by {
            assert((m as int % md) == m as int);
        }
    }
    *state = n;
    n
}

} // verus!
