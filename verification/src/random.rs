//! Deterministic 64-bit mixing and the SplitMix64 sequence used to place
//! illustrative defect markers reproducibly.

use vstd::prelude::*;

verus! {

/// Odd constant added to the SplitMix64 state on every step.
pub const GOLDEN_GAMMA: u64 = 0x9e37_79b9_7f4a_7c15;

/// First mixing multiplier.
pub const MIX_MULTIPLIER_A: u64 = 0xbf58_476d_1ce4_e5b9;

/// Second mixing multiplier.
pub const MIX_MULTIPLIER_B: u64 = 0x94d0_49bb_1331_11eb;

/// Initial accumulator of the analysis seed.
pub const SEED_BASIS: u64 = 0x6a09_e667_f3bc_c909;

/// Addition modulo 2^64.
pub open spec fn add_mod64(x: u64, y: u64) -> u64 {
    vstd::wrapping::u64_specs::wrapping_add(x, y)
}

/// Multiplication modulo 2^64.
pub open spec fn mul_mod64(x: u64, y: u64) -> u64 {
    vstd::wrapping::u64_specs::wrapping_mul(x, y)
}

/// The finalizing mix of SplitMix64 applied to `state ^ (value + gamma)`.
pub open spec fn mix_spec(state: u64, value: u64) -> u64 {
    let m0 = state ^ add_mod64(value, GOLDEN_GAMMA);
    let m1 = mul_mod64(m0 ^ (m0 >> 30u64), MIX_MULTIPLIER_A);
    let m2 = mul_mod64(m1 ^ (m1 >> 27u64), MIX_MULTIPLIER_B);
    m2 ^ (m2 >> 31u64)
}

/// Mixes `value` into `state`.
pub fn mix(state: u64, value: u64) -> (mixed: u64)
    ensures
        mixed == mix_spec(state, value),
{
    let mut m: u64 = state ^ value.wrapping_add(GOLDEN_GAMMA);
    m = (m ^ (m >> 30u64)).wrapping_mul(MIX_MULTIPLIER_A);
    m = (m ^ (m >> 27u64)).wrapping_mul(MIX_MULTIPLIER_B);
    m ^ (m >> 31u64)
}

/// The accumulated seed of a word sequence: a left fold of `mix` from `SEED_BASIS`.
pub open spec fn seed_of(words: Seq<u64>) -> u64
    decreases words.len(),
{
    if words.len() == 0 {
        SEED_BASIS
    } else {
        mix_spec(seed_of(words.drop_last()), words.last())
    }
}

/// Folds the words, in order, into one reproducible seed.
pub fn analysis_seed(words: &[u64]) -> (seed: u64)
    ensures
        seed == seed_of(words@),
{
    let mut seed: u64 = SEED_BASIS;
    let mut i: usize = 0;
    while i < words.len()
        invariant
            i <= words.len(),
            seed == seed_of(words@.take(i as int)),
        decreases words.len() - i,
    {
        proof {
            assert(words@.take(i + 1).drop_last() =~= words@.take(i as int));
        }
        seed = mix(seed, words[i]);
        i = i + 1;
    }
    proof {
        assert(words@.take(words@.len() as int) =~= words@);
    }
    seed
}

/// The SplitMix64 state after `steps` draws from `seed`.
pub open spec fn splitmix_state(seed: u64, steps: nat) -> u64
    decreases steps,
{
    if steps == 0 {
        seed
    } else {
        add_mod64(splitmix_state(seed, (steps - 1) as nat), GOLDEN_GAMMA)
    }
}

/// The `draw`-th output (counting from zero) of SplitMix64 seeded with `seed`.
pub open spec fn splitmix_output(seed: u64, draw: nat) -> u64 {
    mix_spec(0, splitmix_state(seed, draw + 1))
}

/// SplitMix64 pseudo-random generator.
pub struct SplitMix64 {
    state: u64,
}

impl SplitMix64 {
    /// The current internal state.
    pub closed spec fn state(&self) -> u64 {
        self.state
    }

    /// Starts the sequence at `seed`.
    pub fn new(seed: u64) -> (generator: Self)
        ensures
            generator.state() == seed,
    {
        SplitMix64 { state: seed }
    }

    /// Advances the state and returns the next output.
    pub fn next(&mut self) -> (value: u64)
        ensures
            final(self).state() == add_mod64(old(self).state(), GOLDEN_GAMMA),
            value == mix_spec(0, final(self).state()),
    {
        self.state = self.state.wrapping_add(GOLDEN_GAMMA);
        mix(0, self.state)
    }

    /// Returns the next output reduced modulo `upper_bound`.
    pub fn index(&mut self, upper_bound: usize) -> (index: usize)
        requires
            upper_bound > 0,
        ensures
            final(self).state() == add_mod64(old(self).state(), GOLDEN_GAMMA),
            index == mix_spec(0, final(self).state()) % (upper_bound as u64),
            index < upper_bound,
    {
        let value: u64 = self.next();
        (value % (upper_bound as u64)) as usize
    }
}

} // verus!
