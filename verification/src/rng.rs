//! Deterministic RNG (splitmix64). Every battle is reproducible from its
//! seed because all randomness flows through this generator.
use vstd::prelude::*;

verus! {

/// Step added to the state on every draw.
pub const GAMMA: u64 = 0x9E3779B97F4A7C15;

/// splitmix64's output function: scrambles one state value.
pub open spec fn mix(state: u64) -> u64 {
    let z1 = (state ^ (state >> 30u64)).wrapping_mul(0xBF58476D1CE4E5B9u64);
    let z2 = (z1 ^ (z1 >> 27u64)).wrapping_mul(0x94D049BB133111EBu64);
    z2 ^ (z2 >> 31u64)
}

/// State of a generator seeded with `seed` after `k` draws.
pub open spec fn state_after(seed: u64, k: nat) -> u64
    decreases k,
{
    if k == 0 {
        seed
    } else {
        state_after(seed, (k - 1) as nat).wrapping_add(GAMMA)
    }
}

/// The `k`-th value (counting from 0) drawn from a generator seeded with
/// `seed`.
pub open spec fn nth_output(seed: u64, k: nat) -> u64 {
    mix(state_after(seed, k + 1))
}

/// Deterministic pseudo-random generator (splitmix64).
#[derive(Clone, Debug)]
pub struct Rng {
    state: u64,
}

impl View for Rng {
    type V = u64;

    closed spec fn view(&self) -> u64 {
        self.state
    }
}

impl Rng {
    /// A generator whose stream is fixed by `seed`: it has made no draw.
    pub fn new(seed: u64) -> (r: Rng)
        ensures
            r@ == seed,
            r@ == state_after(seed, 0),
    {
        Rng { state: seed }
    }

    /// Next 64 random bits: advances the state by `GAMMA` (wrapping) and
    /// returns the mixed new state. So the stream is fixed by the seed: a
    /// generator that has made `k` draws since `Rng::new(seed)` returns
    /// `nth_output(seed, k)` and has then made `k + 1`; two generators made
    /// from one seed return the same values, draw for draw.
    pub fn next_u64(&mut self) -> (r: u64)
        ensures
            final(self)@ == old(self)@.wrapping_add(GAMMA),
            r == mix(final(self)@),
            forall|seed: u64, k: nat|
                old(self)@ == #[trigger] state_after(seed, k) ==> final(self)@ == state_after(seed, k + 1) && r
                    == nth_output(seed, k),
    {
        self.state = self.state.wrapping_add(GAMMA);
        let mut z = self.state;
        z = (z ^ (z >> 30)).wrapping_mul(0xBF58476D1CE4E5B9);
        z = (z ^ (z >> 27)).wrapping_mul(0x94D049BB133111EB);
        z ^ (z >> 31)
    }
}

/// Reproducibility: after `k` draws from a generator seeded with `seed`, its
/// state is `seed + k * GAMMA` (mod 2^64), whatever else happened; so the
/// `k`-th draw is a function of the seed and `k` alone.
pub proof fn lemma_state_closed_form(seed: u64, k: nat)
    ensures
        state_after(seed, k) as int == (seed as int + k * (GAMMA as int)) % 0x1_0000_0000_0000_0000,
    decreases k,
{
    if k > 0 {
        lemma_state_closed_form(seed, (k - 1) as nat);
        let m: int = 0x1_0000_0000_0000_0000;
        let prev = state_after(seed, (k - 1) as nat) as int;
        let a = seed as int + (k - 1) * (GAMMA as int);
        assert(prev == a % m);
        assert(a + GAMMA as int == seed as int + k * (GAMMA as int)) by (nonlinear_arith)
            requires a == seed as int + (k - 1) * (GAMMA as int);
        vstd::arithmetic::div_mod::lemma_add_mod_noop(a, GAMMA as int, m);
        vstd::arithmetic::div_mod::lemma_mod_twice(a, m);
        assert((GAMMA as int) % m == GAMMA as int);
    }
}

/// The whole stream is fixed by the seed: the `k`-th draw is the mixed value
/// of `seed + (k + 1) * GAMMA` (mod 2^64).
pub proof fn lemma_nth_output_closed_form(seed: u64, k: nat)
    ensures
        nth_output(seed, k) == mix(((seed as int + (k + 1) * (GAMMA as int)) % 0x1_0000_0000_0000_0000) as u64),
{
    lemma_state_closed_form(seed, k + 1);
}

} // verus!
