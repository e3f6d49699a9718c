use vstd::prelude::*;

verus! {

/// State of the xorshift generator shared by the games.
pub struct Rng {
    pub state: u32,
}

/// One step of Marsaglia's 32-bit xorshift ("xor" with shifts 13, 17, 5).
pub open spec fn xorshift(state: u32) -> u32 {
    let a = state ^ (state << 13u32);
    let b = a ^ (a >> 17u32);
    b ^ (b << 5u32)
}

impl Rng {
    pub fn new(seed: u32) -> (rng: Rng)
        ensures
            rng.state == seed,
    {
        Rng { state: seed }
    }
}

/// Replaces the generator's state with `seed`.
pub fn set_seed(rng: &mut Rng, seed: u32)
    ensures
        final(rng).state == seed,
{
    rng.state = seed;
}

/// Advances the generator by one xorshift step and returns the new state.
pub fn rng(generator: &mut Rng) -> (value: u32)
    ensures
        value == xorshift(old(generator).state),
        final(generator).state == value,
{
    let mut state = generator.state;
    state = state ^ (state << 13u32);
    state = state ^ (state >> 17u32);
    state = state ^ (state << 5u32);
    generator.state = state;
    state
}

/// A generator seeded with zero stays at zero; any other seed never reaches
/// zero, since each xorshift step is a bijection of `u32` that fixes zero.
pub proof fn lemma_xorshift_zero_iff(state: u32)
    ensures
        (xorshift(state) == 0) == (state == 0),
{
    let a = state ^ (state << 13u32);
    let b = a ^ (a >> 17u32);
    assert((state ^ (state << 13u32) == 0) == (state == 0)) by (bit_vector);
    assert((a ^ (a >> 17u32) == 0) == (a == 0)) by (bit_vector);
    assert((b ^ (b << 5u32) == 0) == (b == 0)) by (bit_vector);
}

} // verus!
