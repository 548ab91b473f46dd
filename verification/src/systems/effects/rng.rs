//! Seedable pseudo-random number generator (xorshift64).
//! Deterministic, fast, no-std compatible.
use vstd::prelude::*;

verus! {

/// One xorshift64 step (shifts 13, 7, 17).
pub open spec fn xorshift64(x: u64) -> u64 {
    let a = x ^ (x << 13u64);
    let b = a ^ (a >> 7u64);
    b ^ (b << 17u64)
}

/// The state a generator starts from: the seed, with 0 replaced by 1
/// (xorshift would stay at 0 forever).
pub open spec fn seed_state(seed: u64) -> u64 {
    if seed == 0 {
        1
    } else {
        seed
    }
}

/// A nonzero state never steps to zero.
pub proof fn lemma_xorshift_nonzero(x: u64)
    requires
        x != 0,
    ensures
        xorshift64(x) != 0,
{
    let a = x ^ (x << 13u64);
    assert(a != 0) by (bit_vector)
        requires a == x ^ (x << 13u64), x != 0;
    let b = a ^ (a >> 7u64);
    assert(b != 0) by (bit_vector)
        requires b == a ^ (a >> 7u64), a != 0;
    let c = b ^ (b << 17u64);
    assert(c != 0) by (bit_vector)
        requires c == b ^ (b << 17u64), b != 0;
}

/// Seedable pseudo-random number generator (xorshift64).
#[derive(Debug)]
pub struct Rng {
    state: u64,
}

impl Rng {
    /// The state is never zero.
    #[verifier::type_invariant]
    spec fn inv(self) -> bool {
        self.state != 0
    }

    /// Current generator state.
    pub closed spec fn state(&self) -> u64 {
        self.state
    }

    pub fn new(seed: u64) -> (r: Self)
        ensures
            r.state() == seed_state(seed),
    {
        Rng { state: if seed == 0 { 1 } else { seed } }
    }

    fn next_u64(&mut self) -> (r: u64)
        ensures
            r == xorshift64(old(self).state()),
            final(self).state() == r,
    {
        proof {
            use_type_invariant(&*self);
            lemma_xorshift_nonzero(self.state);
        }
        let mut x = self.state;
        x ^= x << 13u64;
        x ^= x >> 7u64;
        x ^= x << 17u64;
        *self = Rng { state: x };
        x
    }

    /// Generate a random number in [0, upper_bound).
    pub fn next_int(&mut self, upper_bound: u32) -> (r: u32)
        requires
            upper_bound > 0,
        ensures
            final(self).state() == xorshift64(old(self).state()),
            r == xorshift64(old(self).state()) % (upper_bound as u64),
            r < upper_bound,
    {
        let x = self.next_u64();
        (x % (upper_bound as u64)) as u32
    }
}

impl Clone for Rng {
    fn clone(&self) -> (r: Self)
        ensures
            r.state() == self.state(),
    {
        proof { use_type_invariant(self); }
        Rng { state: self.state }
    }
}

/// Two generators in the same state draw the same number for the same
/// bound and end in the same state: a seed fixes the whole sequence.
pub proof fn lemma_same_state_same_draw(s1: u64, s2: u64, bound: u32)
    requires
        s1 == s2,
        bound > 0,
    ensures
        xorshift64(s1) % (bound as u64) == xorshift64(s2) % (bound as u64),
        xorshift64(s1) == xorshift64(s2),
{
}

} // verus!
