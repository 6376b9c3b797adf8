//! A small xorshift pseudo-random generator, seeded by the caller.
use vstd::prelude::*;

verus! {

/// One xorshift64 step.
pub open spec fn xorshift_next(x: u64) -> u64 {
    let a = x ^ (x << 13u64);
    let b = a ^ (a >> 7u64);
    b ^ (b << 17u64)
}

/// Seed used in place of zero, which xorshift never leaves.
pub const NONZERO_SEED: u64 = 0x9E37_79B9_7F4A_7C15;

/// xorshift64 generator state.
#[derive(Clone, Copy, Debug)]
pub struct Xorshift {
    pub state: u64,
}

impl Xorshift {
    /// A generator started from `seed` (zero is replaced by a fixed constant).
    pub fn new(seed: u64) -> (r: Self)
        ensures
            r.state == if seed == 0 { NONZERO_SEED } else { seed },
    {
        Xorshift { state: if seed == 0 { NONZERO_SEED } else { seed } }
    }

    /// Advances the state and returns it.
    pub fn next_u64(&mut self) -> (r: u64)
        ensures
            r == xorshift_next(old(self).state),
            final(self).state == r,
    {
        let x = self.state;
        let a = x ^ (x << 13u64);
        let b = a ^ (a >> 7u64);
        let c = b ^ (b << 17u64);
        self.state = c;
        c
    }

    /// A value in `[0, bound)`, from the next state.
    pub fn below(&mut self, bound: usize) -> (r: usize)
        requires
            bound > 0,
        ensures
            r < bound,
            r as int == xorshift_next(old(self).state) as int % bound as int,
            final(self).state == xorshift_next(old(self).state),
    {
        let x = self.next_u64();
        (x % (bound as u64)) as usize
    }
}

} // verus!
