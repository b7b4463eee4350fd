use vstd::prelude::*;

verus! {

/// The linear congruential step: `(multiplier * seed + increment) mod modulus`.
pub open spec fn lcg_step(modulus: u64, multiplier: u64, increment: u64, seed: u64) -> u64 {
    ((multiplier as nat * seed as nat + increment as nat) % modulus as nat) as u64
}

/// A linear congruential generator of pseudo-random numbers.
pub struct LCG {
    modulus: u64,
    multiplier: u64,
    increment: u64,
    seed: u64,
}

impl LCG {
    pub closed spec fn modulus(&self) -> u64 {
        self.modulus
    }

    pub closed spec fn multiplier(&self) -> u64 {
        self.multiplier
    }

    pub closed spec fn increment(&self) -> u64 {
        self.increment
    }

    /// The last number produced, or the starting seed.
    pub closed spec fn seed(&self) -> u64 {
        self.seed
    }

    pub fn new(modulus: u64, multiplier: u64, increment: u64, seed: u64) -> (r: Self)
        ensures
            r.modulus() == modulus,
            r.multiplier() == multiplier,
            r.increment() == increment,
            r.seed() == seed,
    {
        Self { modulus, multiplier, increment, seed }
    }

    /// Produces the next number, which also becomes the new seed. The
    /// arithmetic is exact: the product is not truncated before the
    /// reduction. A generator with modulus zero produces nothing.
    pub fn next(&mut self) -> (r: Option<u64>)
        ensures
            final(self).modulus() == old(self).modulus(),
            final(self).multiplier() == old(self).multiplier(),
            final(self).increment() == old(self).increment(),
            old(self).modulus() == 0 ==> r == None::<u64> && final(self).seed() == old(self).seed(),
            old(self).modulus() > 0 ==> r == Some(final(self).seed()) && final(self).seed()
                == lcg_step(
                old(self).modulus(),
                old(self).multiplier(),
                old(self).increment(),
                old(self).seed(),
            ),
    {
        if self.modulus == 0 {
            return None;
        }
        let a = self.multiplier as u128;
        let x = self.seed as u128;
        let c = self.increment as u128;
        assert(a * x + c <= u128::MAX) by (nonlinear_arith)
            requires
                a <= u64::MAX,
                x <= u64::MAX,
                c <= u64::MAX,
        ;
        let v = (a * x + c) % (self.modulus as u128);
        self.seed = v as u64;
        Some(self.seed)
    }
}

} // verus!
