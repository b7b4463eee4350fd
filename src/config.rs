use vstd::prelude::*;

verus! {

/// What the command line asked for.
pub enum Module {
    /// Linear congruential generator: modulus, multiplier, increment, seed.
    LCG(u64, u64, u64, u64),
    /// Digest of the given text.
    MD5(String),
    /// Block cipher: chaining mode, direction, input, key.
    RC5(String, String, String, String),
    /// Comparison of public-key and block-cipher timings on the given text.
    RSA(String),
    /// Signature check of the given text, with an optional signature.
    DSA(String, Option<String>),
}

/// The settings that the command line gives.
pub struct Config {
    pub module: Module,
    /// How many numbers to generate.
    pub num: usize,
    /// Whether to count the distinct numbers generated.
    pub unique: bool,
}

impl Config {
    pub fn new() -> (r: Self)
        ensures
            r.module == Module::LCG(0, 0, 0, 0),
            r.num == 0,
            !r.unique,
    {
        Self { module: Module::LCG(0, 0, 0, 0), num: 0, unique: false }
    }

    pub fn set_num(&mut self, num: usize)
        ensures
            final(self).num == num,
            final(self).unique == old(self).unique,
            final(self).module == old(self).module,
    {
        self.num = num;
    }

    pub fn set_unique(&mut self, unique: bool)
        ensures
            final(self).unique == unique,
            final(self).num == old(self).num,
            final(self).module == old(self).module,
    {
        self.unique = unique;
    }

    pub fn set_module(&mut self, module: Module)
        ensures
            final(self).module == module,
            final(self).num == old(self).num,
            final(self).unique == old(self).unique,
    {
        self.module = module;
    }
}

} // verus!
