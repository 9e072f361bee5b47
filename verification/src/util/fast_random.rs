//! The 64-bit xorshift generator that is the only source of randomness.

use vstd::prelude::*;

verus! {

/// One xorshift round: `s ^= s << 21; s ^= s >> 35; s ^= s << 4`.
pub open spec fn xorshift(seed: u64) -> u64 {
    let a = seed ^ (seed << 21);
    let b = a ^ (a >> 35);
    b ^ (b << 4)
}

/// A deterministic pseudo-random generator. Its whole state is one word,
/// which is also the value it last returned.
pub struct FastRandom {
    seed: u64,
}

impl View for FastRandom {
    type V = u64;

    closed spec fn view(&self) -> u64 {
        self.seed
    }
}

/// Seconds since the Unix epoch as `std::time::SystemTime::UNIX_EPOCH.elapsed()`
/// reports them; zero if the clock stands before the epoch. Nothing is
/// promised about the value: it depends on when the call is made.
#[verifier::external_body]
fn seconds_since_epoch() -> u64 {
    std::time::SystemTime::UNIX_EPOCH.elapsed().map(|d| d.as_secs()).unwrap_or(0)
}

impl FastRandom {
    /// The successor of `seed` in the xorshift sequence.
    pub fn get(seed: u64) -> (r: u64)
        ensures
            r == xorshift(seed),
    {
        let a: u64 = seed ^ (seed << 21);
        let b: u64 = a ^ (a >> 35);
        b ^ (b << 4)
    }

    /// A generator whose state is `seed`.
    pub fn new(seed: u64) -> (r: Self)
        ensures
            r@ == seed,
    {
        Self { seed }
    }

    /// A generator seeded from the wall clock. Two calls may differ.
    pub fn new_from_sys_time() -> Self {
        Self { seed: seconds_since_epoch() }
    }

    /// The current state, without advancing.
    pub fn state(&self) -> (r: u64)
        ensures
            r == self@,
    {
        self.seed
    }

    /// Advances the state by one round and returns it.
    pub fn next(&mut self) -> (r: u64)
        ensures
            final(self)@ == xorshift(old(self)@),
            r == final(self)@,
    {
        self.seed = Self::get(self.seed);
        self.seed
    }

    /// Advances by one round and reduces the new state modulo `upper_bound`.
    /// The reduction is biased unless `upper_bound` is a power of two.
    pub fn next_less_than(&mut self, upper_bound: u64) -> (r: u64)
        requires
            upper_bound > 0,
        ensures
            final(self)@ == xorshift(old(self)@),
            r == final(self)@ % upper_bound,
            r < upper_bound,
    {
        self.next() % upper_bound
    }

    /// Advances by one round and maps the new state into `min..upper_bound`.
    pub fn next_in_range(&mut self, min: u64, upper_bound: u64) -> (r: u64)
        requires
            min < upper_bound,
        ensures
            final(self)@ == xorshift(old(self)@),
            r == min + final(self)@ % ((upper_bound - min) as u64),
            min <= r < upper_bound,
    {
        min + self.next_less_than(upper_bound - min)
    }

    /// Advances by one round; true when the new state is a multiple of
    /// `upper_bound`, which happens about once in `upper_bound` draws.
    pub fn one_in(&mut self, upper_bound: u64) -> (r: bool)
        requires
            upper_bound > 0,
        ensures
            final(self)@ == xorshift(old(self)@),
            r == (final(self)@ % upper_bound == 0),
    {
        self.next_less_than(upper_bound) == 0
    }
}

} // verus!
