//! The seeded pseudo-random source of the season simulator.
//!
//! One generator is created per simulation from the variation's seed and
//! consumed one 64-bit word per match. The generator is `rand`'s standard
//! one, which computes its output stream deterministically from the seed
//! alone; `std_rng_stream` names that stream, so that every draw a
//! simulation makes is pinned to the seed and the draw's position.

use vstd::prelude::*;
use rand::Rng;
use rand::SeedableRng;

verus! {

#[verifier::external_type_specification]
#[verifier::external_body]
pub struct ExStdRng(rand::rngs::StdRng);

/// The word at one position of the output stream that `rand`'s standard
/// generator produces from one seed. The generator is algorithmic: the
/// stream is a function of the seed and the position alone.
pub uninterp spec fn std_rng_stream(seed: u64, index: nat) -> u64;

/// Relies on `rand::rngs::StdRng::seed_from_u64`: builds the generator
/// whose output stream is determined by `seed`.
#[verifier::external_body]
fn std_rng_from_seed(seed: u64) -> (r: rand::rngs::StdRng) {
    rand::rngs::StdRng::seed_from_u64(seed)
}

/// A seeded generator together with how many words it has produced.
pub struct SeededRng {
    inner: rand::rngs::StdRng,
    seed: Ghost<u64>,
    drawn: Ghost<nat>,
}

impl SeededRng {
    /// The seed the generator was built from.
    pub closed spec fn seed(&self) -> u64 {
        self.seed@
    }

    /// How many words have been drawn so far.
    pub closed spec fn drawn(&self) -> nat {
        self.drawn@
    }

    /// A fresh generator at position zero of the seed's stream.
    pub fn new(seed: u64) -> (r: Self)
        ensures
            r.seed() == seed,
            r.drawn() == 0,
    {
        SeededRng { inner: std_rng_from_seed(seed), seed: Ghost(seed), drawn: Ghost(0) }
    }

    /// Relies on `rand::Rng::gen::<u64>` on the standard generator: one
    /// call produces the next word of the seed's stream and advances the
    /// generator by exactly that word. The uniform `[0, 1)` draw of the
    /// standard distribution is this word's top 53 bits over 2^53 (see
    /// `crate::bits::f64_from_raw_draw`).
    #[verifier::external_body]
    pub fn next_raw(&mut self) -> (r: u64)
        ensures
            final(self).seed() == old(self).seed(),
            final(self).drawn() == old(self).drawn() + 1,
            r == std_rng_stream(old(self).seed(), old(self).drawn()),
    {
        self.inner.gen()
    }
}

} // verus!
