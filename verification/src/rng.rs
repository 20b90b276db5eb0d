use vstd::prelude::*;

use mersenne_twister_m::MT19937;

verus! {

/// The seeded pseudo-random generator that picks daily target words.
#[verifier::external_type_specification]
#[verifier::external_body]
pub struct ExMT19937(MT19937);

/// The draw at position `k` of the generator seeded with `seed`. The
/// generator is fully deterministic: the same seed yields the same stream
/// on every machine and in every process, so each draw is a function of
/// the seed and the position alone.
pub uninterp spec fn mt_draw(seed: u32, k: int) -> u32;

/// A seeded generator together with the seed it was built from and the
/// number of draws it has produced, so that contracts can speak of the
/// stream. The fields are private on purpose: every value is created by
/// `rng_new` and advanced by `rng_next`, which keeps the inner generator
/// state in step with the recorded seed and count.
pub struct SeededRng {
    rng: MT19937,
    seed: u32,
    drawn: Ghost<int>,
}

impl SeededRng {
    /// The seed this generator was built from.
    pub closed spec fn seed(self) -> u32 {
        self.seed
    }

    /// How many draws have been taken so far.
    pub closed spec fn drawn(self) -> int {
        self.drawn@
    }
}

/// Relies on `MT19937::new_with_seed`: a generator initialised from the
/// given seed, positioned before its first draw.
///
/// Caveat: the dependency's seeding loop adds the state index with an
/// unchecked `+` where the reference algorithm wraps, so under a build
/// with overflow checks it can panic for the rare seeds whose first
/// product lands within the index of `u32::MAX`; release builds wrap and
/// match the reference stream.
#[verifier::external_body]
pub fn rng_new(seed: u32) -> (r: SeededRng)
    ensures
        r.seed() == seed,
        r.drawn() == 0,
{
    SeededRng { rng: MT19937::new_with_seed(seed), seed, drawn: Ghost(0int) }
}

/// Relies on `MT19937::genrand`: the next draw of the seeded stream.
#[verifier::external_body]
pub fn rng_next(r: &mut SeededRng) -> (d: u32)
    ensures
        final(r).seed() == old(r).seed(),
        final(r).drawn() == old(r).drawn() + 1,
        d == mt_draw(old(r).seed(), old(r).drawn()),
{
    r.rng.genrand()
}

} // verus!
