//! Pseudo-random sampling for the scattering models.
//!
//! Each rendering worker owns its own seeded generator, so sample sequences
//! are reproducible per worker and workers never contend.  The raw draws
//! come from the `rand` crate through trusted wrappers; everything computed
//! from a draw is verified for every value the wrapper may return.

use crate::fixed::SCALE;
use crate::vec3::{bounded_s, v3_norm_sq, v3_norm_sq_s, v3_unit, v3_unit_s, Vec3, V3};
use vstd::prelude::*;

verus! {

#[verifier::external_type_specification]
#[verifier::external_body]
pub struct ExStdRng(rand::rngs::StdRng);

/// A worker-owned pseudo-random generator, seeded explicitly so that a
/// worker's sample sequence is reproducible.
pub struct Rng {
    inner: rand::rngs::StdRng,
}

impl Rng {
    /// Relies on rand's `StdRng` with `SeedableRng::seed_from_u64`: builds
    /// a generator from a seed; never fails.
    #[verifier::external_body]
    pub fn new(seed: u64) -> Rng {
        Rng { inner: rand::SeedableRng::seed_from_u64(seed) }
    }

    /// Relies on rand's `RngExt::random_range` over `lo..hi`: returns a
    /// value of the range, and panics only on an empty range, which the
    /// precondition rules out.
    #[verifier::external_body]
    pub fn sample_range(&mut self, lo: i64, hi: i64) -> (r: i128)
        requires
            lo < hi,
        ensures
            lo <= r < hi,
    {
        rand::RngExt::random_range(&mut self.inner, lo..hi) as i128
    }

    /// A draw from `[0, 1)`, in raw fixed-point steps.
    pub fn sample_unit_interval(&mut self) -> (r: i128)
        ensures
            0 <= r < SCALE,
    {
        self.sample_range(0, 1_000_000)
    }
}

/// A direction that counts as a sampled unit vector: the rescaling of some
/// vector drawn from the unit ball, away from the degenerate center.
pub open spec fn is_sampled_unit(u: V3) -> bool {
    exists|v: V3|
        {
            &&& bounded_s(v, SCALE as int)
            &&& 250_000 <= v3_norm_sq_s(v) <= SCALE
            &&& u == v3_unit_s(v)
        }
}

/// Draw a (nearly) uniformly distributed unit-length direction, by
/// rejection sampling from the cube.  After a bounded number of rejected
/// draws the sampler falls back to a fixed axis, so it always terminates;
/// the fallback is itself a sampled unit vector.
pub fn random_unit_vector(rng: &mut Rng) -> (r: Vec3)
    ensures
        is_sampled_unit(r@),
        bounded_s(r@, 2_000_000),
{
    let mut tries: u32 = 0;
    while tries < 1000
        decreases 1000 - tries,
    {
        let x = rng.sample_range(-1_000_000, 1_000_001);
        let y = rng.sample_range(-1_000_000, 1_000_001);
        let z = rng.sample_range(-1_000_000, 1_000_001);
        let v = Vec3 { x, y, z };
        let ns = v3_norm_sq(&v);
        if 250_000 <= ns && ns <= 1_000_000 {
            let u = v3_unit(&v);
            proof {
                assert(bounded_s(v@, SCALE as int));
                assert(is_sampled_unit(u@));
            }
            return u;
        }
        tries = tries + 1;
    }
    let axis = Vec3 { x: SCALE, y: 0, z: 0 };
    let u = v3_unit(&axis);
    proof {
        assert(bounded_s(axis@, SCALE as int));
        assert(v3_norm_sq_s(axis@) == SCALE);
        assert(is_sampled_unit(u@));
    }
    u
}

} // verus!
