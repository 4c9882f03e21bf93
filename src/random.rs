use rand::Rng;
use rand::SeedableRng;
use rand::rngs::StdRng;
use vstd::prelude::*;

use crate::fixed::{ONE, Vec2D};

verus! {

#[verifier::external_type_specification]
#[verifier::external_body]
pub struct ExStdRng(StdRng);

/// Relies on rand's `SeedableRng::seed_from_u64` to build a generator from a seed.
#[verifier::external_body]
pub(crate) fn seeded_rng(seed: u64) -> StdRng {
    StdRng::seed_from_u64(seed)
}

/// Relies on rand's `Rng::gen_range`, which returns a value of `low..high` and panics only
/// when that range is empty.
#[verifier::external_body]
pub(crate) fn draw_below(rng: &mut StdRng, bound: u64) -> (r: u64)
    requires
        bound > 0,
    ensures
        r < bound,
{
    rng.gen_range(0..bound)
}

impl Vec2D {
    /// A point drawn uniformly from the unit square `[0, 1) x [0, 1)`.
    pub fn random(rng: &mut StdRng) -> (v: Vec2D)
        ensures
            0 <= v.x < ONE,
            0 <= v.y < ONE,
    {
        let x = draw_below(rng, ONE);
        let y = draw_below(rng, ONE);
        Vec2D { x: x as i64, y: y as i64 }
    }
}

} // verus!
