use rand::rngs::StdRng;
use vstd::prelude::*;

use crate::fixed::{DT, ONE, Vec2D, clamp_spec, scale};
use crate::random::{draw_below, seeded_rng};
use crate::sampler::{defined_on_unit_square, sample_field, samples_field};

verus! {

/// The largest magnitude that a step vector of a particle system may have.
pub const STEP_LIMIT: i64 = 0x4000_0000_0000_0000;

/// A particle: where it is, and how many more ticks it lives.
#[derive(Debug, Clone, Copy, PartialEq, Eq, Structural)]
pub struct Particle {
    pub position: Vec2D,
    pub lifetime: u32,
}

/// `p` lies in the closed unit square.
pub open spec fn in_unit_square(p: Vec2D) -> bool {
    0 <= p.x <= ONE && 0 <= p.y <= ONE
}

/// The grid cell, out of `n` along one axis, that holds the coordinate `c`.
pub open spec fn cell_of(c: int, n: int) -> int {
    clamp_spec((c * n) / (ONE as int), 0, n - 1)
}

/// `p` moved by the step of the cell it lies in, then clamped to the unit square.
pub open spec fn advect(p: Vec2D, cells: Seq<Vec<Vec2D>>, n: int) -> Vec2D {
    let step = cells[cell_of(p.x as int, n)]@[cell_of(p.y as int, n)];
    Vec2D {
        x: clamp_spec(p.x + step.x, 0, ONE as int) as i64,
        y: clamp_spec(p.y + step.y, 0, ONE as int) as i64,
    }
}

/// A particle freshly drawn: anywhere in `[0, 1) x [0, 1)`, with a lifetime in `1..=max_lifetime`.
pub open spec fn is_fresh(p: Particle, max_lifetime: int) -> bool {
    &&& 0 <= p.position.x < ONE
    &&& 0 <= p.position.y < ONE
    &&& 1 <= p.lifetime <= max_lifetime
}

/// One tick takes `before` to `after`: the lifetime drops by one; a particle whose lifetime runs
/// out is drawn afresh, any other moves by the step of its cell.
pub open spec fn ticked(
    before: Particle,
    after: Particle,
    cells: Seq<Vec<Vec2D>>,
    n: int,
    max_lifetime: int,
) -> bool {
    if before.lifetime - 1 <= 0 {
        is_fresh(after, max_lifetime)
    } else {
        &&& after.lifetime == before.lifetime - 1
        &&& after.position == advect(before.position, cells, n)
    }
}

/// A set of particles that drift through a vector field sampled on a grid.
pub struct FlowField {
    particles: Vec<Particle>,
    velocities: Vec<Vec<Vec2D>>,
    nsamples: u32,
    rng: StdRng,
    max_particle_lifetime: u32,
}

impl FlowField {
    /// The particles.
    pub closed spec fn particles_spec(&self) -> Seq<Particle> {
        self.particles@
    }

    /// The step vectors: row `i`, column `j` is the step of the cell `(i, j)`.
    pub closed spec fn velocities_spec(&self) -> Seq<Vec<Vec2D>> {
        self.velocities@
    }

    /// The number of cells along each axis of the sampling grid.
    pub closed spec fn nsamples_spec(&self) -> nat {
        self.nsamples as nat
    }

    /// The longest lifetime that a particle is drawn with.
    pub closed spec fn max_lifetime_spec(&self) -> nat {
        self.max_particle_lifetime as nat
    }

    /// Every step vector is within `STEP_LIMIT` of zero in each component.
    pub closed spec fn steps_bounded(&self) -> bool {
        forall|i: int, j: int|
            0 <= i < self.velocities@.len() && 0 <= j < self.velocities@[i]@.len() ==> {
                let s = #[trigger] self.velocities@[i]@[j];
                -STEP_LIMIT <= s.x <= STEP_LIMIT && -STEP_LIMIT <= s.y <= STEP_LIMIT
            }
    }

    /// The sampling grid is square and not empty, and every particle lies in the unit square
    /// with a lifetime in `1..=max_lifetime`.
    pub open spec fn wf(&self) -> bool {
        &&& self.nsamples_spec() > 0
        &&& self.max_lifetime_spec() > 0
        &&& self.velocities_spec().len() == self.nsamples_spec()
        &&& forall|i: int|
            0 <= i < self.nsamples_spec() ==> (#[trigger] self.velocities_spec()[i])@.len()
                == self.nsamples_spec()
        &&& self.steps_bounded()
        &&& forall|k: int|
            0 <= k < self.particles_spec().len() ==> {
                let p = #[trigger] self.particles_spec()[k];
                in_unit_square(p.position) && 1 <= p.lifetime <= self.max_lifetime_spec()
            }
    }

    /// Draws `nparticles` particles and samples `flow_field_function` on an `nsamples` by
    /// `nsamples` grid, with the fixed time step `DT`. The random source is seeded with `seed`.
    pub fn new<F: Fn(i64, i64) -> Vec2D>(
        nparticles: u32,
        nsamples: u32,
        flow_field_function: &F,
        max_lifetime: u32,
        seed: u64,
    ) -> (f: FlowField)
        requires
            nsamples > 0,
            max_lifetime > 0,
            defined_on_unit_square(*flow_field_function),
        ensures
            f.wf(),
            f.particles_spec().len() == nparticles,
            forall|k: int|
                0 <= k < nparticles ==> is_fresh(#[trigger] f.particles_spec()[k], max_lifetime as int),
            f.nsamples_spec() == nsamples,
            f.max_lifetime_spec() == max_lifetime,
            samples_field(*flow_field_function, f.velocities_spec(), nsamples as nat, DT as int),
    {
        let mut rng = seeded_rng(seed);
        let mut particles: Vec<Particle> = Vec::new();
        let mut k: u32 = 0;
        while k < nparticles
            invariant
                k <= nparticles,
                max_lifetime > 0,
                particles@.len() == k,
                forall|a: int|
                    0 <= a < k ==> is_fresh(#[trigger] particles@[a], max_lifetime as int),
            decreases nparticles - k,
        {
            let position = Vec2D::random(&mut rng);
            let lifetime = draw_below(&mut rng, max_lifetime as u64) as u32 + 1;
            particles.push(Particle { position, lifetime });
            k = k + 1;
        }
        let velocities = sample_field(flow_field_function, nsamples, DT);
        proof {
            assert forall|i: int, j: int|
                0 <= i < velocities@.len() && 0 <= j < velocities@[i]@.len() implies {
                    let s = #[trigger] velocities@[i]@[j];
                    -STEP_LIMIT <= s.x <= STEP_LIMIT && -STEP_LIMIT <= s.y <= STEP_LIMIT
                } by {
                let s = velocities@[i]@[j];
                let v = choose|v: Vec2D|
                    #[trigger] flow_field_function.ensures(
                        (
                            crate::sampler::center_of(i, nsamples as int) as i64,
                            crate::sampler::center_of(j, nsamples as int) as i64,
                        ),
                        v,
                    ) && s.x == scale(v.x as int, DT as int) && s.y == scale(v.y as int, DT as int);
                lemma_step_bounded(v.x as int);
                lemma_step_bounded(v.y as int);
            }
        }
        FlowField {
            particles,
            velocities,
            nsamples,
            rng,
            max_particle_lifetime: max_lifetime,
        }
    }

    /// A seed drawn from this system's random source, for a system that replaces it.
    pub(crate) fn next_seed(&mut self) -> (seed: u64)
        ensures
            final(self).particles_spec() == old(self).particles_spec(),
            final(self).velocities_spec() == old(self).velocities_spec(),
            final(self).nsamples_spec() == old(self).nsamples_spec(),
            final(self).max_lifetime_spec() == old(self).max_lifetime_spec(),
            final(self).steps_bounded() == old(self).steps_bounded(),
    {
        draw_below(&mut self.rng, u64::MAX)
    }

    /// The particles, in the order they were drawn.
    pub fn particles(&self) -> (r: &[Particle])
        ensures
            r@ == self.particles_spec(),
    {
        self.particles.as_slice()
    }

    /// Advances every particle by one tick.
    pub fn tick(&mut self)
        requires
            old(self).wf(),
        ensures
            final(self).wf(),
            forall|k: int|
                0 <= k < final(self).particles_spec().len() ==> in_unit_square(
                    (#[trigger] final(self).particles_spec()[k]).position,
                ),
            final(self).velocities_spec() == old(self).velocities_spec(),
            final(self).nsamples_spec() == old(self).nsamples_spec(),
            final(self).max_lifetime_spec() == old(self).max_lifetime_spec(),
            final(self).particles_spec().len() == old(self).particles_spec().len(),
            forall|k: int|
                0 <= k < old(self).particles_spec().len() ==> ticked(
                    old(self).particles_spec()[k],
                    #[trigger] final(self).particles_spec()[k],
                    old(self).velocities_spec(),
                    old(self).nsamples_spec() as int,
                    old(self).max_lifetime_spec() as int,
                ),
    {
        let n = self.nsamples;
        let count = self.particles.len();
        let mut k: usize = 0;
        while k < count
            invariant
                k <= count,
                count == self.particles@.len(),
                n == self.nsamples,
                self.nsamples == old(self).nsamples,
                self.velocities@ == old(self).velocities@,
                self.max_particle_lifetime == old(self).max_particle_lifetime,
                self.particles@.len() == old(self).particles@.len(),
                old(self).wf(),
                forall|a: int|
                    k <= a < count ==> #[trigger] self.particles@[a] == old(self).particles@[a],
                forall|a: int|
                    0 <= a < k ==> ticked(
                        old(self).particles@[a],
                        #[trigger] self.particles@[a],
                        old(self).velocities@,
                        n as int,
                        self.max_particle_lifetime as int,
                    ),
            decreases count - k,
        {
            let p = self.particles[k];
            assert(old(self).particles_spec()[k as int] == p);
            let lifetime = p.lifetime - 1;
            let next = if lifetime == 0 {
                let position = Vec2D::random(&mut self.rng);
                let fresh = draw_below(&mut self.rng, self.max_particle_lifetime as u64) as u32
                    + 1;
                Particle { position, lifetime: fresh }
            } else {
                let i = cell_index(p.position.x, n);
                let j = cell_index(p.position.y, n);
                let step = self.velocities[i][j];
                let mut position = p.position;
                position.add(&step);
                position.clamp(0, ONE as i64);
                Particle { position, lifetime }
            };
            self.particles.set(k, next);
            k = k + 1;
        }
    }
}

/// The cell, out of `n` along one axis, that holds the unit-interval coordinate `c`.
fn cell_index(c: i64, n: u32) -> (i: usize)
    requires
        0 <= c <= ONE,
        n > 0,
    ensures
        i == cell_of(c as int, n as int),
        i < n,
{
    proof {
        vstd::arithmetic::mul::lemma_mul_upper_bound(c as int, ONE as int, n as int, n as int);
        vstd::arithmetic::div_mod::lemma_div_pos_is_pos(c * n, ONE as int);
    }
    let q: u64 = (c as u64 * n as u64) / ONE;
    if q < n as u64 - 1 {
        q as usize
    } else {
        (n - 1) as usize
    }
}

/// A value scaled by `DT` stays within `STEP_LIMIT`.
proof fn lemma_step_bounded(c: int)
    requires
        -0x8000_0000_0000_0000 <= c <= 0x7fff_ffff_ffff_ffff,
    ensures
        -STEP_LIMIT <= scale(c, DT as int) <= STEP_LIMIT,
{
    let lo = -0x8000_0000_0000_0000 * 5_000int;
    let hi = 0x7fff_ffff_ffff_ffff * 5_000int;
    assert(lo <= c * 5_000 <= hi);
    vstd::arithmetic::div_mod::lemma_div_is_ordered(lo, c * 5_000, 1_000_000);
    vstd::arithmetic::div_mod::lemma_div_is_ordered(c * 5_000, hi, 1_000_000);
    assert(lo / 1_000_000int >= -STEP_LIMIT);
    assert(hi / 1_000_000int <= STEP_LIMIT);
}

} // verus!
