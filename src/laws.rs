use vstd::prelude::*;

use crate::color::Rgba;
use crate::fixed::{Vec2D, scale};
use crate::grid::{
    STAMP_RADIUS,
    in_disk,
    is_black,
    next_counter,
    pixel_of,
    stamp_circle_spec,
    stamp_particles,
    tick_base,
};
use crate::particles::Particle;
use crate::sampler::{is_sample_of, samples_field};

verus! {

/// The tick counter after `m` ticks, counted from zero (a new driver, or a new decay period).
pub open spec fn counter_after(m: nat, period: int) -> int
    decreases m,
{
    if m == 0 {
        0
    } else {
        next_counter(counter_after((m - 1) as nat, period), period)
    }
}

/// Some particle's circle covers pixel `k` of a canvas `width` pixels to a row.
pub open spec fn stamped_by(k: int, particles: Seq<Particle>, width: int, height: int) -> bool {
    exists|i: int|
        0 <= i < particles.len() && in_disk(
            k % width,
            k / width,
            pixel_of((#[trigger] particles[i]).position.x as int, width),
            pixel_of(particles[i].position.y as int, height),
            STAMP_RADIUS as int,
        )
}

/// The tick counter, counted from zero, stands at `m mod period` after `m` ticks.
pub proof fn lemma_counter_is_mod(m: nat, period: int)
    requires
        period > 0,
    ensures
        counter_after(m, period) == (m as int) % period,
    decreases m,
{
    if m == 0 {
        vstd::arithmetic::div_mod::lemma_small_mod(0, period as nat);
    } else {
        lemma_counter_is_mod((m - 1) as nat, period);
        let p = m as int - 1;
        let q = p / period;
        let r = p % period;
        vstd::arithmetic::div_mod::lemma_fundamental_div_mod(p, period);
        vstd::arithmetic::div_mod::lemma_mod_pos_bound(p, period);
        if r + 1 == period {
            assert(m == (q + 1) * period + 0) by (nonlinear_arith)
                requires p == period * q + r, r + 1 == period, m == p + 1;
            vstd::arithmetic::div_mod::lemma_fundamental_div_mod_converse(m as int, period, q + 1, 0);
        } else {
            assert(m == q * period + (r + 1)) by (nonlinear_arith)
                requires p == period * q + r, m == p + 1;
            vstd::arithmetic::div_mod::lemma_fundamental_div_mod_converse(
                m as int,
                period,
                q,
                r + 1,
            );
        }
    }
}

/// Stamping circles changes no pixel that none of the circles covers.
proof fn lemma_unstamped_pixel_kept(
    pixels: Seq<Rgba>,
    particles: Seq<Particle>,
    width: int,
    height: int,
    count: nat,
    k: int,
)
    requires
        count <= particles.len(),
        0 <= k < pixels.len(),
        forall|i: int|
            0 <= i < count ==> !in_disk(
                k % width,
                k / width,
                pixel_of((#[trigger] particles[i]).position.x as int, width),
                pixel_of(particles[i].position.y as int, height),
                STAMP_RADIUS as int,
            ),
    ensures
        stamp_particles(pixels, particles, width, height, count).len() == pixels.len(),
        stamp_particles(pixels, particles, width, height, count)[k] == pixels[k],
    decreases count,
{
    if count > 0 {
        lemma_unstamped_pixel_kept(pixels, particles, width, height, (count - 1) as nat, k);
        let p = particles[count - 1];
        assert(!in_disk(
            k % width,
            k / width,
            pixel_of(p.position.x as int, width),
            pixel_of(p.position.y as int, height),
            STAMP_RADIUS as int,
        ));
    }
}

/// Decay periodicity: counting ticks from zero with a decay period `period`, the tick that
/// brings the count to `k * period` (for `k >= 1`) clears the canvas before it stamps, so
/// after it every pixel that none of that tick's circles covers is black.
pub proof fn lemma_decay_periodicity(
    pixels: Seq<Rgba>,
    particles: Seq<Particle>,
    width: int,
    height: int,
    period: int,
    k: nat,
)
    requires
        period > 0,
        k >= 1,
    ensures
        counter_after((k * period - 1) as nat, period) + 1 == period,
        forall|q: int|
            0 <= q < pixels.len() && !stamped_by(q, particles, width, height) ==> is_black(
                #[trigger] stamp_particles(
                    tick_base(pixels, counter_after((k * period - 1) as nat, period), period),
                    particles,
                    width,
                    height,
                    particles.len(),
                )[q],
            ),
{
    let m = (k * period - 1) as nat;
    assert(k * period >= period) by (nonlinear_arith)
        requires k >= 1, period > 0;
    lemma_counter_is_mod(m, period);
    assert(m == (k - 1) * period + (period - 1)) by (nonlinear_arith)
        requires m == k * period - 1;
    vstd::arithmetic::div_mod::lemma_fundamental_div_mod_converse(
        m as int,
        period,
        k - 1,
        period - 1,
    );
    let base = tick_base(pixels, counter_after(m, period), period);
    assert forall|q: int|
        0 <= q < pixels.len() && !stamped_by(q, particles, width, height) implies is_black(
            #[trigger] stamp_particles(base, particles, width, height, particles.len())[q],
        ) by {
        lemma_unstamped_pixel_kept(base, particles, width, height, particles.len(), q);
    }
}

/// A circle of radius one covers its centre pixel and nothing else.
pub proof fn lemma_unit_circle_is_one_pixel(x: int, y: int, cx: int, cy: int)
    ensures
        in_disk(x, y, cx, cy, 1) <==> (x == cx && y == cy),
{
    if x != cx || y != cy {
        assert(!in_disk(x, y, cx, cy, 1)) by (nonlinear_arith)
            requires x != cx || y != cy;
    }
}

/// A unit circle stamped anywhere changes exactly the one pixel at its centre, when that pixel
/// is on the canvas.
pub proof fn lemma_unit_stamp_changes_centre_only(
    pixels: Seq<Rgba>,
    width: int,
    cx: int,
    cy: int,
    k: int,
)
    requires
        width > 0,
        0 <= k < pixels.len(),
    ensures
        (k % width != cx || k / width != cy) ==> stamp_circle_spec(pixels, width, cx, cy, 1)[k]
            == pixels[k],
{
    lemma_unit_circle_is_one_pixel(k % width, k / width, cx, cy);
}

/// A field that returns the vector `c` everywhere samples to `c` scaled by `dt` in every cell.
pub proof fn lemma_constant_field_samples<F: Fn(i64, i64) -> Vec2D>(
    func: F,
    c: Vec2D,
    cells: Seq<Vec<Vec2D>>,
    n: nat,
    dt: int,
)
    requires
        forall|x: i64, y: i64, v: Vec2D| #[trigger] func.ensures((x, y), v) ==> v == c,
        samples_field(func, cells, n, dt),
    ensures
        forall|i: int, j: int|
            0 <= i < n && 0 <= j < n ==> (#[trigger] cells[i]@[j]).x == scale(c.x as int, dt)
                && cells[i]@[j].y == scale(c.y as int, dt),
{
    assert forall|i: int, j: int| 0 <= i < n && 0 <= j < n implies (#[trigger] cells[i]@[j]).x
        == scale(c.x as int, dt) && cells[i]@[j].y == scale(c.y as int, dt) by {
        let cx = crate::sampler::center_of(i, n as int);
        let cy = crate::sampler::center_of(j, n as int);
        assert(is_sample_of(func, cx, cy, dt, cells[i]@[j]));
    }
}

} // verus!
