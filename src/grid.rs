use vstd::prelude::*;

use crate::color::Rgba;
use crate::fixed::{DT, ONE, Vec2D};
use crate::particles::{FlowField, Particle, in_unit_square, is_fresh, ticked};
use crate::sampler::{defined_on_unit_square, samples_field};

verus! {

/// The radius of the circle drawn at each particle.
pub const STAMP_RADIUS: u32 = 1;

/// The pixel with its colour channels set to zero and its alpha kept.
pub open spec fn cleared(p: Rgba) -> Rgba {
    Rgba { r: 0, g: 0, b: 0, a: p.a }
}

/// The pixel in the accent colour, with its alpha kept.
pub open spec fn accented(p: Rgba) -> Rgba {
    Rgba { r: 0xf9, g: 0xa9, b: 0, a: p.a }
}

/// The colour channels of the pixel are zero.
pub open spec fn is_black(p: Rgba) -> bool {
    p.r == 0 && p.g == 0 && p.b == 0
}

/// Opaque black: the colour of a new canvas.
pub open spec fn opaque_black() -> Rgba {
    Rgba { r: 0, g: 0, b: 0, a: 0xff }
}

/// Every pixel cleared.
pub open spec fn clear_all(pixels: Seq<Rgba>) -> Seq<Rgba> {
    Seq::new(pixels.len(), |k: int| cleared(pixels[k]))
}

/// `(x, y)` is strictly closer than `r` to `(cx, cy)`.
pub open spec fn in_disk(x: int, y: int, cx: int, cy: int, r: int) -> bool {
    (x - cx) * (x - cx) + (y - cy) * (y - cy) < r * r
}

/// The canvas, `width` pixels to a row, with every pixel strictly closer than `r` to `(cx, cy)`
/// in the accent colour.
pub open spec fn stamp_circle_spec(
    pixels: Seq<Rgba>,
    width: int,
    cx: int,
    cy: int,
    r: int,
) -> Seq<Rgba> {
    Seq::new(
        pixels.len(),
        |k: int|
            if in_disk(k % width, k / width, cx, cy, r) {
                accented(pixels[k])
            } else {
                pixels[k]
            },
    )
}

/// The pixel coordinate of a unit-interval coordinate `c` on an axis of `extent` pixels.
pub open spec fn pixel_of(c: int, extent: int) -> int {
    (c * extent) / (ONE as int)
}

/// The canvas after a circle is stamped at each of the first `count` particles, in order.
pub open spec fn stamp_particles(
    pixels: Seq<Rgba>,
    particles: Seq<Particle>,
    width: int,
    height: int,
    count: nat,
) -> Seq<Rgba>
    decreases count,
{
    if count == 0 {
        pixels
    } else {
        let p = particles[count - 1];
        stamp_circle_spec(
            stamp_particles(pixels, particles, width, height, (count - 1) as nat),
            width,
            pixel_of(p.position.x as int, width),
            pixel_of(p.position.y as int, height),
            STAMP_RADIUS as int,
        )
    }
}

/// The tick counter after one more tick: it wraps to zero when it reaches the decay period.
pub open spec fn next_counter(nticks: int, period: int) -> int {
    if nticks + 1 == period {
        0
    } else {
        nticks + 1
    }
}

/// The canvas that a tick draws on: cleared when the counter reaches the decay period.
pub open spec fn tick_base(pixels: Seq<Rgba>, nticks: int, period: int) -> Seq<Rgba> {
    if nticks + 1 == period {
        clear_all(pixels)
    } else {
        pixels
    }
}

/// The canvas with the circle stamped on the rows above `row` and on row `row` left of `col`.
spec fn stamped_before(
    pixels: Seq<Rgba>,
    width: int,
    cx: int,
    cy: int,
    r: int,
    row: int,
    col: int,
) -> Seq<Rgba> {
    Seq::new(
        pixels.len(),
        |k: int|
            if in_disk(k % width, k / width, cx, cy, r) && (k / width < row || (k / width == row
                && k % width < col)) {
                accented(pixels[k])
            } else {
                pixels[k]
            },
    )
}

/// A pixel index splits into a row below `h` and a column below `w`.
proof fn lemma_row_col(k: int, w: int, h: int)
    requires
        0 <= k < w * h,
        w > 0,
    ensures
        0 <= k % w < w,
        0 <= k / w < h,
        k == (k / w) * w + k % w,
{
    vstd::arithmetic::div_mod::lemma_fundamental_div_mod(k, w);
    vstd::arithmetic::div_mod::lemma_mod_pos_bound(k, w);
    vstd::arithmetic::div_mod::lemma_div_pos_is_pos(k, w);
    let q = k / w;
    if q >= h {
        assert(w * q >= w * h) by (nonlinear_arith)
            requires q >= h, w > 0;
    }
    assert(w * q == q * w) by (nonlinear_arith);
}

/// The row and column of the index `row * w + col`.
proof fn lemma_index_of(row: int, col: int, w: int)
    requires
        0 <= row,
        0 <= col < w,
    ensures
        (row * w + col) / w == row,
        (row * w + col) % w == col,
{
    vstd::arithmetic::div_mod::lemma_fundamental_div_mod_converse(row * w + col, w, row, col);
}

/// A point outside the square of side `2 r + 1` around the centre is outside the disk.
proof fn lemma_outside_box(x: int, y: int, cx: int, cy: int, r: int)
    requires
        r >= 0,
        x < cx - r || x > cx + r || y < cy - r || y > cy + r,
    ensures
        !in_disk(x, y, cx, cy, r),
{
    assert(!in_disk(x, y, cx, cy, r)) by (nonlinear_arith)
        requires
            r >= 0,
            x < cx - r || x > cx + r || y < cy - r || y > cy + r,
    {
        assert((x - cx) * (x - cx) >= 0);
        assert((y - cy) * (y - cy) >= 0);
    }
}

/// Stamping a circle that covers no pixel of the canvas leaves the canvas as it was.
proof fn lemma_disk_misses_canvas(pixels: Seq<Rgba>, w: int, h: int, cx: int, cy: int, r: int)
    requires
        w > 0,
        pixels.len() == w * h,
        r >= 0,
        forall|k: int|
            0 <= k < pixels.len() ==> !in_disk(#[trigger] (k % w), k / w, cx, cy, r),
    ensures
        stamp_circle_spec(pixels, w, cx, cy, r) == pixels,
{
    assert(stamp_circle_spec(pixels, w, cx, cy, r) =~= pixels);
}

/// The pixel coordinate of the unit-interval coordinate `c` on an axis of `extent` pixels.
fn pixel_coord(c: i64, extent: u32) -> (p: u32)
    requires
        0 <= c <= ONE,
    ensures
        p == pixel_of(c as int, extent as int),
{
    proof {
        let e = extent as int;
        assert(0 <= c * e <= ONE * e) by (nonlinear_arith)
            requires 0 <= c <= ONE, e >= 0;
        vstd::arithmetic::div_mod::lemma_div_is_ordered(c * e, ONE * e, ONE as int);
        vstd::arithmetic::div_mod::lemma_div_multiples_vanish(e, ONE as int);
        vstd::arithmetic::div_mod::lemma_div_pos_is_pos(c * e, ONE as int);
        assert(ONE * e == e * ONE);
    }
    ((c as u64 * extent as u64) / ONE) as u32
}

/// A canvas of RGBA pixels on which a particle field is drawn, tick by tick.
pub struct Grid {
    width: u32,
    height: u32,
    pixels: Vec<Rgba>,
    flowfield: FlowField,
    nticks: u32,
    grid_lifetime: u32,
}

impl Grid {
    /// The number of pixels in a row.
    pub closed spec fn width_spec(&self) -> nat {
        self.width as nat
    }

    /// The number of rows.
    pub closed spec fn height_spec(&self) -> nat {
        self.height as nat
    }

    /// The pixels, row after row: `(x, y)` is at `y * width + x`.
    pub closed spec fn pixels_spec(&self) -> Seq<Rgba> {
        self.pixels@
    }

    /// The particle system.
    pub closed spec fn flow_field_spec(&self) -> FlowField {
        self.flowfield
    }

    /// The ticks since the canvas was last cleared or the decay period was set.
    pub closed spec fn nticks_spec(&self) -> nat {
        self.nticks as nat
    }

    /// The decay period: the canvas is cleared once every this many ticks.
    pub closed spec fn grid_lifetime_spec(&self) -> nat {
        self.grid_lifetime as nat
    }

    /// The canvas holds `width * height` pixels, the particle system is well formed, and the
    /// counter is below the decay period.
    pub open spec fn wf(&self) -> bool {
        &&& self.pixels_spec().len() == self.width_spec() * self.height_spec()
        &&& self.flow_field_spec().wf()
        &&& 0 <= self.nticks_spec() < self.grid_lifetime_spec()
    }

    /// A `width` by `height` canvas of opaque black pixels, and a particle system of
    /// `nparticles` particles over `func` sampled on an `nsamples` by `nsamples` grid. The canvas
    /// is cleared every `lifetime` ticks.
    pub fn new<F: Fn(i64, i64) -> Vec2D>(
        width: u32,
        height: u32,
        nparticles: u32,
        nsamples: u32,
        lifetime: u32,
        func: &F,
        max_lifetime: u32,
        seed: u64,
    ) -> (g: Grid)
        requires
            width * height <= usize::MAX,
            nsamples > 0,
            lifetime > 0,
            max_lifetime > 0,
            defined_on_unit_square(*func),
        ensures
            g.wf(),
            g.width_spec() == width,
            g.height_spec() == height,
            g.pixels_spec() == Seq::new(
                (width * height) as nat,
                |k: int| opaque_black(),
            ),
            g.nticks_spec() == 0,
            g.grid_lifetime_spec() == lifetime,
            g.flow_field_spec().particles_spec().len() == nparticles,
            forall|k: int|
                0 <= k < nparticles ==> is_fresh(
                    #[trigger] g.flow_field_spec().particles_spec()[k],
                    max_lifetime as int,
                ),
            g.flow_field_spec().nsamples_spec() == nsamples,
            g.flow_field_spec().max_lifetime_spec() == max_lifetime,
            samples_field(
                *func,
                g.flow_field_spec().velocities_spec(),
                nsamples as nat,
                DT as int,
            ),
    {
        let total: usize = width as usize * height as usize;
        let mut pixels: Vec<Rgba> = Vec::new();
        let mut k: usize = 0;
        while k < total
            invariant
                k <= total,
                pixels@.len() == k,
                forall|a: int| 0 <= a < k ==> #[trigger] pixels@[a] == opaque_black(),
            decreases total - k,
        {
            pixels.push(Rgba::from_u32(0x000000ff));
            k = k + 1;
        }
        let field = FlowField::new(nparticles, nsamples, func, max_lifetime, seed);
        let g = Grid { width, height, pixels, flowfield: field, nticks: 0, grid_lifetime: lifetime };
        assert(g.pixels_spec() =~= Seq::new(
            (width * height) as nat,
            |k: int| opaque_black(),
        ));
        g
    }

    /// Sets the colour channels of every pixel to zero; alpha is kept.
    pub fn clear(&mut self)
        requires
            old(self).wf(),
        ensures
            final(self).wf(),
            final(self).pixels_spec() == clear_all(old(self).pixels_spec()),
            final(self).width_spec() == old(self).width_spec(),
            final(self).height_spec() == old(self).height_spec(),
            final(self).flow_field_spec() == old(self).flow_field_spec(),
            final(self).nticks_spec() == old(self).nticks_spec(),
            final(self).grid_lifetime_spec() == old(self).grid_lifetime_spec(),
    {
        let total = self.pixels.len();
        let mut k: usize = 0;
        while k < total
            invariant
                k <= total,
                total == old(self).pixels@.len(),
                self.pixels@.len() == total,
                self.width == old(self).width,
                self.height == old(self).height,
                self.flowfield == old(self).flowfield,
                self.nticks == old(self).nticks,
                self.grid_lifetime == old(self).grid_lifetime,
                forall|a: int|
                    0 <= a < k ==> #[trigger] self.pixels@[a] == cleared(old(self).pixels@[a]),
                forall|a: int| k <= a < total ==> #[trigger] self.pixels@[a] == old(self).pixels@[a],
            decreases total - k,
        {
            let alpha = self.pixels[k].a;
            self.pixels.set(k, Rgba { r: 0x00, g: 0x00, b: 0x00, a: alpha });
            k = k + 1;
        }
        assert(self.pixels@ =~= clear_all(old(self).pixels@));
    }

    /// The index of the pixel in row `row`, column `col`.
    fn get_index(&self, row: u32, col: u32) -> (idx: usize)
        requires
            self.wf(),
            row < self.height_spec(),
            col < self.width_spec(),
        ensures
            idx == row * self.width_spec() + col,
            idx < self.pixels_spec().len(),
    {
        let total: usize = self.pixels.len();
        proof {
            let w = self.width as int;
            let h = self.height as int;
            assert(row * w <= row * w + col < w * h) by (nonlinear_arith)
                requires row < h, col < w;
            assert(row * w + col < total);
        }
        row as usize * self.width as usize + col as usize
    }

    /// Colours every pixel strictly closer than `r` to `(x, y)`, column `x` of row `y`, in
    /// the accent colour; alpha is kept. Pixels outside the canvas are skipped.
    pub fn circle(&mut self, x: u32, y: u32, r: u32)
        requires
            old(self).wf(),
        ensures
            final(self).wf(),
            final(self).pixels_spec() == stamp_circle_spec(
                old(self).pixels_spec(),
                old(self).width_spec() as int,
                x as int,
                y as int,
                r as int,
            ),
            final(self).width_spec() == old(self).width_spec(),
            final(self).height_spec() == old(self).height_spec(),
            final(self).flow_field_spec() == old(self).flow_field_spec(),
            final(self).nticks_spec() == old(self).nticks_spec(),
            final(self).grid_lifetime_spec() == old(self).grid_lifetime_spec(),
    {
        let ghost before = self.pixels@;
        let ghost w = self.width as int;
        let ghost h = self.height as int;
        let ghost (cx, cy, ri) = (x as int, y as int, r as int);
        if self.width == 0 || self.height == 0 {
            assert(w * h == 0) by (nonlinear_arith)
                requires w == 0 || h == 0;
            assert(self.pixels@ =~= stamp_circle_spec(before, w, cx, cy, ri));
            return;
        }
        let x0: u32 = if x >= r { x - r } else { 0 };
        let y0: u32 = if y >= r { y - r } else { 0 };
        let x1: u32 = if (x as u64) + (r as u64) < self.width as u64 { x + r } else { self.width - 1 };
        let y1: u32 = if (y as u64) + (r as u64) < self.height as u64 { y + r } else { self.height - 1 };
        if x0 > x1 || y0 > y1 {
            proof {
                assert forall|k: int| 0 <= k < before.len() implies !in_disk(#[trigger] (k % w), k / w, cx, cy, ri) by {
                    lemma_row_col(k, w, h);
                    lemma_outside_box(k % w, k / w, cx, cy, ri);
                }
                lemma_disk_misses_canvas(before, w, h, cx, cy, ri);
            }
            return;
        }
        proof {
            assert forall|k: int| 0 <= k < before.len() implies #[trigger] before[k] == stamped_before(before, w, cx, cy, ri, y0 as int, 0)[k] by {
                lemma_row_col(k, w, h);
                if k / w < y0 {
                    lemma_outside_box(k % w, k / w, cx, cy, ri);
                }
            }
            assert(before =~= stamped_before(before, w, cx, cy, ri, y0 as int, 0));
        }
        let mut yy: u32 = y0;
        while yy <= y1
            invariant
                w == self.width,
                h == self.height,
                w > 0,
                h > 0,
                cx == x,
                cy == y,
                ri == r,
                x0 <= x1 < w,
                y0 <= yy <= y1 + 1,
                y1 < h,
                x0 == if x >= r { x - r } else { 0 },
                y0 == if y >= r { y - r } else { 0 },
                x1 == if (x as u64) + (r as u64) < w { x + r } else { w - 1 },
                y1 == if (y as u64) + (r as u64) < h { y + r } else { h - 1 },
                before == old(self).pixels@,
                before.len() == w * h,
                self.pixels@ == stamped_before(before, w, cx, cy, ri, yy as int, 0),
                self.width == old(self).width,
                self.height == old(self).height,
                self.flowfield == old(self).flowfield,
                self.nticks == old(self).nticks,
                self.grid_lifetime == old(self).grid_lifetime,
                old(self).wf(),
            decreases y1 + 1 - yy,
        {
            proof {
                let a = stamped_before(before, w, cx, cy, ri, yy as int, 0);
                let b = stamped_before(before, w, cx, cy, ri, yy as int, x0 as int);
                assert forall|k: int| 0 <= k < before.len() implies #[trigger] a[k] == b[k] by {
                    lemma_row_col(k, w, h);
                    if k % w < x0 {
                        lemma_outside_box(k % w, k / w, cx, cy, ri);
                    }
                }
                assert(a =~= b);
            }
            let mut xx: u32 = x0;
            while xx <= x1
                invariant
                    w == self.width,
                    h == self.height,
                    w > 0,
                    h > 0,
                    cx == x,
                    cy == y,
                    ri == r,
                    x0 <= xx <= x1 + 1,
                    x1 < w,
                    y0 <= yy <= y1,
                    y1 < h,
                    before == old(self).pixels@,
                    before.len() == w * h,
                    self.pixels@ == stamped_before(before, w, cx, cy, ri, yy as int, xx as int),
                    self.width == old(self).width,
                    self.height == old(self).height,
                    self.flowfield == old(self).flowfield,
                    self.nticks == old(self).nticks,
                    self.grid_lifetime == old(self).grid_lifetime,
                    old(self).wf(),
                decreases x1 + 1 - xx,
            {
                let ghost cur = self.pixels@;
                let dx: u128 = if xx >= x { (xx - x) as u128 } else { (x - xx) as u128 };
                let dy: u128 = if yy >= y { (yy - y) as u128 } else { (y - yy) as u128 };
                proof {
                    assert(dx * dx == (xx - cx) * (xx - cx)) by (nonlinear_arith)
                        requires dx == xx - cx || dx == cx - xx;
                    assert(dy * dy == (yy - cy) * (yy - cy)) by (nonlinear_arith)
                        requires dy == yy - cy || dy == cy - yy;
                    assert(dx * dx <= 0xffff_ffff * 0xffff_ffff) by (nonlinear_arith)
                        requires dx <= 0xffff_ffff;
                    assert(dy * dy <= 0xffff_ffff * 0xffff_ffff) by (nonlinear_arith)
                        requires dy <= 0xffff_ffff;
                }
                proof {
                    assert(r * r <= 0xffff_ffff * 0xffff_ffff) by (nonlinear_arith)
                        requires r <= 0xffff_ffff;
                }
                let rr: u128 = r as u128 * r as u128;
                proof {
                    lemma_index_of(yy as int, xx as int, w);
                }
                if dx * dx + dy * dy < rr {
                    let i = self.get_index(yy, xx);
                    let alpha = self.pixels[i].a;
                    self.pixels.set(i, Rgba { r: 0xf9, g: 0xa9, b: 0x00, a: alpha });
                }
                proof {
                    let next = stamped_before(before, w, cx, cy, ri, yy as int, xx + 1);
                    assert forall|k: int| 0 <= k < before.len() implies #[trigger] self.pixels@[k] == next[k] by {
                        lemma_row_col(k, w, h);
                    }
                    assert(self.pixels@ =~= next);
                }
                xx = xx + 1;
            }
            proof {
                let a = stamped_before(before, w, cx, cy, ri, yy as int, x1 + 1);
                let b = stamped_before(before, w, cx, cy, ri, yy + 1, 0);
                assert forall|k: int| 0 <= k < before.len() implies #[trigger] a[k] == b[k] by {
                    lemma_row_col(k, w, h);
                    if k / w == yy && k % w > x1 {
                        lemma_outside_box(k % w, k / w, cx, cy, ri);
                    }
                }
                assert(a =~= b);
            }
            yy = yy + 1;
        }
        proof {
            let a = stamped_before(before, w, cx, cy, ri, y1 + 1, 0);
            let b = stamp_circle_spec(before, w, cx, cy, ri);
            assert forall|k: int| 0 <= k < before.len() implies #[trigger] a[k] == b[k] by {
                lemma_row_col(k, w, h);
                if k / w > y1 {
                    lemma_outside_box(k % w, k / w, cx, cy, ri);
                }
            }
            assert(a =~= b);
        }
    }

    /// Advances the particle system by one tick and draws it: the counter moves on, the canvas
    /// is cleared when the counter reaches the decay period, every particle takes one step, and
    /// a circle of radius `STAMP_RADIUS` is stamped at each particle's pixel.
    pub fn tick(&mut self)
        requires
            old(self).wf(),
        ensures
            final(self).wf(),
            final(self).width_spec() == old(self).width_spec(),
            final(self).height_spec() == old(self).height_spec(),
            final(self).grid_lifetime_spec() == old(self).grid_lifetime_spec(),
            final(self).nticks_spec() == next_counter(
                old(self).nticks_spec() as int,
                old(self).grid_lifetime_spec() as int,
            ),
            final(self).flow_field_spec().velocities_spec() == old(
                self,
            ).flow_field_spec().velocities_spec(),
            final(self).flow_field_spec().nsamples_spec() == old(self).flow_field_spec().nsamples_spec(),
            final(self).flow_field_spec().max_lifetime_spec() == old(
                self,
            ).flow_field_spec().max_lifetime_spec(),
            final(self).flow_field_spec().particles_spec().len() == old(
                self,
            ).flow_field_spec().particles_spec().len(),
            forall|k: int|
                0 <= k < final(self).flow_field_spec().particles_spec().len() ==> in_unit_square(
                    (#[trigger] final(self).flow_field_spec().particles_spec()[k]).position,
                ),
            forall|k: int|
                0 <= k < old(self).flow_field_spec().particles_spec().len() ==> ticked(
                    old(self).flow_field_spec().particles_spec()[k],
                    #[trigger] final(self).flow_field_spec().particles_spec()[k],
                    old(self).flow_field_spec().velocities_spec(),
                    old(self).flow_field_spec().nsamples_spec() as int,
                    old(self).flow_field_spec().max_lifetime_spec() as int,
                ),
            final(self).pixels_spec() == stamp_particles(
                tick_base(
                    old(self).pixels_spec(),
                    old(self).nticks_spec() as int,
                    old(self).grid_lifetime_spec() as int,
                ),
                final(self).flow_field_spec().particles_spec(),
                old(self).width_spec() as int,
                old(self).height_spec() as int,
                final(self).flow_field_spec().particles_spec().len(),
            ),
    {
        let next = self.nticks + 1;
        if next == self.grid_lifetime {
            self.clear();
            self.nticks = 0;
        } else {
            self.nticks = next;
        }
        self.flowfield.tick();
        let ghost base = self.pixels@;
        proof {
            assert(base == tick_base(
                old(self).pixels@,
                old(self).nticks as int,
                old(self).grid_lifetime as int,
            ));
        }
        let count = self.flowfield.particles().len();
        let mut i: usize = 0;
        while i < count
            invariant
                i <= count,
                count == self.flowfield.particles_spec().len(),
                self.wf(),
                self.width == old(self).width,
                self.height == old(self).height,
                self.grid_lifetime == old(self).grid_lifetime,
                self.nticks == next_counter(old(self).nticks as int, old(self).grid_lifetime as int),
                self.flowfield.particles_spec().len() == old(self).flowfield.particles_spec().len(),
                self.flowfield.velocities_spec() == old(self).flowfield.velocities_spec(),
                self.flowfield.nsamples_spec() == old(self).flowfield.nsamples_spec(),
                self.flowfield.max_lifetime_spec() == old(self).flowfield.max_lifetime_spec(),
                forall|k: int|
                    0 <= k < old(self).flowfield.particles_spec().len() ==> ticked(
                        old(self).flowfield.particles_spec()[k],
                        #[trigger] self.flowfield.particles_spec()[k],
                        old(self).flowfield.velocities_spec(),
                        old(self).flowfield.nsamples_spec() as int,
                        old(self).flowfield.max_lifetime_spec() as int,
                    ),
                self.pixels@ == stamp_particles(
                    base,
                    self.flowfield.particles_spec(),
                    self.width as int,
                    self.height as int,
                    i as nat,
                ),
            decreases count - i,
        {
            let p = self.flowfield.particles()[i];
            assert(in_unit_square(self.flowfield.particles_spec()[i as int].position));
            let xc = pixel_coord(p.position.x, self.width);
            let yc = pixel_coord(p.position.y, self.height);
            self.circle(xc, yc, STAMP_RADIUS);
            i = i + 1;
        }
    }

    /// Replaces the particle system by one of `nparticles` particles over `func` sampled on an
    /// `nsamples` by `nsamples` grid, and clears the canvas. The new system's random source is
    /// seeded from the old one's.
    pub fn set_flow_params<F: Fn(i64, i64) -> Vec2D>(
        &mut self,
        nparticles: u32,
        nsamples: u32,
        func: &F,
        max_lifetime: u32,
    )
        requires
            old(self).wf(),
            nsamples > 0,
            max_lifetime > 0,
            defined_on_unit_square(*func),
        ensures
            final(self).wf(),
            final(self).pixels_spec() == clear_all(old(self).pixels_spec()),
            final(self).width_spec() == old(self).width_spec(),
            final(self).height_spec() == old(self).height_spec(),
            final(self).nticks_spec() == old(self).nticks_spec(),
            final(self).grid_lifetime_spec() == old(self).grid_lifetime_spec(),
            final(self).flow_field_spec().particles_spec().len() == nparticles,
            forall|k: int|
                0 <= k < nparticles ==> is_fresh(
                    #[trigger] final(self).flow_field_spec().particles_spec()[k],
                    max_lifetime as int,
                ),
            final(self).flow_field_spec().nsamples_spec() == nsamples,
            final(self).flow_field_spec().max_lifetime_spec() == max_lifetime,
            samples_field(
                *func,
                final(self).flow_field_spec().velocities_spec(),
                nsamples as nat,
                DT as int,
            ),
    {
        self.clear();
        let seed = self.flowfield.next_seed();
        let field = FlowField::new(nparticles, nsamples, func, max_lifetime, seed);
        self.flowfield = field;
    }

    /// Sets the decay period to `lifetime` ticks and restarts the tick counter.
    pub fn set_grid_lifetime(&mut self, lifetime: u32)
        requires
            old(self).wf(),
            lifetime > 0,
        ensures
            final(self).wf(),
            final(self).grid_lifetime_spec() == lifetime,
            final(self).nticks_spec() == 0,
            final(self).pixels_spec() == old(self).pixels_spec(),
            final(self).width_spec() == old(self).width_spec(),
            final(self).height_spec() == old(self).height_spec(),
            final(self).flow_field_spec() == old(self).flow_field_spec(),
    {
        self.grid_lifetime = lifetime;
        self.nticks = 0;
    }

    /// The number of rows.
    pub fn height(&self) -> (h: u32)
        ensures
            h == self.height_spec(),
    {
        self.height
    }

    /// The number of pixels in a row.
    pub fn width(&self) -> (w: u32)
        ensures
            w == self.width_spec(),
    {
        self.width
    }

    /// The pixels, row after row, each as red, green, blue and alpha.
    pub fn pixels(&self) -> (p: &[Rgba])
        ensures
            p@ == self.pixels_spec(),
    {
        self.pixels.as_slice()
    }

    /// The particles of the particle system.
    pub fn particles(&self) -> (p: &[Particle])
        ensures
            p@ == self.flow_field_spec().particles_spec(),
    {
        self.flowfield.particles()
    }
}

} // verus!
