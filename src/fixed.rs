use vstd::prelude::*;

verus! {

/// The fixed-point unit: a coordinate of `ONE` stands for 1.0.
pub const ONE: u64 = 1_000_000;

/// The time step of one tick, in fixed-point units (0.005).
pub const DT: u64 = 5_000;

/// `c * alpha` in fixed-point arithmetic, rounded towards minus infinity.
pub open spec fn scale(c: int, alpha: int) -> int {
    (c * alpha) / (ONE as int)
}

/// `c` limited to the range `[lo, hi]`.
pub open spec fn clamp_spec(c: int, lo: int, hi: int) -> int {
    if c < lo {
        lo
    } else if c > hi {
        hi
    } else {
        c
    }
}

/// A vector, or a point, of two fixed-point components.
#[derive(Debug, Clone, Copy, PartialEq, Eq, Structural)]
pub struct Vec2D {
    pub x: i64,
    pub y: i64,
}

/// A component scaled by a factor of at most one.
fn scale_component(c: i64, alpha: u64) -> (r: i64)
    requires
        alpha <= ONE,
    ensures
        r == scale(c as int, alpha as int),
{
    proof {
        let ci = c as int;
        let ai = alpha as int;
        assert(-0x8000_0000_0000_0000 * 1_000_000 <= ci * ai <= 0x7fff_ffff_ffff_ffff * 1_000_000)
            by (nonlinear_arith)
            requires -0x8000_0000_0000_0000 <= ci <= 0x7fff_ffff_ffff_ffff, 0 <= ai <= 1_000_000;
    }
    let p: i128 = c as i128 * alpha as i128;
    let one: i128 = ONE as i128;
    if p >= 0 {
        let q: i128 = p / one;
        proof {
            lemma_scale_within(c as int, alpha as int);
        }
        q as i64
    } else {
        let n: i128 = -p;
        let q: i128 = (n + (one - 1)) / one;
        proof {
            lemma_negative_floor(p as int);
            lemma_scale_within(c as int, alpha as int);
        }
        (-q) as i64
    }
}

/// Floor division of a negative number by `ONE`, through a ceiling division of its negation.
proof fn lemma_negative_floor(p: int)
    requires
        p < 0,
    ensures
        (p / (ONE as int)) == -((-p + (ONE as int - 1)) / (ONE as int)),
{
    let one = ONE as int;
    let q = (-p + (one - 1)) / one;
    let s = (-p + (one - 1)) % one;
    assert(one * q + s == -p + (one - 1) && 0 <= s < one) by {
        vstd::arithmetic::div_mod::lemma_fundamental_div_mod(-p + (one - 1), one);
    }
    assert(p == (-q) * one + (one - 1 - s)) by (nonlinear_arith)
        requires one * q + s == -p + (one - 1);
    vstd::arithmetic::div_mod::lemma_fundamental_div_mod_converse(p, one, -q, one - 1 - s);
}

/// A scaled component stays within the range of the component.
proof fn lemma_scale_within(c: int, alpha: int)
    requires
        -0x8000_0000_0000_0000 <= c <= 0x7fff_ffff_ffff_ffff,
        0 <= alpha <= ONE,
    ensures
        -0x8000_0000_0000_0000 <= scale(c, alpha) <= 0x7fff_ffff_ffff_ffff,
{
    let one = ONE as int;
    if c >= 0 {
        assert(0 <= c * alpha <= c * one) by (nonlinear_arith)
            requires 0 <= c, 0 <= alpha <= one;
        vstd::arithmetic::div_mod::lemma_div_is_ordered(c * alpha, c * one, one);
        vstd::arithmetic::div_mod::lemma_div_multiples_vanish(c, one);
        vstd::arithmetic::div_mod::lemma_div_pos_is_pos(c * alpha, one);
    } else {
        assert(c * one <= c * alpha <= 0) by (nonlinear_arith)
            requires c < 0, 0 <= alpha <= one;
        vstd::arithmetic::div_mod::lemma_div_is_ordered(c * one, c * alpha, one);
        vstd::arithmetic::div_mod::lemma_div_multiples_vanish(c, one);
        vstd::arithmetic::div_mod::lemma_div_is_ordered(c * alpha, 0, one);
    }
}

impl Vec2D {
    /// Adds `other` to this vector, component by component.
    pub fn add(&mut self, other: &Vec2D)
        requires
            i64::MIN <= old(self).x + other.x <= i64::MAX,
            i64::MIN <= old(self).y + other.y <= i64::MAX,
        ensures
            final(self).x == old(self).x + other.x,
            final(self).y == old(self).y + other.y,
    {
        self.x = self.x + other.x;
        self.y = self.y + other.y;
    }

    /// Multiplies this vector by the fixed-point factor `alpha`, which is at most one.
    pub fn mul(&mut self, alpha: u64)
        requires
            alpha <= ONE,
        ensures
            final(self).x == scale(old(self).x as int, alpha as int),
            final(self).y == scale(old(self).y as int, alpha as int),
    {
        self.x = scale_component(self.x, alpha);
        self.y = scale_component(self.y, alpha);
    }

    /// Limits both components to `[min, max]`.
    pub fn clamp(&mut self, min: i64, max: i64)
        requires
            min <= max,
        ensures
            final(self).x == clamp_spec(old(self).x as int, min as int, max as int),
            final(self).y == clamp_spec(old(self).y as int, min as int, max as int),
    {
        self.x = if self.x < min {
            min
        } else if self.x > max {
            max
        } else {
            self.x
        };
        self.y = if self.y < min {
            min
        } else if self.y > max {
            max
        } else {
            self.y
        };
    }
}

} // verus!
