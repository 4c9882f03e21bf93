use vstd::prelude::*;

use crate::fixed::{ONE, Vec2D, scale};

verus! {

/// The centre of cell `i` of `n` along one axis, `(i + 0.5) / n`, in fixed point.
pub open spec fn center_of(i: int, n: int) -> int {
    ((2 * i + 1) * ONE) / (2 * n)
}

/// `cell` is what `func` may return at `(x, y)`, scaled by the time step `dt`.
pub open spec fn is_sample_of<F: Fn(i64, i64) -> Vec2D>(
    func: F,
    x: int,
    y: int,
    dt: int,
    cell: Vec2D,
) -> bool {
    exists|v: Vec2D|
        #[trigger] func.ensures((x as i64, y as i64), v) && cell.x == scale(v.x as int, dt)
            && cell.y == scale(v.y as int, dt)
}

/// `cells` is an `n` by `n` grid whose cell `(i, j)` holds the field at the cell's centre,
/// scaled by `dt`.
pub open spec fn samples_field<F: Fn(i64, i64) -> Vec2D>(
    func: F,
    cells: Seq<Vec<Vec2D>>,
    n: nat,
    dt: int,
) -> bool {
    &&& cells.len() == n
    &&& forall|i: int| 0 <= i < n ==> (#[trigger] cells[i])@.len() == n
    &&& forall|i: int, j: int|
        0 <= i < n && 0 <= j < n ==> is_sample_of(
            func,
            center_of(i, n as int),
            center_of(j, n as int),
            dt,
            #[trigger] cells[i]@[j],
        )
}

/// A field that may be evaluated anywhere in the closed unit square.
pub open spec fn defined_on_unit_square<F: Fn(i64, i64) -> Vec2D>(func: F) -> bool {
    forall|x: i64, y: i64| 0 <= x <= ONE && 0 <= y <= ONE ==> #[trigger] func.requires((x, y))
}

/// A cell centre lies inside the unit square.
proof fn lemma_center_in_unit(i: int, n: int)
    requires
        0 <= i < n,
    ensures
        0 <= center_of(i, n) < ONE,
{
    let one = ONE as int;
    assert(0 <= (2 * i + 1) * one < one * (2 * n)) by (nonlinear_arith)
        requires 0 <= i < n, one > 0;
    vstd::arithmetic::div_mod::lemma_div_pos_is_pos((2 * i + 1) * one, 2 * n);
    vstd::arithmetic::div_mod::lemma_div_by_multiple_is_strongly_ordered(
        (2 * i + 1) * one,
        one * (2 * n),
        one,
        2 * n,
    );
    vstd::arithmetic::div_mod::lemma_div_multiples_vanish(one, 2 * n);
}

fn cell_center(i: u32, n: u32) -> (c: i64)
    requires
        i < n,
    ensures
        c == center_of(i as int, n as int),
        0 <= c < ONE,
{
    proof {
        lemma_center_in_unit(i as int, n as int);
    }
    let num: u64 = (2 * i as u64 + 1) * ONE;
    let den: u64 = 2 * n as u64;
    (num / den) as i64
}

/// Samples `func` at the centre of each cell of an `nsamples` by `nsamples` grid over the unit
/// square and scales each value by the time step `dt`.
pub fn sample_field<F: Fn(i64, i64) -> Vec2D>(func: &F, nsamples: u32, dt: u64) -> (cells: Vec<
    Vec<Vec2D>,
>)
    requires
        dt <= ONE,
        defined_on_unit_square(*func),
    ensures
        samples_field(*func, cells@, nsamples as nat, dt as int),
{
    let mut cells: Vec<Vec<Vec2D>> = Vec::new();
    let mut i: u32 = 0;
    while i < nsamples
        invariant
            i <= nsamples,
            dt <= ONE,
            defined_on_unit_square(*func),
            cells@.len() == i,
            forall|a: int| 0 <= a < i ==> (#[trigger] cells@[a])@.len() == nsamples,
            forall|a: int, b: int|
                0 <= a < i && 0 <= b < nsamples ==> is_sample_of(
                    *func,
                    center_of(a, nsamples as int),
                    center_of(b, nsamples as int),
                    dt as int,
                    #[trigger] cells@[a]@[b],
                ),
        decreases nsamples - i,
    {
        let x = cell_center(i, nsamples);
        let mut row: Vec<Vec2D> = Vec::new();
        let mut j: u32 = 0;
        while j < nsamples
            invariant
                i < nsamples,
                j <= nsamples,
                dt <= ONE,
                defined_on_unit_square(*func),
                x == center_of(i as int, nsamples as int),
                0 <= x < ONE,
                row@.len() == j,
                forall|b: int|
                    0 <= b < j ==> is_sample_of(
                        *func,
                        center_of(i as int, nsamples as int),
                        center_of(b, nsamples as int),
                        dt as int,
                        #[trigger] row@[b],
                    ),
            decreases nsamples - j,
        {
            let y = cell_center(j, nsamples);
            let raw = func(x, y);
            let mut v = raw;
            v.mul(dt);
            assert((*func).ensures((x, y), raw));
            assert(x == center_of(i as int, nsamples as int) as i64);
            assert(y == center_of(j as int, nsamples as int) as i64);
            assert(is_sample_of(
                *func,
                center_of(i as int, nsamples as int),
                center_of(j as int, nsamples as int),
                dt as int,
                v,
            ));
            row.push(v);
            j = j + 1;
        }
        cells.push(row);
        i = i + 1;
    }
    cells
}

} // verus!
