//! The sampling grid: the abscissas `x_min`, `x_min + step`, `x_min + 2 step`, ...
//! up to `x_max`.

use vstd::prelude::*;

verus! {

/// Stride of the grid where the caller has no reason to choose another.
pub const DEFAULT_STEP: u32 = 5;

/// How many abscissas the grid from `x_min` to `x_max` holds: none where the
/// range is empty, and none without a stride.
pub open spec fn sample_count(x_min: int, x_max: int, step: int) -> nat {
    if x_min > x_max || step <= 0 {
        0
    } else {
        ((x_max - x_min) / step + 1) as nat
    }
}

/// The abscissa with index `i` of the grid.
pub open spec fn sample_x(x_min: int, step: int, i: int) -> int {
    x_min + i * step
}

/// The grid lies in its range, and ends only where one more stride would
/// leave the range.
pub proof fn lemma_grid_in_range(x_min: int, x_max: int, step: int, i: int)
    requires
        step > 0,
        0 <= i < sample_count(x_min, x_max, step),
    ensures
        x_min <= sample_x(x_min, step, i) <= x_max,
        x_max < sample_x(x_min, step, sample_count(x_min, x_max, step) as int),
{
    let span: int = x_max - x_min;
    let q: int = span / step;
    assert(q * step <= span < q * step + step && (i <= q ==> i * step <= q * step) && 0 <= i
        * step) by (nonlinear_arith)
        requires
            step > 0,
            span >= 0,
            q == span / step,
            i >= 0,
    ;
    assert((q + 1) * step == q * step + step) by (nonlinear_arith);
}

/// An abscissa `x_min + i step` belongs to the grid exactly where it does not
/// pass `x_max`.
pub proof fn lemma_grid_membership(x_min: int, x_max: int, step: int, i: int)
    requires
        step > 0,
        0 <= i,
    ensures
        sample_x(x_min, step, i) <= x_max <==> i < sample_count(x_min, x_max, step),
{
    let span: int = x_max - x_min;
    if span < 0 {
        assert(0 <= i * step) by (nonlinear_arith)
            requires
                step > 0,
                i >= 0,
        ;
    } else {
        let q: int = span / step;
        assert(q * step <= span < q * step + step && (i <= q ==> i * step <= q * step) && (i > q
            ==> i * step >= q * step + step)) by (nonlinear_arith)
            requires
                step > 0,
                span >= 0,
                q == span / step,
                i >= 0,
        ;
    }
}

/// The grid rises by one stride from each abscissa to the next.
pub proof fn lemma_grid_rises(x_min: int, step: int, i: int)
    requires
        step > 0,
    ensures
        sample_x(x_min, step, i + 1) == sample_x(x_min, step, i) + step,
        sample_x(x_min, step, i) < sample_x(x_min, step, i + 1),
{
    assert((i + 1) * step == i * step + step) by (nonlinear_arith);
}

/// The horizontal extent to sample for a clip rectangle that reaches from
/// `clip_left` to `clip_right`: one stride more on each side, so that no arc
/// is cut at the rectangle's edge. It starts no further left than 0 and ends
/// no further right than the largest coordinate.
pub open spec fn extent_of(clip_left: int, clip_right: int, step: int) -> (int, int) {
    (
        if clip_left - step > 0 {
            clip_left - step
        } else {
            0
        },
        if clip_right + step < i32::MAX {
            clip_right + step
        } else {
            i32::MAX as int
        },
    )
}

/// Computes `extent_of`.
pub fn sample_extent(clip_left: i32, clip_right: i32, step: u32) -> (r: (i32, i32))
    ensures
        (r.0 as int, r.1 as int) == extent_of(clip_left as int, clip_right as int, step as int),
{
    let left: i64 = (clip_left as i64) - (step as i64);
    let right: i64 = (clip_right as i64) + (step as i64);
    let x_min: i32 = if left > 0 {
        left as i32
    } else {
        0
    };
    let x_max: i32 = if right < (i32::MAX as i64) {
        right as i32
    } else {
        i32::MAX
    };
    (x_min, x_max)
}

/// The abscissas of the grid, in rising order.
pub fn sample_positions(x_min: i32, x_max: i32, step: u32) -> (xs: Vec<i32>)
    ensures
        xs@.len() == sample_count(x_min as int, x_max as int, step as int),
        forall|i: int| 0 <= i < xs@.len() ==> xs@[i] == sample_x(x_min as int, step as int, i),
{
    let mut xs: Vec<i32> = Vec::new();
    if step == 0 {
        return xs;
    }
    let mut x: i64 = x_min as i64;
    while x <= (x_max as i64)
        invariant
            step > 0,
            x == sample_x(x_min as int, step as int, xs@.len() as int),
            x_min <= x,
            x <= x_max + step || xs@.len() == 0,
            forall|i: int| 0 <= i < xs@.len() ==> xs@[i] == sample_x(x_min as int, step as int, i),
            xs@.len() > 0 ==> sample_x(x_min as int, step as int, xs@.len() - 1) <= x_max,
        decreases x_max + step - x,
    {
        proof {
            lemma_grid_rises(x_min as int, step as int, xs@.len() as int);
        }
        xs.push(x as i32);
        x = x + (step as i64);
    }
    proof {
        let n: int = xs@.len() as int;
        let span: int = x_max - x_min;
        let s: int = step as int;
        if n > 0 {
            assert(span / s == n - 1) by (nonlinear_arith)
                requires
                    s > 0,
                    n >= 1,
                    (n - 1) * s <= span < n * s,
            ;
        }
    }
    xs
}

} // verus!
