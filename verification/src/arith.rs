//! Facts about products and quotients of integers that the other modules
//! lean on.

use vstd::prelude::*;

verus! {

/// The product of two bounded integers is bounded by the product of the
/// bounds.
pub proof fn lemma_product_bound(a: int, b: int, ba: int, bb: int)
    by (nonlinear_arith)
    requires
        -ba <= a <= ba,
        -bb <= b <= bb,
    ensures
        -(ba * bb) <= a * b <= ba * bb,
{
}

/// The product of two positive integers is positive.
pub proof fn lemma_product_positive(a: int, b: int)
    by (nonlinear_arith)
    requires
        a > 0,
        b > 0,
    ensures
        a * b > 0,
{
}

/// A negative integer divided by a positive one, rounded down, is negative.
pub proof fn lemma_negative_quotient(num: int, den: int)
    by (nonlinear_arith)
    requires
        num < 0,
        den > 0,
    ensures
        num / den < 0,
{
}

/// Where `tiles` divides `total`, the quotient times `tiles` is `total`.
pub proof fn lemma_exact_division(total: int, tiles: int)
    by (nonlinear_arith)
    requires
        total > 0,
        tiles > 0,
        total % tiles == 0,
    ensures
        total / tiles > 0,
        tiles * (total / tiles) == total,
{
}

/// An integer lies in the run of `step` integers that starts at `step` times
/// its quotient by `step`.
pub proof fn lemma_quotient_run(n: int, step: int)
    by (nonlinear_arith)
    requires
        n >= 0,
        step > 0,
    ensures
        n / step >= 0,
        (n / step) * step <= n < (n / step) * step + step,
        n % step == n - (n / step) * step,
{
}

/// The run of `step` integers that holds `n` starts at `step` times the
/// quotient of `n` by `step`, and at no other multiple.
pub proof fn lemma_run_is_quotient(k: int, n: int, step: int)
    by (nonlinear_arith)
    requires
        step > 0,
        k * step <= n < k * step + step,
    ensures
        k == n / step,
{
}

/// Below `count * step` the quotient by `step` is below `count`.
pub proof fn lemma_quotient_below(n: int, step: int, count: int)
    by (nonlinear_arith)
    requires
        step > 0,
        0 <= n < count * step,
    ensures
        n / step < count,
{
}

/// A run of `step` integers that starts at a multiple of `step` below
/// `count * step` ends at or below it.
pub proof fn lemma_run_inside(k: int, step: int, count: int)
    by (nonlinear_arith)
    requires
        0 <= k < count,
        step > 0,
    ensures
        0 <= k * step,
        k * step + step <= count * step,
        (k + 1) * step == k * step + step,
{
}

/// Counted row by row, the cell in column `x` of row `y` of a grid is one of
/// the grid's `width * height` cells.
pub proof fn lemma_cell_of_grid(x: int, y: int, width: int, height: int)
    by (nonlinear_arith)
    requires
        0 <= x < width,
        0 <= y < height,
    ensures
        0 <= y * width,
        0 <= y * width + x < width * height,
{
}

/// Remainder and quotient of a cell's number by the grid's width are a
/// column and a row of the grid, and give the number back.
pub proof fn lemma_grid_of_cell(n: int, width: int, height: int)
    by (nonlinear_arith)
    requires
        width > 0,
        0 <= n < width * height,
    ensures
        0 <= n % width < width,
        0 <= n / width < height,
        (n / width) * width + n % width == n,
{
}

} // verus!
