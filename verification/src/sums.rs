//! Finite sums over index ranges and rectangles, with the facts about them
//! that the pattern algorithms rely on.

use vstd::prelude::*;

verus! {

/// The sum of `f(i)` for `lo <= i < hi`.
pub open spec fn sum_range(lo: int, hi: int, f: spec_fn(int) -> int) -> int
    decreases hi - lo,
{
    if hi <= lo {
        0
    } else {
        sum_range(lo, hi - 1, f) + f(hi - 1)
    }
}

/// Row `y` of a function on the plane.
pub open spec fn row_of(g: spec_fn(int, int) -> int, y: int) -> spec_fn(int) -> int {
    |x: int| g(x, y)
}

/// The sum of `g(x, y)` for `x0 <= x < x1` on row `y`.
pub open spec fn row_sum(x0: int, x1: int, g: spec_fn(int, int) -> int, y: int) -> int {
    sum_range(x0, x1, row_of(g, y))
}

/// The sum of `g(x, y)` over the rectangle `x0 <= x < x1`, `y0 <= y < y1`.
pub open spec fn sum_rect(x0: int, x1: int, y0: int, y1: int, g: spec_fn(int, int) -> int) -> int
    decreases y1 - y0,
{
    if y1 <= y0 {
        0
    } else {
        sum_rect(x0, x1, y0, y1 - 1, g) + row_sum(x0, x1, g, y1 - 1)
    }
}

/// A range splits at any point inside it.
pub proof fn lemma_sum_range_split(lo: int, mid: int, hi: int, f: spec_fn(int) -> int)
    requires
        lo <= mid <= hi,
    ensures
        sum_range(lo, hi, f) == sum_range(lo, mid, f) + sum_range(mid, hi, f),
    decreases hi - mid,
{
    if hi > mid {
        lemma_sum_range_split(lo, mid, hi - 1, f);
    }
}

/// Each term lies between `a` and `b`, so the sum lies between the two
/// multiples of the number of terms.
pub proof fn lemma_sum_range_bounds(lo: int, hi: int, f: spec_fn(int) -> int, a: int, b: int)
    requires
        lo <= hi,
        forall|i: int| lo <= i < hi ==> a <= #[trigger] f(i) <= b,
    ensures
        (hi - lo) * a <= sum_range(lo, hi, f) <= (hi - lo) * b,
    decreases hi - lo,
{
    if hi > lo {
        lemma_sum_range_bounds(lo, hi - 1, f, a, b);
        assert((hi - lo) * a == (hi - 1 - lo) * a + a) by (nonlinear_arith);
        assert((hi - lo) * b == (hi - 1 - lo) * b + b) by (nonlinear_arith);
    } else {
        assert((hi - lo) * a == 0 && (hi - lo) * b == 0) by (nonlinear_arith)
            requires
                hi - lo == 0,
        ;
    }
}

/// Termwise order carries over to the sums.
pub proof fn lemma_sum_range_le(lo: int, hi: int, f: spec_fn(int) -> int, g: spec_fn(int) -> int)
    requires
        forall|i: int| lo <= i < hi ==> #[trigger] f(i) <= g(i),
    ensures
        sum_range(lo, hi, f) <= sum_range(lo, hi, g),
    decreases hi - lo,
{
    if hi > lo {
        lemma_sum_range_le(lo, hi - 1, f, g);
    }
}

/// The sum of a termwise sum is the sum of the sums.
pub proof fn lemma_sum_range_add(
    lo: int,
    hi: int,
    f: spec_fn(int) -> int,
    g: spec_fn(int) -> int,
    h: spec_fn(int) -> int,
)
    requires
        forall|i: int| lo <= i < hi ==> #[trigger] h(i) == f(i) + g(i),
    ensures
        sum_range(lo, hi, h) == sum_range(lo, hi, f) + sum_range(lo, hi, g),
    decreases hi - lo,
{
    if hi > lo {
        lemma_sum_range_add(lo, hi - 1, f, g, h);
    }
}

/// Terms outside `[a, b)` vanish, so only that part of the range counts.
pub proof fn lemma_sum_range_support(lo: int, hi: int, a: int, b: int, f: spec_fn(int) -> int)
    requires
        lo <= a <= b <= hi,
        forall|i: int| lo <= i < hi && !(a <= i < b) ==> #[trigger] f(i) == 0,
    ensures
        sum_range(lo, hi, f) == sum_range(a, b, f),
{
    lemma_sum_range_split(lo, a, hi, f);
    lemma_sum_range_split(a, b, hi, f);
    lemma_sum_range_bounds(lo, a, f, 0, 0);
    lemma_sum_range_bounds(b, hi, f, 0, 0);
}

/// Each term lies between `a` and `b`, so the sum lies between the two
/// multiples of the number of cells.
pub proof fn lemma_sum_rect_bounds(
    x0: int,
    x1: int,
    y0: int,
    y1: int,
    g: spec_fn(int, int) -> int,
    a: int,
    b: int,
)
    requires
        x0 <= x1,
        y0 <= y1,
        forall|x: int, y: int| x0 <= x < x1 && y0 <= y < y1 ==> a <= #[trigger] g(x, y) <= b,
    ensures
        (y1 - y0) * ((x1 - x0) * a) <= sum_rect(x0, x1, y0, y1, g) <= (y1 - y0) * ((x1 - x0) * b),
    decreases y1 - y0,
{
    let ra = (x1 - x0) * a;
    let rb = (x1 - x0) * b;
    if y1 > y0 {
        lemma_sum_rect_bounds(x0, x1, y0, y1 - 1, g, a, b);
        lemma_sum_range_bounds(x0, x1, row_of(g, y1 - 1), a, b);
        assert((y1 - y0) * ra == (y1 - 1 - y0) * ra + ra) by (nonlinear_arith);
        assert((y1 - y0) * rb == (y1 - 1 - y0) * rb + rb) by (nonlinear_arith);
    } else {
        assert((y1 - y0) * ra == 0 && (y1 - y0) * rb == 0) by (nonlinear_arith)
            requires
                y1 - y0 == 0,
        ;
    }
}

/// Termwise order carries over to the sums over a rectangle.
pub proof fn lemma_sum_rect_le(
    x0: int,
    x1: int,
    y0: int,
    y1: int,
    f: spec_fn(int, int) -> int,
    g: spec_fn(int, int) -> int,
)
    requires
        forall|x: int, y: int| x0 <= x < x1 && y0 <= y < y1 ==> #[trigger] f(x, y) <= g(x, y),
    ensures
        sum_rect(x0, x1, y0, y1, f) <= sum_rect(x0, x1, y0, y1, g),
    decreases y1 - y0,
{
    if y1 > y0 {
        lemma_sum_rect_le(x0, x1, y0, y1 - 1, f, g);
        lemma_sum_range_le(x0, x1, row_of(f, y1 - 1), row_of(g, y1 - 1));
    }
}

/// The sum of a termwise sum over a rectangle is the sum of the sums.
pub proof fn lemma_sum_rect_add(
    x0: int,
    x1: int,
    y0: int,
    y1: int,
    f: spec_fn(int, int) -> int,
    g: spec_fn(int, int) -> int,
    h: spec_fn(int, int) -> int,
)
    requires
        forall|x: int, y: int| x0 <= x < x1 && y0 <= y < y1 ==> #[trigger] h(x, y) == f(x, y) + g(x, y),
    ensures
        sum_rect(x0, x1, y0, y1, h) == sum_rect(x0, x1, y0, y1, f) + sum_rect(x0, x1, y0, y1, g),
    decreases y1 - y0,
{
    if y1 > y0 {
        lemma_sum_rect_add(x0, x1, y0, y1 - 1, f, g, h);
        lemma_sum_range_add(
            x0,
            x1,
            row_of(f, y1 - 1),
            row_of(g, y1 - 1),
            row_of(h, y1 - 1),
        );
    }
}

/// A rectangle splits between any two of its rows.
pub proof fn lemma_sum_rect_split_rows(
    x0: int,
    x1: int,
    y0: int,
    mid: int,
    y1: int,
    g: spec_fn(int, int) -> int,
)
    requires
        y0 <= mid <= y1,
    ensures
        sum_rect(x0, x1, y0, y1, g) == sum_rect(x0, x1, y0, mid, g) + sum_rect(x0, x1, mid, y1, g),
    decreases y1 - mid,
{
    if y1 > mid {
        lemma_sum_rect_split_rows(x0, x1, y0, mid, y1 - 1, g);
    }
}

/// Terms outside the inner rectangle vanish, so only the inner rectangle
/// counts.
pub proof fn lemma_sum_rect_support(
    x0: int,
    x1: int,
    y0: int,
    y1: int,
    a0: int,
    a1: int,
    b0: int,
    b1: int,
    g: spec_fn(int, int) -> int,
)
    requires
        x0 <= a0 <= a1 <= x1,
        y0 <= b0 <= b1 <= y1,
        forall|x: int, y: int|
            x0 <= x < x1 && y0 <= y < y1 && !(a0 <= x < a1 && b0 <= y < b1) ==> #[trigger] g(x, y)
                == 0,
    ensures
        sum_rect(x0, x1, y0, y1, g) == sum_rect(a0, a1, b0, b1, g),
{
    lemma_sum_rect_split_rows(x0, x1, y0, b0, y1, g);
    lemma_sum_rect_split_rows(x0, x1, b0, b1, y1, g);
    lemma_sum_rect_bounds(x0, x1, y0, b0, g, 0, 0);
    lemma_sum_rect_bounds(x0, x1, b1, y1, g, 0, 0);
    assert((b0 - y0) * ((x1 - x0) * 0) == 0) by (nonlinear_arith);
    assert((y1 - b1) * ((x1 - x0) * 0) == 0) by (nonlinear_arith);
    lemma_sum_rect_narrow(x0, x1, a0, a1, b0, b1, g);
}

/// On rows where the terms outside the columns `[a0, a1)` vanish, only those
/// columns count.
pub proof fn lemma_sum_rect_narrow(
    x0: int,
    x1: int,
    a0: int,
    a1: int,
    b0: int,
    b1: int,
    g: spec_fn(int, int) -> int,
)
    requires
        x0 <= a0 <= a1 <= x1,
        forall|x: int, y: int|
            x0 <= x < x1 && b0 <= y < b1 && !(a0 <= x < a1) ==> #[trigger] g(x, y) == 0,
    ensures
        sum_rect(x0, x1, b0, b1, g) == sum_rect(a0, a1, b0, b1, g),
    decreases b1 - b0,
{
    if b1 > b0 {
        lemma_sum_rect_narrow(x0, x1, a0, a1, b0, b1 - 1, g);
        lemma_sum_range_support(x0, x1, a0, a1, row_of(g, b1 - 1));
    }
}

/// A function that vanishes everywhere on the rectangle but at one cell sums
/// to its value there.
pub proof fn lemma_sum_rect_single(
    x0: int,
    x1: int,
    y0: int,
    y1: int,
    px: int,
    py: int,
    g: spec_fn(int, int) -> int,
)
    requires
        x0 <= px < x1,
        y0 <= py < y1,
        forall|x: int, y: int|
            x0 <= x < x1 && y0 <= y < y1 && !(x == px && y == py) ==> #[trigger] g(x, y) == 0,
    ensures
        sum_rect(x0, x1, y0, y1, g) == g(px, py),
{
    lemma_sum_rect_support(x0, x1, y0, y1, px, px + 1, py, py + 1, g);
    assert(sum_rect(px, px + 1, py, py + 1, g) == g(px, py)) by {
        reveal_with_fuel(sum_rect, 2);
        reveal_with_fuel(sum_range, 2);
    }
}

/// With terms that are never negative, the rows before `py` together with
/// the first cells of row `py` sum to no more than the whole rectangle.
pub proof fn lemma_sum_rect_prefix_le(
    x0: int,
    x1: int,
    y0: int,
    y1: int,
    px: int,
    py: int,
    g: spec_fn(int, int) -> int,
)
    requires
        x0 <= px <= x1,
        y0 <= py < y1,
        forall|x: int, y: int| x0 <= x < x1 && y0 <= y < y1 ==> 0 <= #[trigger] g(x, y),
    ensures
        0 <= sum_rect(x0, x1, y0, py, g),
        0 <= sum_range(x0, px, row_of(g, py)),
        sum_rect(x0, x1, y0, py, g) + sum_range(x0, px, row_of(g, py)) <= sum_rect(x0, x1, y0, y1, g),
{
    lemma_sum_rect_split_rows(x0, x1, y0, py, y1, g);
    lemma_sum_rect_split_rows(x0, x1, py, py + 1, y1, g);
    assert(sum_rect(x0, x1, py, py + 1, g) == row_sum(x0, x1, g, py)) by {
        reveal_with_fuel(sum_rect, 2);
    }
    lemma_sum_range_split(x0, px, x1, row_of(g, py));
    assert forall|x: int| px <= x < x1 implies 0 <= #[trigger] row_of(g, py)(x) by {
        assert(0 <= g(x, py));
    }
    lemma_sum_range_lower(px, x1, row_of(g, py));
    assert forall|x: int| x0 <= x < px implies 0 <= #[trigger] row_of(g, py)(x) by {
        assert(0 <= g(x, py));
    }
    lemma_sum_range_lower(x0, px, row_of(g, py));
    lemma_sum_rect_lower(x0, x1, py + 1, y1, g);
    lemma_sum_rect_lower(x0, x1, y0, py, g);
}

/// A sum of terms that are never negative is not negative.
pub proof fn lemma_sum_range_lower(lo: int, hi: int, f: spec_fn(int) -> int)
    requires
        forall|i: int| lo <= i < hi ==> 0 <= #[trigger] f(i),
    ensures
        0 <= sum_range(lo, hi, f),
    decreases hi - lo,
{
    if hi > lo {
        lemma_sum_range_lower(lo, hi - 1, f);
    }
}

/// A sum over a rectangle of terms that are never negative is not negative.
pub proof fn lemma_sum_rect_lower(x0: int, x1: int, y0: int, y1: int, g: spec_fn(int, int) -> int)
    requires
        forall|x: int, y: int| x0 <= x < x1 && y0 <= y < y1 ==> 0 <= #[trigger] g(x, y),
    ensures
        0 <= sum_rect(x0, x1, y0, y1, g),
    decreases y1 - y0,
{
    if y1 > y0 {
        lemma_sum_rect_lower(x0, x1, y0, y1 - 1, g);
        assert forall|x: int| x0 <= x < x1 implies 0 <= #[trigger] row_of(g, y1 - 1)(x) by {
            assert(0 <= g(x, y1 - 1));
        }
        lemma_sum_range_lower(x0, x1, row_of(g, y1 - 1));
    }
}

/// The sum over a range of a function scaled by a constant is the scaled
/// sum.
pub proof fn lemma_sum_range_scale(
    lo: int,
    hi: int,
    f: spec_fn(int) -> int,
    h: spec_fn(int) -> int,
    c: int,
)
    requires
        forall|i: int| lo <= i < hi ==> #[trigger] h(i) == c * f(i),
    ensures
        sum_range(lo, hi, h) == c * sum_range(lo, hi, f),
    decreases hi - lo,
{
    if hi > lo {
        lemma_sum_range_scale(lo, hi - 1, f, h, c);
        let a = sum_range(lo, hi - 1, f);
        let b = f(hi - 1);
        assert(c * (a + b) == c * a + c * b) by (nonlinear_arith);
    } else {
        assert(c * 0 == 0) by (nonlinear_arith);
    }
}

/// The sum over a rectangle of a function scaled by a constant is the
/// scaled sum.
pub proof fn lemma_sum_rect_scale(
    x0: int,
    x1: int,
    y0: int,
    y1: int,
    f: spec_fn(int, int) -> int,
    h: spec_fn(int, int) -> int,
    c: int,
)
    requires
        forall|x: int, y: int| x0 <= x < x1 && y0 <= y < y1 ==> #[trigger] h(x, y) == c * f(x, y),
    ensures
        sum_rect(x0, x1, y0, y1, h) == c * sum_rect(x0, x1, y0, y1, f),
    decreases y1 - y0,
{
    if y1 > y0 {
        lemma_sum_rect_scale(x0, x1, y0, y1 - 1, f, h, c);
        lemma_sum_range_scale(x0, x1, row_of(f, y1 - 1), row_of(h, y1 - 1), c);
        let a = sum_rect(x0, x1, y0, y1 - 1, f);
        let b = sum_range(x0, x1, row_of(f, y1 - 1));
        assert(c * (a + b) == c * a + c * b) by (nonlinear_arith);
    } else {
        assert(c * 0 == 0) by (nonlinear_arith);
    }
}

} // verus!
