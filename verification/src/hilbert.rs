//! The space-filling traversal used by curve-following error diffusion.
//!
//! A curve of order `n` visits `4^n` cells. Coordinates are machine words and
//! every step is taken modulo the word size, so a quadrant whose frame points
//! away from the origin lands on large coordinates instead of negative ones;
//! callers drop the cells that fall outside their image.

use crate::grid::filled;
use vstd::prelude::*;

verus! {

/// Number of cells along one side of a curve of the given order: `2^order`.
pub open spec fn side_len(order: nat) -> nat
    decreases order,
{
    if order == 0 {
        1
    } else {
        2 * side_len((order - 1) as nat)
    }
}

/// Number of cells that a curve of the given order visits: `4^order`.
pub open spec fn curve_len(order: nat) -> nat
    decreases order,
{
    if order == 0 {
        1
    } else {
        4 * curve_len((order - 1) as nat)
    }
}

/// `x` moved by `d` cells, modulo the word size.
pub open spec fn shifted(x: usize, d: isize) -> usize {
    vstd::wrapping::usize_specs::wrapping_add_signed(x, d)
}

/// `scale` steps of `step` cells: `step * scale` where that fits a signed
/// word, and `step * scale` modulo the word size where it does not.
pub open spec fn stride(step: isize, scale: int) -> isize {
    if isize::MIN <= step * scale <= isize::MAX {
        (step * scale) as isize
    } else {
        vstd::wrapping::isize_specs::wrapping_mul(step, scale as isize)
    }
}

/// A product that fits a signed word is not changed by wrapping.
proof fn lemma_wrapping_mul_exact(step: isize, scale: isize)
    requires
        isize::MIN <= step * scale <= isize::MAX,
    ensures
        vstd::wrapping::isize_specs::wrapping_mul(step, scale) == step * scale,
{
    let product = step * scale;
    let range = usize::MAX - usize::MIN + 1;
    if product >= 0 {
        vstd::arithmetic::div_mod::lemma_fundamental_div_mod_converse(product, range, 0, product);
    } else {
        vstd::arithmetic::div_mod::lemma_fundamental_div_mod_converse(
            product,
            range,
            -1,
            product + range,
        );
    }
}

/// Steps along a frame vector as the processor takes them.
fn stride_of(step: isize, scale: usize) -> (along: isize)
    requires
        scale <= isize::MAX,
    ensures
        along == stride(step, scale as int),
{
    proof {
        if isize::MIN <= step * scale <= isize::MAX {
            lemma_wrapping_mul_exact(step, scale as isize);
        }
    }
    step.wrapping_mul(scale as isize)
}

/// `a + b`, modulo the word size.
pub open spec fn joined(a: isize, b: isize) -> isize {
    vstd::wrapping::isize_specs::wrapping_add(a, b)
}

/// `a - b`, modulo the word size.
pub open spec fn parted(a: isize, b: isize) -> isize {
    vstd::wrapping::isize_specs::wrapping_sub(a, b)
}

/// `-v`, modulo the word size.
pub open spec fn negated(v: isize) -> isize {
    vstd::wrapping::isize_specs::wrapping_sub(0, v)
}

/// The `k`-th cell of the curve of the given order that starts at `(x, y)`
/// in the frame `(xi, yi)`, `(xj, yj)`.
///
/// A curve of order 0 is its starting cell. A curve of order `n > 0` is four
/// curves of order `n - 1` in a row. With `h = 2^(n-1)`, the first starts at
/// `(x, y)` with the two frame vectors exchanged; the second starts at
/// `(x + yi * h, y + yj * h)` and the third at
/// `(x + xi * h + yi * h, y + yi * h + yj * h)`, both in the frame itself;
/// the fourth starts at `(x + xi * h + yi * h - xj * h,
/// y + yi * h + yj * h - xi * h)` with the frame vectors exchanged and
/// negated. All of this arithmetic is modulo the word size.
pub open spec fn hilbert_point(
    k: int,
    x: usize,
    y: usize,
    xi: isize,
    yi: isize,
    xj: isize,
    yj: isize,
    order: nat,
) -> (usize, usize)
    decreases order,
{
    if order == 0 {
        (x, y)
    } else {
        let sub = (order - 1) as nat;
        let half = side_len(sub) as int;
        let quarter = curve_len(sub) as int;
        if k < quarter {
            hilbert_point(k, x, y, xj, yj, xi, yi, sub)
        } else if k < 2 * quarter {
            hilbert_point(
                k - quarter,
                shifted(x, stride(yi, half)),
                shifted(y, stride(yj, half)),
                xi,
                yi,
                xj,
                yj,
                sub,
            )
        } else if k < 3 * quarter {
            hilbert_point(
                k - 2 * quarter,
                shifted(x, joined(stride(xi, half), stride(yi, half))),
                shifted(y, joined(stride(yi, half), stride(yj, half))),
                xi,
                yi,
                xj,
                yj,
                sub,
            )
        } else {
            hilbert_point(
                k - 3 * quarter,
                shifted(x, parted(joined(stride(xi, half), stride(yi, half)), stride(xj, half))),
                shifted(y, parted(joined(stride(yi, half), stride(yj, half)), stride(xi, half))),
                negated(xj),
                negated(yj),
                negated(xi),
                negated(yi),
                sub,
            )
        }
    }
}

/// The side of a curve squared is the number of its cells.
pub proof fn lemma_side_squared(order: nat)
    ensures
        side_len(order) * side_len(order) == curve_len(order),
        1 <= side_len(order) <= curve_len(order),
    decreases order,
{
    if order > 0 {
        let sub = (order - 1) as nat;
        lemma_side_squared(sub);
        let s = side_len(sub);
        let t = side_len(order);
        assert(t == 2 * s);
        assert(t * t == 4 * (s * s) && t <= 4 * (s * s)) by (nonlinear_arith)
            requires
                t == 2 * s,
                1 <= s,
        ;
    } else {
        assert(side_len(order) * side_len(order) == 1) by (nonlinear_arith)
            requires
                side_len(order) == 1,
        ;
    }
}

/// A larger order gives a longer curve.
pub proof fn lemma_curve_len_monotonic(a: nat, b: nat)
    requires
        a <= b,
    ensures
        curve_len(a) <= curve_len(b),
        curve_len(a) >= 1,
    decreases b,
{
    if b > 0 {
        if a < b {
            lemma_curve_len_monotonic(a, (b - 1) as nat);
        } else {
            lemma_curve_len_monotonic((a - 1) as nat, (b - 1) as nat);
        }
    }
}

/// `2^order` as a machine word.
fn side_of(order: u32) -> (side: usize)
    requires
        curve_len(order as nat) <= usize::MAX,
    ensures
        side == side_len(order as nat),
{
    let mut side: usize = 1;
    let mut done: u32 = 0;
    while done < order
        invariant
            done <= order,
            side == side_len(done as nat),
            curve_len(order as nat) <= usize::MAX,
        decreases order - done,
    {
        proof {
            lemma_side_squared((done + 1) as nat);
            lemma_curve_len_monotonic((done + 1) as nat, order as nat);
        }
        side = side * 2;
        done = done + 1;
    }
    side
}

/// Writes the curve of the given order that starts at `(x, y)` in the frame
/// `(xi, yi)`, `(xj, yj)` into `points`, from position `index` on, and
/// returns the position after the last cell written. The frame may hold any
/// values: coordinates are computed modulo the word size.
pub fn hilbert_curve_recursive(
    points: &mut Vec<(usize, usize)>,
    index: usize,
    x: usize,
    y: usize,
    xi: isize,
    yi: isize,
    xj: isize,
    yj: isize,
    order: u32,
) -> (next: usize)
    requires
        index + curve_len(order as nat) <= old(points).len(),
    ensures
        next == index + curve_len(order as nat),
        final(points).len() == old(points).len(),
        forall|k: int| 0 <= k < index ==> final(points)[k] == old(points)[k],
        forall|k: int| next <= k < old(points).len() ==> final(points)[k] == old(points)[k],
        forall|k: int|
            index <= k < next ==> final(points)[k] == hilbert_point(
                k - index,
                x,
                y,
                xi,
                yi,
                xj,
                yj,
                order as nat,
            ),
    decreases order,
{
    if order == 0 {
        points.set(index, (x, y));
        return index + 1;
    }
    let sub: u32 = order - 1;
    proof {
        lemma_side_squared(sub as nat);
        lemma_curve_len_monotonic(sub as nat, order as nat);
    }
    let half: usize = side_of(sub);
    assert(3 * half <= isize::MAX) by (nonlinear_arith)
        requires
            1 <= half,
            4 * (half * half) <= usize::MAX,
            usize::MAX <= 2 * isize::MAX + 1,
    ;
    let along_xi: isize = stride_of(xi, half);
    let along_yi: isize = stride_of(yi, half);
    let along_xj: isize = stride_of(xj, half);
    let along_yj: isize = stride_of(yj, half);
    let second_x = x.wrapping_add_signed(along_yi);
    let second_y = y.wrapping_add_signed(along_yj);
    let third_x = x.wrapping_add_signed(along_xi.wrapping_add(along_yi));
    let third_y = y.wrapping_add_signed(along_yi.wrapping_add(along_yj));
    let fourth_x = x.wrapping_add_signed(along_xi.wrapping_add(along_yi).wrapping_sub(along_xj));
    let fourth_y = y.wrapping_add_signed(along_yi.wrapping_add(along_yj).wrapping_sub(along_xi));
    let zero: isize = 0;

    let first_end = hilbert_curve_recursive(points, index, x, y, xj, yj, xi, yi, sub);
    let second_end = hilbert_curve_recursive(
        points,
        first_end,
        second_x,
        second_y,
        xi,
        yi,
        xj,
        yj,
        sub,
    );
    let third_end = hilbert_curve_recursive(
        points,
        second_end,
        third_x,
        third_y,
        xi,
        yi,
        xj,
        yj,
        sub,
    );
    let fourth_end = hilbert_curve_recursive(
        points,
        third_end,
        fourth_x,
        fourth_y,
        zero.wrapping_sub(xj),
        zero.wrapping_sub(yj),
        zero.wrapping_sub(xi),
        zero.wrapping_sub(yi),
        sub,
    );
    fourth_end
}

/// Whether the cells of a curve of the given order can be counted in a
/// machine word.
pub fn curve_fits(order: u32) -> (fits: bool)
    ensures
        fits == (curve_len(order as nat) <= usize::MAX),
{
    let mut len: usize = 1;
    let mut done: u32 = 0;
    while done < order
        invariant
            done <= order,
            len == curve_len(done as nat),
        decreases order - done,
    {
        if len > usize::MAX / 4 {
            proof {
                lemma_curve_len_monotonic((done + 1) as nat, order as nat);
            }
            return false;
        }
        len = len * 4;
        done = done + 1;
    }
    true
}

/// The curve of the given order that starts at the origin in the frame
/// `(1, 0)`, `(0, 1)`.
pub fn generate_hilbert_curve(order: u32) -> (points: Vec<(usize, usize)>)
    requires
        curve_len(order as nat) <= usize::MAX,
    ensures
        points.len() == curve_len(order as nat),
        forall|k: int|
            0 <= k < points.len() ==> points[k] == hilbert_point(k, 0, 0, 1, 0, 0, 1, order as nat),
{
    proof {
        lemma_side_squared(order as nat);
    }
    let size: usize = side_of(order);
    assert(size * size == curve_len(order as nat));
    let num_points: usize = size * size;
    let mut points: Vec<(usize, usize)> = filled(num_points, (0usize, 0usize));
    hilbert_curve_recursive(&mut points, 0, 0, 0, 1, 0, 0, 1, order);
    points
}

} // verus!
