//! Perceived error under a low-pass model of the human visual system.
//!
//! A binary pattern is seen through a kernel: each set pixel spreads 255
//! times the kernel's weights over the pixels around it, clipped at the
//! image's edges. The perceived error of a pattern is the sum, over all
//! pixels, of the squared difference between the target sample and what is
//! seen there. Everything is kept in units of one over the kernel's scale,
//! so that the bookkeeping is exact.

use crate::grid::cell_index;
use crate::grid::cell_index_of;
use crate::grid::lemma_cell_index_bounds;
use crate::grid::lemma_cell_index_injective;
use crate::kernel::Kernel;
use crate::kernel::MAX_KERNEL_TOTAL;
use crate::sums::lemma_sum_rect_add;
use crate::sums::lemma_sum_rect_bounds;
use crate::sums::lemma_sum_rect_lower;
use crate::sums::lemma_sum_rect_scale;
use crate::sums::lemma_sum_rect_single;
use crate::sums::lemma_sum_rect_support;
use crate::sums::row_of;
use crate::sums::sum_range;
use crate::sums::sum_rect;
use vstd::prelude::*;

verus! {

/// What toggling a pixel adds to its rendered value: 255 when a clear pixel
/// is set, -255 when a set pixel is cleared.
pub open spec fn toggle_step(on: bool) -> int {
    if on {
        -255
    } else {
        255
    }
}

/// The pattern with the pixel `(px, py)` toggled.
pub open spec fn toggled(pattern: Seq<bool>, width: int, px: int, py: int) -> Seq<bool> {
    pattern.update(cell_index(px, py, width), !pattern[cell_index(px, py, width)])
}

/// The weight with which the pixel `(px, py)` is seen at `(qx, qy)`: the tap
/// of the kernel at the offset between them, and zero outside the kernel's
/// footprint.
pub open spec fn influence(kernel: Kernel, px: int, py: int, qx: int, qy: int) -> int {
    kernel.weight_at_offset(qx - px, qy - py)
}

/// What each tap of the kernel adds to what is seen at `(qx, qy)`: 255 times
/// its weight where the pixel under it lies inside the image and is set.
pub open spec fn filtered_terms(
    pattern: Seq<bool>,
    width: int,
    height: int,
    kernel: Kernel,
    qx: int,
    qy: int,
) -> spec_fn(int, int) -> int {
    |fx: int, fy: int|
        {
            let px = qx - fx + kernel.radius;
            let py = qy - fy + kernel.radius;
            if 0 <= px < width && 0 <= py < height && pattern[cell_index(px, py, width)] {
                255 * kernel.weight(fx, fy)
            } else {
                0int
            }
        }
}

/// What is seen at `(qx, qy)`, in units of one over the kernel's scale.
pub open spec fn filtered_value(
    pattern: Seq<bool>,
    width: int,
    height: int,
    kernel: Kernel,
    qx: int,
    qy: int,
) -> int {
    sum_rect(
        0,
        kernel.side(),
        0,
        kernel.side(),
        filtered_terms(pattern, width, height, kernel, qx, qy),
    )
}

/// The difference at `(qx, qy)` between the target sample and what is seen
/// there, in units of one over the kernel's scale.
pub open spec fn pixel_error(
    target: Seq<u8>,
    pattern: Seq<bool>,
    width: int,
    height: int,
    kernel: Kernel,
    qx: int,
    qy: int,
) -> int {
    kernel.scale() * target[cell_index(qx, qy, width)] - filtered_value(
        pattern,
        width,
        height,
        kernel,
        qx,
        qy,
    )
}

/// The squared error at each pixel.
pub open spec fn squared_errors(
    target: Seq<u8>,
    pattern: Seq<bool>,
    width: int,
    height: int,
    kernel: Kernel,
) -> spec_fn(int, int) -> int {
    |qx: int, qy: int|
        pixel_error(target, pattern, width, height, kernel, qx, qy) * pixel_error(
            target,
            pattern,
            width,
            height,
            kernel,
            qx,
            qy,
        )
}

/// The perceived error of a pattern: the sum of the squared errors at all
/// pixels.
pub open spec fn total_error(
    target: Seq<u8>,
    pattern: Seq<bool>,
    width: int,
    height: int,
    kernel: Kernel,
) -> int {
    sum_rect(0, width, 0, height, squared_errors(target, pattern, width, height, kernel))
}

/// What toggling the pixel `(px, py)` adds to the squared error at each
/// pixel `q`: with `e` the error at `q` and `b` the change in what is seen
/// at `q`, `-2 * e * b + b * b`.
pub open spec fn toggle_terms(
    target: Seq<u8>,
    pattern: Seq<bool>,
    width: int,
    height: int,
    kernel: Kernel,
    px: int,
    py: int,
) -> spec_fn(int, int) -> int {
    |qx: int, qy: int|
        {
            let b = influence(kernel, px, py, qx, qy) * toggle_step(
                pattern[cell_index(px, py, width)],
            );
            let e = pixel_error(target, pattern, width, height, kernel, qx, qy);
            -2 * e * b + b * b
        }
}

/// First coordinate of the window of the given radius round `p`, clipped at
/// the image's edge.
pub open spec fn window_start(p: int, radius: int) -> int {
    if p >= radius {
        p - radius
    } else {
        0
    }
}

/// Coordinate after the last of the window of the given radius round `p`,
/// clipped at the image's edge.
pub open spec fn window_end(p: int, radius: int, size: int) -> int {
    if p + radius < size {
        p + radius + 1
    } else {
        size
    }
}

/// What toggling the pixel `(px, py)` adds to the perceived error, summed
/// over the kernel's footprint round the pixel alone.
pub open spec fn toggle_delta(
    target: Seq<u8>,
    pattern: Seq<bool>,
    width: int,
    height: int,
    kernel: Kernel,
    px: int,
    py: int,
) -> int {
    sum_rect(
        window_start(px, kernel.radius as int),
        window_end(px, kernel.radius as int, width),
        window_start(py, kernel.radius as int),
        window_end(py, kernel.radius as int, height),
        toggle_terms(target, pattern, width, height, kernel, px, py),
    )
}

/// What is seen at a pixel lies between nothing and 255 times the kernel's
/// total.
pub proof fn lemma_filtered_value_bounds(
    pattern: Seq<bool>,
    width: int,
    height: int,
    kernel: Kernel,
    qx: int,
    qy: int,
)
    requires
        kernel.wf(),
    ensures
        0 <= filtered_value(pattern, width, height, kernel, qx, qy) <= 255 * kernel.total,
{
    let side = kernel.side();
    let terms = filtered_terms(pattern, width, height, kernel, qx, qy);
    let full = |fx: int, fy: int| 255 * kernel.weight(fx, fy);
    let weights = crate::kernel::tap_weights(kernel.weights@, side);
    assert forall|fx: int, fy: int| 0 <= fx < side && 0 <= fy < side implies 0 <= #[trigger] terms(
        fx,
        fy,
    ) <= full(fx, fy) by {
        kernel.lemma_weight_bounds(fx, fy);
    }
    lemma_sum_rect_lower(0, side, 0, side, terms);
    crate::sums::lemma_sum_rect_le(0, side, 0, side, terms, full);
    lemma_sum_rect_scale(0, side, 0, side, weights, full, 255);
}

/// Toggling a pixel changes what is seen at each pixel by the toggled
/// pixel's influence there times the step of the toggle.
pub proof fn lemma_filtered_after_toggle(
    pattern: Seq<bool>,
    width: int,
    height: int,
    kernel: Kernel,
    px: int,
    py: int,
    qx: int,
    qy: int,
)
    requires
        kernel.wf(),
        pattern.len() == width * height,
        0 <= px < width,
        0 <= py < height,
    ensures
        filtered_value(toggled(pattern, width, px, py), width, height, kernel, qx, qy)
            == filtered_value(pattern, width, height, kernel, qx, qy) + influence(
            kernel,
            px,
            py,
            qx,
            qy,
        ) * toggle_step(pattern[cell_index(px, py, width)]),
{
    let side = kernel.side();
    let radius = kernel.radius as int;
    let after = toggled(pattern, width, px, py);
    let f = filtered_terms(pattern, width, height, kernel, qx, qy);
    let h = filtered_terms(after, width, height, kernel, qx, qy);
    let tx = qx - px + radius;
    let ty = qy - py + radius;
    let step = toggle_step(pattern[cell_index(px, py, width)]);
    let g = |fx: int, fy: int|
        if fx == tx && fy == ty {
            kernel.weight(tx, ty) * step
        } else {
            0int
        };
    lemma_cell_index_bounds(px, py, width, height);
    assert forall|fx: int, fy: int| 0 <= fx < side && 0 <= fy < side implies #[trigger] h(fx, fy)
        == f(fx, fy) + g(fx, fy) by {
        let sx = qx - fx + radius;
        let sy = qy - fy + radius;
        if 0 <= sx < width && 0 <= sy < height {
            lemma_cell_index_bounds(sx, sy, width, height);
            if cell_index(sx, sy, width) == cell_index(px, py, width) {
                lemma_cell_index_injective(sx, sy, px, py, width);
            }
        }
    }
    lemma_sum_rect_add(0, side, 0, side, f, g, h);
    if 0 <= tx < side && 0 <= ty < side {
        lemma_sum_rect_single(0, side, 0, side, tx, ty, g);
    } else {
        lemma_sum_rect_bounds(0, side, 0, side, g, 0, 0);
        assert(side * (side * 0) == 0) by (nonlinear_arith);
    }
}

/// The perceived error after toggling a pixel is the perceived error before
/// it plus the toggle's delta: the sum over the kernel's footprint accounts
/// for the change at every pixel of the image.
pub proof fn lemma_toggle_delta_is_error_change(
    target: Seq<u8>,
    pattern: Seq<bool>,
    width: int,
    height: int,
    kernel: Kernel,
    px: int,
    py: int,
)
    requires
        kernel.wf(),
        pattern.len() == width * height,
        0 <= px < width,
        0 <= py < height,
    ensures
        total_error(target, toggled(pattern, width, px, py), width, height, kernel) == total_error(
            target,
            pattern,
            width,
            height,
            kernel,
        ) + toggle_delta(target, pattern, width, height, kernel, px, py),
{
    let radius = kernel.radius as int;
    let after = toggled(pattern, width, px, py);
    let f = squared_errors(target, pattern, width, height, kernel);
    let h = squared_errors(target, after, width, height, kernel);
    let g = toggle_terms(target, pattern, width, height, kernel, px, py);
    let step = toggle_step(pattern[cell_index(px, py, width)]);
    assert forall|qx: int, qy: int| 0 <= qx < width && 0 <= qy < height implies #[trigger] h(qx, qy)
        == f(qx, qy) + g(qx, qy) by {
        lemma_filtered_after_toggle(pattern, width, height, kernel, px, py, qx, qy);
        let e = pixel_error(target, pattern, width, height, kernel, qx, qy);
        let e2 = pixel_error(target, after, width, height, kernel, qx, qy);
        let b = influence(kernel, px, py, qx, qy) * step;
        assert(e2 == e - b);
        assert(e2 * e2 == e * e + (-2 * e * b + b * b)) by (nonlinear_arith)
            requires
                e2 == e - b,
        ;
    }
    lemma_sum_rect_add(0, width, 0, height, f, g, h);
    let x0 = window_start(px, radius);
    let x1 = window_end(px, radius, width);
    let y0 = window_start(py, radius);
    let y1 = window_end(py, radius, height);
    assert forall|qx: int, qy: int|
        0 <= qx < width && 0 <= qy < height && !(x0 <= qx < x1 && y0 <= qy < y1) implies #[trigger] g(
        qx,
        qy,
    ) == 0 by {
        let e = pixel_error(target, pattern, width, height, kernel, qx, qy);
        let b = influence(kernel, px, py, qx, qy) * step;
        assert(influence(kernel, px, py, qx, qy) == 0);
        assert(b == 0) by (nonlinear_arith)
            requires
                b == 0 * step,
        ;
        assert(-2 * e * b + b * b == 0) by (nonlinear_arith)
            requires
                b == 0,
        ;
    }
    lemma_sum_rect_support(0, width, 0, height, x0, x1, y0, y1, g);
}

/// The largest magnitude of the error at a pixel, and of the change that a
/// toggle makes to what is seen at a pixel: 255 times the largest scale.
pub const MAX_PIXEL_ERROR: u64 = 255 * MAX_KERNEL_TOTAL;

/// The largest squared error at a pixel.
pub const MAX_SQUARED_ERROR: u128 = 71_495_743_596_134_400;

/// The largest magnitude of what one pixel adds to a toggle's delta.
pub const MAX_TOGGLE_TERM: i128 = 214_487_230_788_403_200;

/// The error at a pixel is at most `MAX_PIXEL_ERROR` in magnitude.
pub proof fn lemma_pixel_error_bounds(
    target: Seq<u8>,
    pattern: Seq<bool>,
    width: int,
    height: int,
    kernel: Kernel,
    qx: int,
    qy: int,
)
    requires
        kernel.wf(),
    ensures
        -MAX_PIXEL_ERROR <= pixel_error(target, pattern, width, height, kernel, qx, qy)
            <= MAX_PIXEL_ERROR,
{
    lemma_filtered_value_bounds(pattern, width, height, kernel, qx, qy);
    let sample = target[cell_index(qx, qy, width)] as int;
    let scale = kernel.scale();
    assert(0 <= scale * sample <= 255 * MAX_KERNEL_TOTAL) by (nonlinear_arith)
        requires
            0 <= sample <= 255,
            1 <= scale <= MAX_KERNEL_TOTAL,
    ;
}

/// The perceived error is never negative.
pub proof fn lemma_total_error_lower(
    target: Seq<u8>,
    pattern: Seq<bool>,
    width: int,
    height: int,
    kernel: Kernel,
)
    ensures
        0 <= total_error(target, pattern, width, height, kernel),
{
    let f = squared_errors(target, pattern, width, height, kernel);
    assert forall|qx: int, qy: int| 0 <= qx < width && 0 <= qy < height implies 0 <= #[trigger] f(
        qx,
        qy,
    ) by {
        let e = pixel_error(target, pattern, width, height, kernel, qx, qy);
        assert(0 <= e * e) by (nonlinear_arith);
    }
    lemma_sum_rect_lower(0, width, 0, height, f);
}

/// What is seen of a pattern at each pixel, and the pattern's perceived
/// error, kept up to date from toggle to toggle.
pub struct ErrorMetrics {
    pub total_error: u128,
    pub filtered_output: Vec<u64>,
}

impl ErrorMetrics {
    /// The record holds what is seen of `pattern` at each pixel, and the
    /// perceived error of `pattern` against `target`.
    pub open spec fn matches(
        &self,
        target: Seq<u8>,
        pattern: Seq<bool>,
        width: int,
        height: int,
        kernel: Kernel,
    ) -> bool {
        &&& self.filtered_output.len() == width * height
        &&& forall|qx: int, qy: int|
            0 <= qx < width && 0 <= qy < height ==> self.filtered_output[#[trigger] cell_index(
                qx,
                qy,
                width,
            )] == filtered_value(pattern, width, height, kernel, qx, qy)
        &&& self.total_error == total_error(target, pattern, width, height, kernel)
    }
}

/// What is seen of `pattern` at the pixel `(qx, qy)`.
pub fn filtered_at(
    pattern: &Vec<bool>,
    width: usize,
    height: usize,
    kernel: &Kernel,
    qx: usize,
    qy: usize,
) -> (seen: u64)
    requires
        kernel.wf(),
        pattern.len() == width * height,
        qx < width,
        qy < height,
    ensures
        seen == filtered_value(pattern@, width as int, height as int, *kernel, qx as int, qy as int),
        seen <= 255 * kernel.total,
{
    let side = kernel.side_len();
    let radius = kernel.radius;
    let ghost terms = filtered_terms(
        pattern@,
        width as int,
        height as int,
        *kernel,
        qx as int,
        qy as int,
    );
    proof {
        lemma_filtered_value_bounds(
            pattern@,
            width as int,
            height as int,
            *kernel,
            qx as int,
            qy as int,
        );
        assert forall|fx: int, fy: int| 0 <= fx < side && 0 <= fy < side implies 0
            <= #[trigger] terms(fx, fy) by {
            kernel.lemma_weight_bounds(fx, fy);
        }
    }
    let mut sum: u64 = 0;
    let mut fy: usize = 0;
    while fy < side
        invariant
            fy <= side,
            side == kernel.side(),
            radius == kernel.radius,
            kernel.wf(),
            pattern.len() == width * height,
            qx < width,
            qy < height,
            terms == filtered_terms(
                pattern@,
                width as int,
                height as int,
                *kernel,
                qx as int,
                qy as int,
            ),
            forall|fx: int, fy: int| 0 <= fx < side && 0 <= fy < side ==> 0 <= #[trigger] terms(fx, fy),
            sum_rect(0, side as int, 0, side as int, terms) <= 255 * kernel.total,
            sum == sum_rect(0, side as int, 0, fy as int, terms),
        decreases side - fy,
    {
        let source_y = source_coordinate(qy, fy, radius, height);
        proof {
            crate::sums::lemma_sum_rect_prefix_le(0, side as int, 0, side as int, 0, fy as int, terms);
        }
        let mut fx: usize = 0;
        while fx < side
            invariant
                fx <= side,
                fy < side,
                side == kernel.side(),
                radius == kernel.radius,
                kernel.wf(),
                pattern.len() == width * height,
                qx < width,
                qy < height,
                source_y == source_of(qy as int, fy as int, radius as int, height as int),
                terms == filtered_terms(
                    pattern@,
                    width as int,
                    height as int,
                    *kernel,
                    qx as int,
                    qy as int,
                ),
                forall|fx: int, fy: int|
                    0 <= fx < side && 0 <= fy < side ==> 0 <= #[trigger] terms(fx, fy),
                sum_rect(0, side as int, 0, side as int, terms) <= 255 * kernel.total,
                sum == sum_rect(0, side as int, 0, fy as int, terms) + sum_range(
                    0,
                    fx as int,
                    row_of(terms, fy as int),
                ),
            decreases side - fx,
        {
            proof {
                crate::sums::lemma_sum_rect_prefix_le(
                    0,
                    side as int,
                    0,
                    side as int,
                    fx as int + 1,
                    fy as int,
                    terms,
                );
                assert(row_of(terms, fy as int)(fx as int) == terms(fx as int, fy as int));
            }
            let source_x = source_coordinate(qx, fx, radius, width);
            match (source_x, source_y) {
                (Some(px), Some(py)) => {
                    let index = cell_index_of(px, py, width, height);
                    if pattern[index] {
                        let weight = kernel.weight_of(fx, fy);
                        sum = sum + 255 * (weight as u64);
                    }
                },
                _ => {},
            }
            fx = fx + 1;
        }
        fy = fy + 1;
    }
    sum
}

/// The coordinate of the pixel that lies under the tap `tap` of a window of
/// the given radius centred so that the tap's weight is seen at `q`, or
/// `None` where that coordinate falls outside `0..size`.
pub open spec fn source_of(q: int, tap: int, radius: int, size: int) -> Option<usize> {
    let p = q - tap + radius;
    if 0 <= p < size {
        Some(p as usize)
    } else {
        None
    }
}

/// The coordinate `q - tap + radius`, or `None` where it falls outside
/// `0..size`.
pub fn source_coordinate(q: usize, tap: usize, radius: usize, size: usize) -> (p: Option<usize>)
    requires
        q < size,
    ensures
        p == source_of(q as int, tap as int, radius as int, size as int),
{
    if tap > radius {
        let back = tap - radius;
        if q >= back {
            Some(q - back)
        } else {
            None
        }
    } else {
        let forth = radius - tap;
        if forth < size - q {
            Some(q + forth)
        } else {
            None
        }
    }
}

/// What is seen of `binary_pattern` at each pixel, and its perceived error
/// against `target_image`.
pub fn calculate_initial_error_metrics(
    target_image: &[u8],
    binary_pattern: &Vec<bool>,
    width: usize,
    height: usize,
    kernel: &Kernel,
) -> (metrics: ErrorMetrics)
    requires
        kernel.wf(),
        target_image.len() == width * height,
        binary_pattern.len() == width * height,
    ensures
        metrics.matches(target_image@, binary_pattern@, width as int, height as int, *kernel),
{
    let scale: u64 = if kernel.total == 0 {
        1
    } else {
        kernel.total
    };
    let ghost squares = squared_errors(
        target_image@,
        binary_pattern@,
        width as int,
        height as int,
        *kernel,
    );
    let mut filtered_output: Vec<u64> = Vec::new();
    let mut total: u128 = 0;
    let mut y: usize = 0;
    while y < height
        invariant
            y <= height,
            kernel.wf(),
            scale == kernel.scale(),
            target_image.len() == width * height,
            binary_pattern.len() == width * height,
            squares == squared_errors(
                target_image@,
                binary_pattern@,
                width as int,
                height as int,
                *kernel,
            ),
            filtered_output.len() == y * width,
            forall|cx: int, cy: int|
                0 <= cx < width && 0 <= cy < y ==> filtered_output[#[trigger] cell_index(
                    cx,
                    cy,
                    width as int,
                )] == filtered_value(
                    binary_pattern@,
                    width as int,
                    height as int,
                    *kernel,
                    cx,
                    cy,
                ),
            total == sum_rect(0, width as int, 0, y as int, squares),
            total <= (y * width) * MAX_SQUARED_ERROR,
        decreases height - y,
    {
        let mut x: usize = 0;
        while x < width
            invariant
                x <= width,
                y < height,
                kernel.wf(),
                scale == kernel.scale(),
                target_image.len() == width * height,
                binary_pattern.len() == width * height,
                squares == squared_errors(
                    target_image@,
                    binary_pattern@,
                    width as int,
                    height as int,
                    *kernel,
                ),
                filtered_output.len() == y * width + x,
                forall|cx: int, cy: int|
                    0 <= cx < width && (0 <= cy < y || (cy == y && cx < x))
                        ==> filtered_output[#[trigger] cell_index(cx, cy, width as int)]
                        == filtered_value(
                        binary_pattern@,
                        width as int,
                        height as int,
                        *kernel,
                        cx,
                        cy,
                    ),
                total == sum_rect(0, width as int, 0, y as int, squares) + sum_range(
                    0,
                    x as int,
                    row_of(squares, y as int),
                ),
                total <= (y * width + x) * MAX_SQUARED_ERROR,
            decreases width - x,
        {
            let index = cell_index_of(x, y, width, height);
            let seen = filtered_at(binary_pattern, width, height, kernel, x, y);
            proof {
                lemma_pixel_error_bounds(
                    target_image@,
                    binary_pattern@,
                    width as int,
                    height as int,
                    *kernel,
                    x as int,
                    y as int,
                );
                kernel.lemma_weight_bounds(0, 0);
                assert(0 <= scale * target_image[index as int] <= 255 * MAX_KERNEL_TOTAL)
                    by (nonlinear_arith)
                    requires
                        0 <= target_image[index as int] <= 255,
                        1 <= scale <= MAX_KERNEL_TOTAL,
                ;
            }
            let error: i64 = (scale * (target_image[index] as u64)) as i64 - (seen as i64);
            proof {
                assert(0 <= error * error <= MAX_SQUARED_ERROR) by (nonlinear_arith)
                    requires
                        -267_386_880 <= error <= 267_386_880,
                        MAX_SQUARED_ERROR == 267_386_880 * 267_386_880,
                ;
                assert(row_of(squares, y as int)(x as int) == squares(x as int, y as int));
                assert forall|cx: int, cy: int|
                    0 <= cx < width && (0 <= cy < y || (cy == y && cx < x)) implies cell_index(
                    cx,
                    cy,
                    width as int,
                ) < index by {
                    if cy < y {
                        assert(cy * width + width <= y * width) by (nonlinear_arith)
                            requires
                                cy + 1 <= y,
                                0 <= width,
                        ;
                    }
                }
            }
            let square: u128 = (error as i128 * error as i128) as u128;
            total = total + square;
            filtered_output.push(seen);
            x = x + 1;
        }
        assert((y + 1) * width == y * width + width) by (nonlinear_arith);
        y = y + 1;
    }
    proof {
        assert(height * width == width * height) by (nonlinear_arith);
    }
    ErrorMetrics { total_error: total, filtered_output }
}

/// First coordinate of the window of the given radius round `p`.
pub fn window_start_of(p: usize, radius: usize) -> (start: usize)
    ensures
        start == window_start(p as int, radius as int),
{
    if p >= radius {
        p - radius
    } else {
        0
    }
}

/// Coordinate after the last of the window of the given radius round `p`.
pub fn window_end_of(p: usize, radius: usize, size: usize) -> (end: usize)
    requires
        p < size,
    ensures
        end == window_end(p as int, radius as int, size as int),
{
    if radius < size - p {
        p + radius + 1
    } else {
        size
    }
}

/// The tap of a window of the given radius centred on `p` that lies over
/// `q`.
fn tap_over(q: usize, p: usize, radius: usize) -> (tap: usize)
    requires
        window_start(p as int, radius as int) <= q,
        q <= p + radius,
        2 * radius + 1 <= usize::MAX,
    ensures
        tap == q - p + radius,
        tap <= 2 * radius,
{
    if q >= p {
        (q - p) + radius
    } else {
        radius - (p - q)
    }
}

/// The perceived error of any pattern is at most `MAX_SQUARED_ERROR` times
/// the number of pixels.
pub proof fn lemma_total_error_upper(
    target: Seq<u8>,
    pattern: Seq<bool>,
    width: int,
    height: int,
    kernel: Kernel,
)
    requires
        kernel.wf(),
        0 <= width,
        0 <= height,
    ensures
        total_error(target, pattern, width, height, kernel) <= (width * height) * MAX_SQUARED_ERROR,
{
    let f = squared_errors(target, pattern, width, height, kernel);
    assert forall|qx: int, qy: int| 0 <= qx < width && 0 <= qy < height implies 0 <= #[trigger] f(
        qx,
        qy,
    ) <= MAX_SQUARED_ERROR by {
        lemma_pixel_error_bounds(target, pattern, width, height, kernel, qx, qy);
        let e = pixel_error(target, pattern, width, height, kernel, qx, qy);
        assert(0 <= e * e <= 267_386_880 * 267_386_880) by (nonlinear_arith)
            requires
                -267_386_880 <= e <= 267_386_880,
        ;
    }
    lemma_sum_rect_bounds(0, width, 0, height, f, 0, MAX_SQUARED_ERROR as int);
    assert(height * (width * (MAX_SQUARED_ERROR as int)) == (width * height) * MAX_SQUARED_ERROR)
        by (nonlinear_arith);
}

/// What toggling the pixel `(x, y)` of `binary_pattern` would add to the
/// perceived error, computed over the kernel's footprint round the pixel.
pub fn calculate_toggle_error_change(
    target_image: &[u8],
    binary_pattern: &Vec<bool>,
    x: usize,
    y: usize,
    width: usize,
    height: usize,
    kernel: &Kernel,
    current_metrics: &ErrorMetrics,
) -> (error_change: i128)
    requires
        kernel.wf(),
        x < width,
        y < height,
        target_image.len() == width * height,
        binary_pattern.len() == width * height,
        current_metrics.matches(
            target_image@,
            binary_pattern@,
            width as int,
            height as int,
            *kernel,
        ),
    ensures
        error_change == toggle_delta(
            target_image@,
            binary_pattern@,
            width as int,
            height as int,
            *kernel,
            x as int,
            y as int,
        ),
        error_change == total_error(
            target_image@,
            toggled(binary_pattern@, width as int, x as int, y as int),
            width as int,
            height as int,
            *kernel,
        ) - total_error(target_image@, binary_pattern@, width as int, height as int, *kernel),
{
    let radius = kernel.radius;
    let side = kernel.side_len();
    let scale: u64 = if kernel.total == 0 {
        1
    } else {
        kernel.total
    };
    let index = cell_index_of(x, y, width, height);
    let step: i64 = if binary_pattern[index] {
        -255
    } else {
        255
    };
    let x0 = window_start_of(x, radius);
    let x1 = window_end_of(x, radius, width);
    let y0 = window_start_of(y, radius);
    let y1 = window_end_of(y, radius, height);
    let ghost terms = toggle_terms(
        target_image@,
        binary_pattern@,
        width as int,
        height as int,
        *kernel,
        x as int,
        y as int,
    );
    proof {
        lemma_toggle_delta_is_error_change(
            target_image@,
            binary_pattern@,
            width as int,
            height as int,
            *kernel,
            x as int,
            y as int,
        );
        assert(y0 * width + x0 <= width * height) by (nonlinear_arith)
            requires
                y0 + 1 <= height,
                x0 <= width,
                0 <= y0,
                0 <= width,
        ;
    }
    let mut sum: i128 = 0;
    let mut qy: usize = y0;
    while qy < y1
        invariant
            y0 <= qy <= y1 <= height,
            x0 <= x1 <= width,
            x0 == window_start(x as int, radius as int),
            x1 == window_end(x as int, radius as int, width as int),
            y0 == window_start(y as int, radius as int),
            y1 == window_end(y as int, radius as int, height as int),
            kernel.wf(),
            radius == kernel.radius,
            2 * radius + 1 <= usize::MAX,
            scale == kernel.scale(),
            x < width,
            y < height,
            step == toggle_step(binary_pattern[cell_index(x as int, y as int, width as int)]),
            target_image.len() == width * height,
            binary_pattern.len() == width * height,
            current_metrics.matches(
                target_image@,
                binary_pattern@,
                width as int,
                height as int,
                *kernel,
            ),
            terms == toggle_terms(
                target_image@,
                binary_pattern@,
                width as int,
                height as int,
                *kernel,
                x as int,
                y as int,
            ),
            sum == sum_rect(x0 as int, x1 as int, y0 as int, qy as int, terms),
            -((qy * width + x0) * MAX_TOGGLE_TERM) <= sum <= (qy * width + x0) * MAX_TOGGLE_TERM,
        decreases y1 - qy,
    {
        let ty = tap_over(qy, y, radius);
        let mut qx: usize = x0;
        while qx < x1
            invariant
                y0 <= qy < y1 <= height,
                x0 <= qx <= x1 <= width,
                x0 == window_start(x as int, radius as int),
                x1 == window_end(x as int, radius as int, width as int),
                kernel.wf(),
                radius == kernel.radius,
                2 * radius + 1 <= usize::MAX,
            2 * radius + 1 <= usize::MAX,
                scale == kernel.scale(),
                x < width,
                y < height,
                ty == qy - y + radius,
                ty <= 2 * radius,
                step == toggle_step(binary_pattern[cell_index(x as int, y as int, width as int)]),
                target_image.len() == width * height,
                binary_pattern.len() == width * height,
                current_metrics.matches(
                    target_image@,
                    binary_pattern@,
                    width as int,
                    height as int,
                    *kernel,
                ),
                terms == toggle_terms(
                    target_image@,
                    binary_pattern@,
                    width as int,
                    height as int,
                    *kernel,
                    x as int,
                    y as int,
                ),
                sum == sum_rect(x0 as int, x1 as int, y0 as int, qy as int, terms) + sum_range(
                    x0 as int,
                    qx as int,
                    row_of(terms, qy as int),
                ),
                -((qy * width + qx) * MAX_TOGGLE_TERM) <= sum <= (qy * width + qx) * MAX_TOGGLE_TERM,
            decreases x1 - qx,
        {
            let here = cell_index_of(qx, qy, width, height);
            let tx = tap_over(qx, x, radius);
            let weight = kernel.weight_of(tx, ty);
            proof {
                lemma_pixel_error_bounds(
                    target_image@,
                    binary_pattern@,
                    width as int,
                    height as int,
                    *kernel,
                    qx as int,
                    qy as int,
                );
                lemma_filtered_value_bounds(
                    binary_pattern@,
                    width as int,
                    height as int,
                    *kernel,
                    qx as int,
                    qy as int,
                );
                kernel.lemma_weight_bounds(tx as int, ty as int);
                assert(0 <= scale * target_image[here as int] <= 255 * MAX_KERNEL_TOTAL)
                    by (nonlinear_arith)
                    requires
                        0 <= target_image[here as int] <= 255,
                        1 <= scale <= MAX_KERNEL_TOTAL,
                ;
                assert(-267_386_880 <= weight * step <= 267_386_880) by (nonlinear_arith)
                    requires
                        0 <= weight <= 1_048_576,
                        step == 255 || step == -255,
                ;
            }
            let change: i64 = (weight as i64) * step;
            let error: i64 = (scale * (target_image[here] as u64)) as i64
                - (current_metrics.filtered_output[here] as i64);
            proof {
                assert(-MAX_TOGGLE_TERM <= -2 * error * change + change * change <= MAX_TOGGLE_TERM
                    && -2 * (267_386_880 * 267_386_880) <= 2 * (error * change) <= 2 * (267_386_880
                    * 267_386_880) && 0 <= change * change <= 267_386_880 * 267_386_880 && -2
                    * error * change == -(2 * (error * change))) by (nonlinear_arith)
                    requires
                        -267_386_880 <= error <= 267_386_880,
                        -267_386_880 <= change <= 267_386_880,
                        MAX_TOGGLE_TERM == 3 * (267_386_880 * 267_386_880),
                ;
                assert(row_of(terms, qy as int)(qx as int) == terms(qx as int, qy as int));
                assert(influence(*kernel, x as int, y as int, qx as int, qy as int) == weight);
            }
            let term: i128 = (change as i128) * (change as i128) - 2 * ((error as i128) * (
            change as i128));
            sum = sum + term;
            qx = qx + 1;
        }
        assert((qy + 1) * width == qy * width + width) by (nonlinear_arith);
        qy = qy + 1;
    }
    sum
}

/// Brings `metrics` up to date with the toggle of the pixel `(x, y)` of
/// `binary_pattern`: adds `error_change` to the perceived error and adds the
/// pixel's influence, times the step of the toggle, to what is seen at each
/// pixel of the kernel's footprint round it. `binary_pattern` is the pattern
/// before the toggle.
pub fn update_error_metrics_after_toggle(
    metrics: &mut ErrorMetrics,
    error_change: i128,
    target_image: &[u8],
    binary_pattern: &Vec<bool>,
    x: usize,
    y: usize,
    width: usize,
    height: usize,
    kernel: &Kernel,
)
    requires
        kernel.wf(),
        x < width,
        y < height,
        target_image.len() == width * height,
        binary_pattern.len() == width * height,
        old(metrics).matches(target_image@, binary_pattern@, width as int, height as int, *kernel),
        error_change == toggle_delta(
            target_image@,
            binary_pattern@,
            width as int,
            height as int,
            *kernel,
            x as int,
            y as int,
        ),
    ensures
        final(metrics).matches(
            target_image@,
            toggled(binary_pattern@, width as int, x as int, y as int),
            width as int,
            height as int,
            *kernel,
        ),
        final(metrics).total_error == old(metrics).total_error + error_change,
{
    let radius = kernel.radius;
    let side = kernel.side_len();
    let index = cell_index_of(x, y, width, height);
    let step: i64 = if binary_pattern[index] {
        -255
    } else {
        255
    };
    let x0 = window_start_of(x, radius);
    let x1 = window_end_of(x, radius, width);
    let y0 = window_start_of(y, radius);
    let y1 = window_end_of(y, radius, height);
    let ghost after = toggled(binary_pattern@, width as int, x as int, y as int);
    proof {
        lemma_toggle_delta_is_error_change(
            target_image@,
            binary_pattern@,
            width as int,
            height as int,
            *kernel,
            x as int,
            y as int,
        );
        lemma_total_error_lower(target_image@, after, width as int, height as int, *kernel);
        lemma_total_error_lower(
            target_image@,
            binary_pattern@,
            width as int,
            height as int,
            *kernel,
        );
        lemma_total_error_upper(
            target_image@,
            binary_pattern@,
            width as int,
            height as int,
            *kernel,
        );
        lemma_total_error_upper(target_image@, after, width as int, height as int, *kernel);
        assert((width * height) * MAX_SQUARED_ERROR <= 0xffff_ffff_ffff_ffff * MAX_SQUARED_ERROR)
            by (nonlinear_arith)
            requires
                width * height <= 0xffff_ffff_ffff_ffff,
        ;
    }
    metrics.total_error = (metrics.total_error as i128 + error_change) as u128;
    let mut qy: usize = y0;
    while qy < y1
        invariant
            y0 <= qy <= y1 <= height,
            x0 <= x1 <= width,
            x0 == window_start(x as int, radius as int),
            x1 == window_end(x as int, radius as int, width as int),
            y0 == window_start(y as int, radius as int),
            y1 == window_end(y as int, radius as int, height as int),
            kernel.wf(),
            radius == kernel.radius,
            2 * radius + 1 <= usize::MAX,
            x < width,
            y < height,
            step == toggle_step(binary_pattern[cell_index(x as int, y as int, width as int)]),
            binary_pattern.len() == width * height,
            after == toggled(binary_pattern@, width as int, x as int, y as int),
            metrics.filtered_output.len() == width * height,
            metrics.total_error == total_error(
                target_image@,
                after,
                width as int,
                height as int,
                *kernel,
            ),
            metrics.total_error == old(metrics).total_error + error_change,
            forall|cx: int, cy: int|
                0 <= cx < width && 0 <= cy < height ==> metrics.filtered_output[#[trigger] cell_index(
                    cx,
                    cy,
                    width as int,
                )] == if x0 <= cx < x1 && y0 <= cy < qy {
                    filtered_value(after, width as int, height as int, *kernel, cx, cy)
                } else {
                    filtered_value(binary_pattern@, width as int, height as int, *kernel, cx, cy)
                },
        decreases y1 - qy,
    {
        let ty = tap_over(qy, y, radius);
        let mut qx: usize = x0;
        while qx < x1
            invariant
                y0 <= qy < y1 <= height,
                x0 <= qx <= x1 <= width,
                x0 == window_start(x as int, radius as int),
                x1 == window_end(x as int, radius as int, width as int),
                kernel.wf(),
                radius == kernel.radius,
                2 * radius + 1 <= usize::MAX,
            2 * radius + 1 <= usize::MAX,
                x < width,
                y < height,
                ty == qy - y + radius,
                ty <= 2 * radius,
                step == toggle_step(binary_pattern[cell_index(x as int, y as int, width as int)]),
                binary_pattern.len() == width * height,
                after == toggled(binary_pattern@, width as int, x as int, y as int),
                metrics.filtered_output.len() == width * height,
                metrics.total_error == total_error(
                    target_image@,
                    after,
                    width as int,
                    height as int,
                    *kernel,
                ),
                metrics.total_error == old(metrics).total_error + error_change,
                forall|cx: int, cy: int|
                    0 <= cx < width && 0 <= cy < height
                        ==> metrics.filtered_output[#[trigger] cell_index(cx, cy, width as int)]
                        == if x0 <= cx < x1 && (y0 <= cy < qy || (cy == qy && cx < qx)) {
                        filtered_value(after, width as int, height as int, *kernel, cx, cy)
                    } else {
                        filtered_value(
                            binary_pattern@,
                            width as int,
                            height as int,
                            *kernel,
                            cx,
                            cy,
                        )
                    },
            decreases x1 - qx,
        {
            let here = cell_index_of(qx, qy, width, height);
            let tx = tap_over(qx, x, radius);
            let weight = kernel.weight_of(tx, ty);
            proof {
                lemma_filtered_after_toggle(
                    binary_pattern@,
                    width as int,
                    height as int,
                    *kernel,
                    x as int,
                    y as int,
                    qx as int,
                    qy as int,
                );
                lemma_filtered_value_bounds(
                    binary_pattern@,
                    width as int,
                    height as int,
                    *kernel,
                    qx as int,
                    qy as int,
                );
                lemma_filtered_value_bounds(
                    after,
                    width as int,
                    height as int,
                    *kernel,
                    qx as int,
                    qy as int,
                );
                kernel.lemma_weight_bounds(tx as int, ty as int);
                assert(-267_386_880 <= weight * step <= 267_386_880) by (nonlinear_arith)
                    requires
                        0 <= weight <= 1_048_576,
                        step == 255 || step == -255,
                ;
                assert(influence(*kernel, x as int, y as int, qx as int, qy as int) == weight);
                assert forall|cx: int, cy: int|
                    0 <= cx < width && 0 <= cy < height && !(cx == qx && cy == qy) implies cell_index(
                    cx,
                    cy,
                    width as int,
                ) != here by {
                    if cell_index(cx, cy, width as int) == here {
                        lemma_cell_index_injective(cx, cy, qx as int, qy as int, width as int);
                    }
                }
            }
            let change: i64 = (weight as i64) * step;
            let seen: i64 = (metrics.filtered_output[here] as i64) + change;
            let ghost previous = metrics.filtered_output@;
            assert(previous[cell_index(qx as int, qy as int, width as int)] == filtered_value(
                binary_pattern@,
                width as int,
                height as int,
                *kernel,
                qx as int,
                qy as int,
            ));
            assert(seen == filtered_value(
                after,
                width as int,
                height as int,
                *kernel,
                qx as int,
                qy as int,
            ));
            metrics.filtered_output.set(here, seen as u64);
            proof {
                assert forall|cx: int, cy: int|
                    0 <= cx < width && 0 <= cy < height implies metrics.filtered_output[#[trigger] cell_index(
                    cx,
                    cy,
                    width as int,
                )] == if x0 <= cx < x1 && (y0 <= cy < qy || (cy == qy && cx < qx + 1)) {
                    filtered_value(after, width as int, height as int, *kernel, cx, cy)
                } else {
                    filtered_value(binary_pattern@, width as int, height as int, *kernel, cx, cy)
                } by {
                    lemma_cell_index_bounds(cx, cy, width as int, height as int);
                    if cx == qx && cy == qy {
                    } else {
                        assert(cell_index(cx, cy, width as int) != here);
                        assert(metrics.filtered_output[cell_index(cx, cy, width as int)]
                            == previous[cell_index(cx, cy, width as int)]);
                    }
                }
            }
            qx = qx + 1;
        }
        qy = qy + 1;
    }
    proof {
        assert forall|cx: int, cy: int| 0 <= cx < width && 0 <= cy < height implies metrics.filtered_output[#[trigger] cell_index(
            cx,
            cy,
            width as int,
        )] == filtered_value(after, width as int, height as int, *kernel, cx, cy) by {
            lemma_filtered_after_toggle(
                binary_pattern@,
                width as int,
                height as int,
                *kernel,
                x as int,
                y as int,
                cx,
                cy,
            );
            if !(x0 <= cx < x1 && y0 <= cy < y1) {
                assert(influence(*kernel, x as int, y as int, cx, cy) == 0);
                assert(0 * step == 0);
            }
        }
    }
}

} // verus!
