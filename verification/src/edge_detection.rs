//! Sobel edge detection.

use crate::grid::cell_index;
use crate::grid::cell_index_of;
use vstd::prelude::*;

verus! {

/// The sample of the pixel `(x, y)`.
pub open spec fn sample_at(input: Seq<u8>, width: int, x: int, y: int) -> int {
    input[cell_index(x, y, width)] as int
}

/// The horizontal Sobel gradient at `(x, y)`: the column to the right less
/// the column to the left, the middle row counted twice.
pub open spec fn gradient_x(input: Seq<u8>, width: int, x: int, y: int) -> int {
    (sample_at(input, width, x + 1, y - 1) + 2 * sample_at(input, width, x + 1, y) + sample_at(
        input,
        width,
        x + 1,
        y + 1,
    )) - (sample_at(input, width, x - 1, y - 1) + 2 * sample_at(input, width, x - 1, y)
        + sample_at(input, width, x - 1, y + 1))
}

/// The vertical Sobel gradient at `(x, y)`: the row below less the row
/// above, the middle column counted twice.
pub open spec fn gradient_y(input: Seq<u8>, width: int, x: int, y: int) -> int {
    (sample_at(input, width, x - 1, y + 1) + 2 * sample_at(input, width, x, y + 1) + sample_at(
        input,
        width,
        x + 1,
        y + 1,
    )) - (sample_at(input, width, x - 1, y - 1) + 2 * sample_at(input, width, x, y - 1)
        + sample_at(input, width, x + 1, y - 1))
}

/// Whether `(x, y)` lies on an edge: it is not on the image's border, and
/// the magnitude of its gradient exceeds the threshold.
pub open spec fn is_edge(input: Seq<u8>, width: int, height: int, threshold: u8, x: int, y: int) -> bool {
    let gx = gradient_x(input, width, x, y);
    let gy = gradient_y(input, width, x, y);
    &&& 1 <= x < width - 1
    &&& 1 <= y < height - 1
    &&& gx * gx + gy * gy > threshold * threshold
}

/// `output` marks the edges of the image `input`, one byte a pixel: 255 on
/// an edge, 0 elsewhere.
pub open spec fn is_edge_map(
    output: Seq<u8>,
    input: Seq<u8>,
    width: int,
    height: int,
    threshold: u8,
) -> bool {
    &&& output.len() == width * height
    &&& forall|x: int, y: int|
        0 <= x < width && 0 <= y < height ==> output[#[trigger] cell_index(x, y, width)] == if is_edge(
            input,
            width,
            height,
            threshold,
            x,
            y,
        ) {
            255u8
        } else {
            0u8
        }
}

/// The sample of the pixel `(x, y)`, widened.
fn sample_of(input: &[u8], width: usize, height: usize, x: usize, y: usize) -> (sample: i32)
    requires
        input.len() == width * height,
        x < width,
        y < height,
    ensures
        sample == sample_at(input@, width as int, x as int, y as int),
        0 <= sample <= 255,
{
    input[cell_index_of(x, y, width, height)] as i32
}

/// Whether the pixel `(x, y)`, off the image's border, lies on an edge.
pub fn edge_at(input: &[u8], width: usize, height: usize, threshold: u8, x: usize, y: usize) -> (edge:
    bool)
    requires
        input.len() == width * height,
        1 <= x,
        x + 1 < width,
        1 <= y,
        y + 1 < height,
    ensures
        edge == is_edge(input@, width as int, height as int, threshold, x as int, y as int),
{
    let right = sample_of(input, width, height, x + 1, y - 1) + 2 * sample_of(
        input,
        width,
        height,
        x + 1,
        y,
    ) + sample_of(input, width, height, x + 1, y + 1);
    let left = sample_of(input, width, height, x - 1, y - 1) + 2 * sample_of(
        input,
        width,
        height,
        x - 1,
        y,
    ) + sample_of(input, width, height, x - 1, y + 1);
    let below = sample_of(input, width, height, x - 1, y + 1) + 2 * sample_of(
        input,
        width,
        height,
        x,
        y + 1,
    ) + sample_of(input, width, height, x + 1, y + 1);
    let above = sample_of(input, width, height, x - 1, y - 1) + 2 * sample_of(
        input,
        width,
        height,
        x,
        y - 1,
    ) + sample_of(input, width, height, x + 1, y - 1);
    let gx: i32 = right - left;
    let gy: i32 = below - above;
    assert(0 <= gx * gx <= 1020 * 1020 && 0 <= gy * gy <= 1020 * 1020) by (nonlinear_arith)
        requires
            -1020 <= gx <= 1020,
            -1020 <= gy <= 1020,
    ;
    assert(0 <= threshold * threshold <= 255 * 255) by (nonlinear_arith)
        requires
            0 <= threshold <= 255,
    ;
    let limit: i32 = (threshold as i32) * (threshold as i32);
    gx * gx + gy * gy > limit
}

/// Marks the edges of the `width` by `height` image `input`, and returns
/// the result one byte a pixel.
pub fn sobel_edge_detection(input: &[u8], width: usize, height: usize, threshold: u8) -> (output:
    Vec<u8>)
    requires
        input.len() == width * height,
    ensures
        is_edge_map(output@, input@, width as int, height as int, threshold),
{
    let mut output: Vec<u8> = Vec::new();
    let mut y: usize = 0;
    while y < height
        invariant
            y <= height,
            input.len() == width * height,
            output.len() == y * width,
            forall|cx: int, cy: int|
                0 <= cx < width && 0 <= cy < y ==> output[#[trigger] cell_index(cx, cy, width as int)]
                    == if is_edge(input@, width as int, height as int, threshold, cx, cy) {
                    255u8
                } else {
                    0u8
                },
        decreases height - y,
    {
        let mut x: usize = 0;
        while x < width
            invariant
                x <= width,
                y < height,
                input.len() == width * height,
                output.len() == y * width + x,
                forall|cx: int, cy: int|
                    0 <= cx < width && (0 <= cy < y || (cy == y && cx < x)) ==> output[#[trigger] cell_index(
                        cx,
                        cy,
                        width as int,
                    )] == if is_edge(input@, width as int, height as int, threshold, cx, cy) {
                        255u8
                    } else {
                        0u8
                    },
            decreases width - x,
        {
            let index = cell_index_of(x, y, width, height);
            let inside = x >= 1 && width - x > 1 && y >= 1 && height - y > 1;
            let level: u8 = if inside && edge_at(input, width, height, threshold, x, y) {
                255
            } else {
                0
            };
            proof {
                assert forall|cx: int, cy: int|
                    0 <= cx < width && (0 <= cy < y || (cy == y && cx < x)) implies cell_index(
                    cx,
                    cy,
                    width as int,
                ) < index by {
                    if cy < y {
                        assert(cy * width + width <= y * width) by (nonlinear_arith)
                            requires
                                cy + 1 <= y,
                                0 <= width,
                        ;
                    }
                }
            }
            output.push(level);
            x = x + 1;
        }
        assert((y + 1) * width == y * width + width) by (nonlinear_arith);
        y = y + 1;
    }
    proof {
        assert(height * width == width * height) by (nonlinear_arith);
    }
    output
}

} // verus!
