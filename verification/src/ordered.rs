//! Ordered dithering against the 4 by 4 Bayer matrix.

use crate::grid::cell_index;
use crate::grid::cell_index_of;
use vstd::prelude::*;

verus! {

/// The entry of the 4 by 4 Bayer matrix in column `bx` of row `by`.
pub open spec fn bayer_entry(bx: int, by: int) -> int {
    seq![0int, 8, 2, 10, 12, 4, 14, 6, 3, 11, 1, 9, 15, 7, 13, 5][by * 4 + bx]
}

/// What a sample of the pixel `(x, y)` is rendered as: white where the
/// sample plus the Bayer entry over the pixel, stretched from 0..16 to
/// -128..128, exceeds 128. Each entry covers a square of `dot_size` pixels a
/// side.
pub open spec fn ordered_level(sample: u8, x: int, y: int, dot_size: int) -> u8 {
    if sample + 16 * bayer_entry((x / dot_size) % 4, (y / dot_size) % 4) - 128 > 128 {
        255
    } else {
        0
    }
}

/// `output` is the image `input` dithered against the Bayer matrix, one
/// byte a pixel.
pub open spec fn is_ordered_dither(
    output: Seq<u8>,
    input: Seq<u8>,
    width: int,
    height: int,
    dot_size: int,
) -> bool {
    &&& output.len() == width * height
    &&& forall|x: int, y: int|
        0 <= x < width && 0 <= y < height ==> output[#[trigger] cell_index(x, y, width)]
            == ordered_level(input[cell_index(x, y, width)], x, y, dot_size)
}

/// The entry of the 4 by 4 Bayer matrix in column `bx` of row `by`.
pub fn bayer_value(bx: usize, by: usize) -> (entry: u8)
    requires
        bx < 4,
        by < 4,
    ensures
        entry == bayer_entry(bx as int, by as int),
{
    let matrix: [u8; 16] = [0, 8, 2, 10, 12, 4, 14, 6, 3, 11, 1, 9, 15, 7, 13, 5];
    matrix[by * 4 + bx]
}

/// Dithers the `width` by `height` image `input` against the Bayer matrix,
/// and returns the result one byte a pixel.
pub fn ordered_dither(input: &[u8], width: usize, height: usize, dot_size: usize) -> (output: Vec<u8>)
    requires
        input.len() == width * height,
        dot_size > 0,
    ensures
        is_ordered_dither(output@, input@, width as int, height as int, dot_size as int),
{
    let mut output: Vec<u8> = Vec::new();
    let mut y: usize = 0;
    while y < height
        invariant
            y <= height,
            dot_size > 0,
            input.len() == width * height,
            output.len() == y * width,
            forall|cx: int, cy: int|
                0 <= cx < width && 0 <= cy < y ==> output[#[trigger] cell_index(cx, cy, width as int)]
                    == ordered_level(input[cell_index(cx, cy, width as int)], cx, cy, dot_size as int),
        decreases height - y,
    {
        let bayer_y = (y / dot_size) % 4;
        let mut x: usize = 0;
        while x < width
            invariant
                x <= width,
                y < height,
                dot_size > 0,
                bayer_y == (y / dot_size) % 4,
                input.len() == width * height,
                output.len() == y * width + x,
                forall|cx: int, cy: int|
                    0 <= cx < width && (0 <= cy < y || (cy == y && cx < x)) ==> output[#[trigger] cell_index(
                        cx,
                        cy,
                        width as int,
                    )] == ordered_level(
                        input[cell_index(cx, cy, width as int)],
                        cx,
                        cy,
                        dot_size as int,
                    ),
            decreases width - x,
        {
            let index = cell_index_of(x, y, width, height);
            let bayer_x = (x / dot_size) % 4;
            let adjustment: i16 = 16 * (bayer_value(bayer_x, bayer_y) as i16) - 128;
            let level: u8 = if (input[index] as i16) + adjustment > 128 {
                255
            } else {
                0
            };
            proof {
                assert forall|cx: int, cy: int|
                    0 <= cx < width && (0 <= cy < y || (cy == y && cx < x)) implies cell_index(
                    cx,
                    cy,
                    width as int,
                ) < index by {
                    if cy < y {
                        assert(cy * width + width <= y * width) by (nonlinear_arith)
                            requires
                                cy + 1 <= y,
                                0 <= width,
                        ;
                    }
                }
            }
            output.push(level);
            x = x + 1;
        }
        assert((y + 1) * width == y * width + width) by (nonlinear_arith);
        y = y + 1;
    }
    proof {
        assert(height * width == width * height) by (nonlinear_arith);
    }
    output
}

} // verus!
