//! Row-major grids of cells and the count of the cells that are set.

use crate::sums::lemma_sum_rect_add;
use crate::sums::lemma_sum_rect_bounds;
use crate::sums::lemma_sum_rect_le;
use crate::sums::lemma_sum_rect_single;
use crate::sums::row_sum;
use crate::sums::sum_rect;
use vstd::prelude::*;

verus! {

/// Position of the cell `(x, y)` in a row-major grid of the given width.
pub open spec fn cell_index(x: int, y: int, width: int) -> int {
    y * width + x
}

/// A cell inside the grid has a position inside the buffer.
pub proof fn lemma_cell_index_bounds(x: int, y: int, width: int, height: int)
    requires
        0 <= x < width,
        0 <= y < height,
    ensures
        0 <= cell_index(x, y, width) < width * height,
{
    assert(0 <= y * width && y * width + width <= width * height) by (nonlinear_arith)
        requires
            0 <= y,
            y + 1 <= height,
            0 < width,
    ;
}

/// Two cells with the same position are the same cell.
pub proof fn lemma_cell_index_injective(x1: int, y1: int, x2: int, y2: int, width: int)
    requires
        0 <= x1 < width,
        0 <= x2 < width,
        cell_index(x1, y1, width) == cell_index(x2, y2, width),
    ensures
        x1 == x2,
        y1 == y2,
{
    assert(y1 == y2) by (nonlinear_arith)
        requires
            0 <= x1 < width,
            0 <= x2 < width,
            y1 * width + x1 == y2 * width + x2,
    ;
}

/// Position of the cell `(x, y)` in the buffer of a `width` by `height` grid.
pub fn cell_index_of(x: usize, y: usize, width: usize, height: usize) -> (index: usize)
    requires
        x < width,
        y < height,
        width * height <= usize::MAX,
    ensures
        index == cell_index(x as int, y as int, width as int),
        index < width * height,
{
    proof {
        lemma_cell_index_bounds(x as int, y as int, width as int, height as int);
    }
    y * width + x
}

/// 1 where the cell is set, 0 where it is clear.
pub open spec fn indicator(grid: Seq<bool>, width: int) -> spec_fn(int, int) -> int {
    |x: int, y: int|
        if grid[cell_index(x, y, width)] {
            1int
        } else {
            0int
        }
}

/// Number of set cells in a `width` by `height` grid.
pub open spec fn ones_count(grid: Seq<bool>, width: int, height: int) -> int {
    sum_rect(0, width, 0, height, indicator(grid, width))
}

/// Number of set cells among those that come before `(x, y)` in row-major
/// order.
pub open spec fn ones_before(grid: Seq<bool>, width: int, x: int, y: int) -> int {
    sum_rect(0, width, 0, y, indicator(grid, width)) + row_sum(0, x, indicator(grid, width), y)
}

/// The count of set cells lies between nothing and everything.
pub proof fn lemma_ones_count_bounds(grid: Seq<bool>, width: int, height: int)
    requires
        0 <= width,
        0 <= height,
    ensures
        0 <= ones_count(grid, width, height) <= width * height,
{
    lemma_sum_rect_bounds(0, width, 0, height, indicator(grid, width), 0, 1);
    assert(height * (width * 0) == 0 && height * (width * 1) == width * height) by (nonlinear_arith);
}

/// Writing one cell moves the count by the difference between what is
/// written and what was there.
pub proof fn lemma_ones_count_update(grid: Seq<bool>, width: int, height: int, x: int, y: int, value: bool)
    requires
        0 <= x < width,
        0 <= y < height,
        grid.len() == width * height,
    ensures
        ones_count(grid.update(cell_index(x, y, width), value), width, height) == ones_count(
            grid,
            width,
            height,
        ) + (if value {
            1int
        } else {
            0int
        }) - (if grid[cell_index(x, y, width)] {
            1int
        } else {
            0int
        }),
{
    let after = grid.update(cell_index(x, y, width), value);
    let f = indicator(grid, width);
    let h = indicator(after, width);
    let change = (if value {
        1int
    } else {
        0int
    }) - (if grid[cell_index(x, y, width)] {
        1int
    } else {
        0int
    });
    let g = |cx: int, cy: int|
        if cx == x && cy == y {
            change
        } else {
            0int
        };
    lemma_cell_index_bounds(x, y, width, height);
    assert forall|cx: int, cy: int| 0 <= cx < width && 0 <= cy < height implies #[trigger] h(cx, cy)
        == f(cx, cy) + g(cx, cy) by {
        lemma_cell_index_bounds(cx, cy, width, height);
        if cell_index(cx, cy, width) == cell_index(x, y, width) {
            lemma_cell_index_injective(cx, cy, x, y, width);
        }
    }
    lemma_sum_rect_add(0, width, 0, height, f, g, h);
    lemma_sum_rect_single(0, width, 0, height, x, y, g);
}

/// A grid without set cells is clear everywhere.
pub proof fn lemma_ones_count_zero(grid: Seq<bool>, width: int, height: int, x: int, y: int)
    requires
        0 <= x < width,
        0 <= y < height,
        ones_count(grid, width, height) == 0,
    ensures
        !grid[cell_index(x, y, width)],
{
    let f = indicator(grid, width);
    let g = |cx: int, cy: int|
        if cx == x && cy == y {
            f(x, y)
        } else {
            0int
        };
    lemma_sum_rect_le(0, width, 0, height, g, f);
    lemma_sum_rect_single(0, width, 0, height, x, y, g);
}

/// A grid with as many set cells as cells is set everywhere.
pub proof fn lemma_ones_count_full(grid: Seq<bool>, width: int, height: int, x: int, y: int)
    requires
        0 <= x < width,
        0 <= y < height,
        ones_count(grid, width, height) == width * height,
    ensures
        grid[cell_index(x, y, width)],
{
    let f = indicator(grid, width);
    let one = |cx: int, cy: int| 1int;
    let g = |cx: int, cy: int|
        if cx == x && cy == y {
            1 - f(x, y)
        } else {
            0int
        };
    let h = |cx: int, cy: int| f(cx, cy) + g(cx, cy);
    lemma_sum_rect_add(0, width, 0, height, f, g, h);
    lemma_sum_rect_single(0, width, 0, height, x, y, g);
    lemma_sum_rect_le(0, width, 0, height, h, one);
    lemma_sum_rect_bounds(0, width, 0, height, one, 1, 1);
    assert(height * (width * 1) == width * height) by (nonlinear_arith);
}

/// A vector of `len` copies of `value`.
pub fn filled<T: Copy>(len: usize, value: T) -> (cells: Vec<T>)
    ensures
        cells.len() == len,
        forall|k: int| 0 <= k < len ==> cells[k] == value,
{
    let mut cells: Vec<T> = Vec::new();
    while cells.len() < len
        invariant
            cells.len() <= len,
            forall|k: int| 0 <= k < cells.len() ==> cells[k] == value,
        decreases len - cells.len(),
    {
        cells.push(value);
    }
    cells
}

/// Every position in the buffer is the position of one cell of the grid.
pub proof fn lemma_cell_of_index(index: int, width: int, height: int)
    requires
        0 <= index < width * height,
        0 < width,
    ensures
        0 <= index % width < width,
        0 <= index / width < height,
        cell_index(index % width, index / width, width) == index,
{
    vstd::arithmetic::div_mod::lemma_fundamental_div_mod(index, width);
    vstd::arithmetic::div_mod::lemma_mod_bound(index, width);
    let q = index / width;
    let r = index % width;
    assert(0 <= q < height && q * width + r == index) by (nonlinear_arith)
        requires
            index == width * q + r,
            0 <= r < width,
            0 <= index < width * height,
    ;
}

/// A grid whose cells all hold `value` has every cell or no cell set.
pub proof fn lemma_ones_count_uniform(grid: Seq<bool>, width: int, height: int, value: bool)
    requires
        0 <= width,
        0 <= height,
        forall|x: int, y: int|
            0 <= x < width && 0 <= y < height ==> grid[#[trigger] cell_index(x, y, width)] == value,
    ensures
        ones_count(grid, width, height) == if value {
            width * height
        } else {
            0
        },
{
    let f = indicator(grid, width);
    let level = if value {
        1int
    } else {
        0int
    };
    assert forall|x: int, y: int| 0 <= x < width && 0 <= y < height implies level <= #[trigger] f(
        x,
        y,
    ) <= level by {
        assert(grid[cell_index(x, y, width)] == value);
    }
    lemma_sum_rect_bounds(0, width, 0, height, f, level, level);
    assert(height * (width * 1) == width * height && height * (width * 0) == 0)
        by (nonlinear_arith);
}

} // verus!
