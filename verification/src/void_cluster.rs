//! The void-and-cluster rank matrix.
//!
//! A working grid of set and clear cells is first filled, one largest void at
//! a time, and then emptied, one tightest cluster at a time. The order in
//! which the cells are cleared ranks them, so that the cells ranked below any
//! cut form an evenly spread pattern.

use crate::grid::cell_index;
use crate::grid::cell_index_of;
use crate::grid::filled;
use crate::grid::indicator;
use crate::grid::lemma_cell_index_bounds;
use crate::grid::lemma_cell_index_injective;
use crate::grid::lemma_ones_count_bounds;
use crate::grid::lemma_ones_count_update;
use crate::grid::ones_before;
use crate::grid::ones_count;
use crate::kernel::tap_weights;
use crate::kernel::Kernel;
use crate::random::RandomSource;
use crate::ratio::Ratio;
use crate::sums::lemma_sum_rect_le;
use crate::sums::lemma_sum_rect_prefix_le;
use crate::sums::row_of;
use crate::sums::sum_range;
use crate::sums::sum_rect;
use crate::toroidal::wrap;
use crate::toroidal::wrap_offset;
use vstd::prelude::*;

verus! {

/// What each tap of the kernel adds to the cluster value of the cell
/// `(x, y)`: its weight where the neighbour under it, found by wrapping round
/// the grid's edges, is set. The centre tap adds nothing.
pub open spec fn cluster_terms(
    grid: Seq<bool>,
    width: int,
    height: int,
    x: int,
    y: int,
    kernel: Kernel,
) -> spec_fn(int, int) -> int {
    |fx: int, fy: int|
        if fx == kernel.radius && fy == kernel.radius {
            0int
        } else if grid[cell_index(
            wrap(x + fx - kernel.radius, width),
            wrap(y + fy - kernel.radius, height),
            width,
        )] {
            kernel.weight(fx, fy)
        } else {
            0int
        }
}

/// The cluster value of the cell `(x, y)`: the weighted count of the set
/// cells around it on the torus, the cell itself left out.
pub open spec fn cluster_value(
    grid: Seq<bool>,
    width: int,
    height: int,
    x: int,
    y: int,
    kernel: Kernel,
) -> int {
    sum_rect(0, kernel.side(), 0, kernel.side(), cluster_terms(grid, width, height, x, y, kernel))
}

/// Row-major order of cells: `(ax, ay)` comes no later than `(bx, by)`.
pub open spec fn precedes(ax: int, ay: int, bx: int, by: int) -> bool {
    ay < by || (ay == by && ax <= bx)
}

/// The cell `(x, y)` is ranked before the cell `(cx, cy)` in the search for
/// the largest void: its cluster value is less, or the same and it comes no
/// later in row-major order.
pub open spec fn void_before(
    grid: Seq<bool>,
    width: int,
    height: int,
    kernel: Kernel,
    x: int,
    y: int,
    cx: int,
    cy: int,
) -> bool {
    let here = cluster_value(grid, width, height, x, y, kernel);
    let there = cluster_value(grid, width, height, cx, cy, kernel);
    here < there || (here == there && precedes(x, y, cx, cy))
}

/// The cell `(x, y)` is ranked before the cell `(cx, cy)` in the search for
/// the tightest cluster: its cluster value is greater, or the same and it
/// comes no later in row-major order.
pub open spec fn cluster_before(
    grid: Seq<bool>,
    width: int,
    height: int,
    kernel: Kernel,
    x: int,
    y: int,
    cx: int,
    cy: int,
) -> bool {
    let here = cluster_value(grid, width, height, x, y, kernel);
    let there = cluster_value(grid, width, height, cx, cy, kernel);
    here > there || (here == there && precedes(x, y, cx, cy))
}

/// `(x, y)` is the largest void of the grid: the clear cell with the least
/// cluster value, and the first in row-major order among those with that
/// value.
pub open spec fn is_largest_void(
    grid: Seq<bool>,
    width: int,
    height: int,
    kernel: Kernel,
    x: int,
    y: int,
) -> bool {
    &&& 0 <= x < width
    &&& 0 <= y < height
    &&& !grid[cell_index(x, y, width)]
    &&& forall|cx: int, cy: int|
        0 <= cx < width && 0 <= cy < height && !grid[#[trigger] cell_index(cx, cy, width)]
            ==> void_before(grid, width, height, kernel, x, y, cx, cy)
}

/// `(x, y)` is the tightest cluster of the grid: the set cell with the
/// greatest cluster value, and the first in row-major order among those with
/// that value.
pub open spec fn is_tightest_cluster(
    grid: Seq<bool>,
    width: int,
    height: int,
    kernel: Kernel,
    x: int,
    y: int,
) -> bool {
    &&& 0 <= x < width
    &&& 0 <= y < height
    &&& grid[cell_index(x, y, width)]
    &&& forall|cx: int, cy: int|
        0 <= cx < width && 0 <= cy < height && grid[#[trigger] cell_index(cx, cy, width)]
            ==> cluster_before(grid, width, height, kernel, x, y, cx, cy)
}

/// Every cell of the grid is set.
pub open spec fn all_set(grid: Seq<bool>, width: int, height: int) -> bool {
    forall|cx: int, cy: int|
        0 <= cx < width && 0 <= cy < height ==> grid[#[trigger] cell_index(cx, cy, width)]
}

/// Every cell of the grid is clear.
pub open spec fn all_clear(grid: Seq<bool>, width: int, height: int) -> bool {
    forall|cx: int, cy: int|
        0 <= cx < width && 0 <= cy < height ==> !grid[#[trigger] cell_index(cx, cy, width)]
}

/// Number of clear cells among those that come before `(x, y)` in row-major
/// order.
pub open spec fn clear_before(grid: Seq<bool>, width: int, x: int, y: int) -> int {
    cell_index(x, y, width) - ones_before(grid, width, x, y)
}

/// The cluster value of a cell is at most the total of the kernel.
pub proof fn lemma_cluster_value_bounds(
    grid: Seq<bool>,
    width: int,
    height: int,
    x: int,
    y: int,
    kernel: Kernel,
)
    requires
        kernel.wf(),
    ensures
        0 <= cluster_value(grid, width, height, x, y, kernel) <= kernel.total,
{
    let side = kernel.side();
    let terms = cluster_terms(grid, width, height, x, y, kernel);
    let weights = tap_weights(kernel.weights@, side);
    assert forall|fx: int, fy: int| 0 <= fx < side && 0 <= fy < side implies 0 <= #[trigger] terms(
        fx,
        fy,
    ) <= weights(fx, fy) by {
        kernel.lemma_weight_bounds(fx, fy);
    }
    lemma_sum_rect_le(0, side, 0, side, terms, weights);
    crate::sums::lemma_sum_rect_lower(0, side, 0, side, terms);
}

/// The cluster value of the cell `(x, y)` of `pattern`, a row-major grid of
/// `width` by `height` cells.
pub fn calculate_cluster_value(
    pattern: &Vec<bool>,
    x: usize,
    y: usize,
    width: usize,
    height: usize,
    kernel: &Kernel,
) -> (value: u64)
    requires
        kernel.wf(),
        x < width,
        y < height,
        pattern.len() == width * height,
    ensures
        value == cluster_value(pattern@, width as int, height as int, x as int, y as int, *kernel),
        value <= kernel.total,
{
    let side = kernel.side_len();
    let radius = kernel.radius;
    let ghost terms = cluster_terms(
        pattern@,
        width as int,
        height as int,
        x as int,
        y as int,
        *kernel,
    );
    proof {
        lemma_cluster_value_bounds(
            pattern@,
            width as int,
            height as int,
            x as int,
            y as int,
            *kernel,
        );
        assert forall|fx: int, fy: int| 0 <= fx < side && 0 <= fy < side implies 0
            <= #[trigger] terms(fx, fy) by {
            kernel.lemma_weight_bounds(fx, fy);
        }
    }
    let mut sum: u64 = 0;
    let mut fy: usize = 0;
    while fy < side
        invariant
            fy <= side,
            side == kernel.side(),
            radius == kernel.radius,
            kernel.wf(),
            x < width,
            y < height,
            pattern.len() == width * height,
            terms == cluster_terms(
                pattern@,
                width as int,
                height as int,
                x as int,
                y as int,
                *kernel,
            ),
            forall|fx: int, fy: int| 0 <= fx < side && 0 <= fy < side ==> 0 <= #[trigger] terms(fx, fy),
            sum_rect(0, side as int, 0, side as int, terms) <= kernel.total,
            sum == sum_rect(0, side as int, 0, fy as int, terms),
        decreases side - fy,
    {
        let ny = wrap_offset(y, fy, radius, height);
        let mut fx: usize = 0;
        let mut row: u64 = 0;
        proof {
            lemma_sum_rect_prefix_le(0, side as int, 0, side as int, 0, fy as int, terms);
        }
        while fx < side
            invariant
                fx <= side,
                fy < side,
                side == kernel.side(),
                radius == kernel.radius,
                kernel.wf(),
                x < width,
                y < height,
                ny == wrap(y + fy - radius, height as int),
                ny < height,
                pattern.len() == width * height,
                terms == cluster_terms(
                    pattern@,
                    width as int,
                    height as int,
                    x as int,
                    y as int,
                    *kernel,
                ),
                forall|fx: int, fy: int|
                    0 <= fx < side && 0 <= fy < side ==> 0 <= #[trigger] terms(fx, fy),
                sum_rect(0, side as int, 0, side as int, terms) <= kernel.total,
                sum == sum_rect(0, side as int, 0, fy as int, terms),
                row == sum_range(0, fx as int, row_of(terms, fy as int)),
                sum + row <= kernel.total,
            decreases side - fx,
        {
            proof {
                lemma_sum_rect_prefix_le(
                    0,
                    side as int,
                    0,
                    side as int,
                    fx as int + 1,
                    fy as int,
                    terms,
                );
                assert(row_of(terms, fy as int)(fx as int) == terms(fx as int, fy as int));
            }
            if !(fx == radius && fy == radius) {
                let nx = wrap_offset(x, fx, radius, width);
                let index = cell_index_of(nx, ny, width, height);
                if pattern[index] {
                    let weight = kernel.weight_of(fx, fy);
                    row = row + weight as u64;
                }
            }
            fx = fx + 1;
        }
        sum = sum + row;
        fy = fy + 1;
    }
    sum
}

/// The largest void of `pattern`, as `(x, y)`, or `None` where no cell is
/// clear.
pub fn find_largest_void(pattern: &Vec<bool>, width: usize, height: usize, kernel: &Kernel) -> (found: Option<
    (usize, usize),
>)
    requires
        kernel.wf(),
        pattern.len() == width * height,
    ensures
        found matches Some(cell) ==> is_largest_void(
            pattern@,
            width as int,
            height as int,
            *kernel,
            cell.0 as int,
            cell.1 as int,
        ),
        found.is_none() ==> all_set(pattern@, width as int, height as int),
{
    let mut any: bool = false;
    let mut bx: usize = 0;
    let mut by: usize = 0;
    let mut best_value: u64 = 0;
    let mut y: usize = 0;
    while y < height
        invariant
            y <= height,
            kernel.wf(),
            pattern.len() == width * height,
            any ==> {
                &&& bx < width
                &&& by < y
                &&& !pattern[cell_index(bx as int, by as int, width as int)]
                &&& best_value == cluster_value(
                    pattern@,
                    width as int,
                    height as int,
                    bx as int,
                    by as int,
                    *kernel,
                )
            },
            forall|cx: int, cy: int|
                0 <= cx < width && 0 <= cy < y && !pattern[#[trigger] cell_index(
                    cx,
                    cy,
                    width as int,
                )] ==> any && void_before(
                    pattern@,
                    width as int,
                    height as int,
                    *kernel,
                    bx as int,
                    by as int,
                    cx,
                    cy,
                ),
        decreases height - y,
    {
        let mut x: usize = 0;
        while x < width
            invariant
                x <= width,
                y < height,
                kernel.wf(),
                pattern.len() == width * height,
                any ==> {
                    &&& bx < width
                    &&& (by < y || (by == y && bx < x))
                    &&& !pattern[cell_index(bx as int, by as int, width as int)]
                    &&& best_value == cluster_value(
                        pattern@,
                        width as int,
                        height as int,
                        bx as int,
                        by as int,
                        *kernel,
                    )
                },
                forall|cx: int, cy: int|
                    0 <= cx < width && (0 <= cy < y || (cy == y && cx < x)) && !pattern[#[trigger] cell_index(
                        cx,
                        cy,
                        width as int,
                    )] ==> any && void_before(
                        pattern@,
                        width as int,
                        height as int,
                        *kernel,
                        bx as int,
                        by as int,
                        cx,
                        cy,
                    ),
            decreases width - x,
        {
            let index = cell_index_of(x, y, width, height);
            if !pattern[index] {
                let value = calculate_cluster_value(pattern, x, y, width, height, kernel);
                if !any || value < best_value {
                    any = true;
                    bx = x;
                    by = y;
                    best_value = value;
                }
            }
            x = x + 1;
        }
        y = y + 1;
    }
    if any {
        Some((bx, by))
    } else {
        None
    }
}

/// The tightest cluster of `pattern`, as `(x, y)`, or `None` where no cell is
/// set.
pub fn find_tightest_cluster(pattern: &Vec<bool>, width: usize, height: usize, kernel: &Kernel) -> (found: Option<
    (usize, usize),
>)
    requires
        kernel.wf(),
        pattern.len() == width * height,
    ensures
        found matches Some(cell) ==> is_tightest_cluster(
            pattern@,
            width as int,
            height as int,
            *kernel,
            cell.0 as int,
            cell.1 as int,
        ),
        found.is_none() ==> all_clear(pattern@, width as int, height as int),
{
    let mut any: bool = false;
    let mut bx: usize = 0;
    let mut by: usize = 0;
    let mut best_value: u64 = 0;
    let mut y: usize = 0;
    while y < height
        invariant
            y <= height,
            kernel.wf(),
            pattern.len() == width * height,
            any ==> {
                &&& bx < width
                &&& by < y
                &&& pattern[cell_index(bx as int, by as int, width as int)]
                &&& best_value == cluster_value(
                    pattern@,
                    width as int,
                    height as int,
                    bx as int,
                    by as int,
                    *kernel,
                )
            },
            forall|cx: int, cy: int|
                0 <= cx < width && 0 <= cy < y && pattern[#[trigger] cell_index(
                    cx,
                    cy,
                    width as int,
                )] ==> any && cluster_before(
                    pattern@,
                    width as int,
                    height as int,
                    *kernel,
                    bx as int,
                    by as int,
                    cx,
                    cy,
                ),
        decreases height - y,
    {
        let mut x: usize = 0;
        while x < width
            invariant
                x <= width,
                y < height,
                kernel.wf(),
                pattern.len() == width * height,
                any ==> {
                    &&& bx < width
                    &&& (by < y || (by == y && bx < x))
                    &&& pattern[cell_index(bx as int, by as int, width as int)]
                    &&& best_value == cluster_value(
                        pattern@,
                        width as int,
                        height as int,
                        bx as int,
                        by as int,
                        *kernel,
                    )
                },
                forall|cx: int, cy: int|
                    0 <= cx < width && (0 <= cy < y || (cy == y && cx < x)) && pattern[#[trigger] cell_index(
                        cx,
                        cy,
                        width as int,
                    )] ==> any && cluster_before(
                        pattern@,
                        width as int,
                        height as int,
                        *kernel,
                        bx as int,
                        by as int,
                        cx,
                        cy,
                    ),
            decreases width - x,
        {
            let index = cell_index_of(x, y, width, height);
            if pattern[index] {
                let value = calculate_cluster_value(pattern, x, y, width, height, kernel);
                if !any || value > best_value {
                    any = true;
                    bx = x;
                    by = y;
                    best_value = value;
                }
            }
            x = x + 1;
        }
        y = y + 1;
    }
    if any {
        Some((bx, by))
    } else {
        None
    }
}

/// The clear cell of `pattern` that has exactly `skip` clear cells before it
/// in row-major order, as `(x, y)`.
pub fn nth_clear_cell(pattern: &Vec<bool>, width: usize, height: usize, skip: usize) -> (cell: (
    usize,
    usize,
))
    requires
        pattern.len() == width * height,
        skip < width * height - ones_count(pattern@, width as int, height as int),
    ensures
        cell.0 < width,
        cell.1 < height,
        !pattern[cell_index(cell.0 as int, cell.1 as int, width as int)],
        clear_before(pattern@, width as int, cell.0 as int, cell.1 as int) == skip,
{
    let ghost set = indicator(pattern@, width as int);
    let mut seen: usize = 0;
    let mut y: usize = 0;
    while y < height
        invariant
            y <= height,
            pattern.len() == width * height,
            set == indicator(pattern@, width as int),
            seen == y * width - sum_rect(0, width as int, 0, y as int, set),
            seen <= skip,
        decreases height - y,
    {
        let mut x: usize = 0;
        while x < width
            invariant
                x <= width,
                y < height,
                pattern.len() == width * height,
                set == indicator(pattern@, width as int),
                seen == y * width + x - sum_rect(0, width as int, 0, y as int, set) - sum_range(
                    0,
                    x as int,
                    row_of(set, y as int),
                ),
                seen <= skip,
            decreases width - x,
        {
            let index = cell_index_of(x, y, width, height);
            assert(row_of(set, y as int)(x as int) == set(x as int, y as int));
            if !pattern[index] {
                if seen == skip {
                    return (x, y);
                }
                seen = seen + 1;
            }
            x = x + 1;
        }
        assert((y + 1) * width == y * width + width) by (nonlinear_arith);
        y = y + 1;
    }
    proof {
        assert(height * width == width * height) by (nonlinear_arith);
        assert(false);
    }
    (0, 0)
}

/// A `width` by `height` grid in which the given fraction of the cells,
/// rounded down, is set. The cells to set are drawn one after another from
/// `rng`, each uniformly from the cells that are still clear.
pub fn initialize_random_pattern(
    width: usize,
    height: usize,
    percent_ones: Ratio,
    rng: &mut RandomSource,
) -> (pattern: Vec<bool>)
    requires
        percent_ones.is_proper(),
        width * height <= usize::MAX,
    ensures
        pattern.len() == width * height,
        ones_count(pattern@, width as int, height as int) == percent_ones.floor_of(width * height),
{
    let total: usize = width * height;
    let num_ones: usize = percent_ones.scale_down(total);
    let mut pattern: Vec<bool> = filled(total, false);
    proof {
        assert forall|x: int, y: int| 0 <= x < width && 0 <= y < height implies pattern@[#[trigger] cell_index(
            x,
            y,
            width as int,
        )] == false by {
            lemma_cell_index_bounds(x, y, width as int, height as int);
        }
        crate::grid::lemma_ones_count_uniform(pattern@, width as int, height as int, false);
    }
    let mut ones_placed: usize = 0;
    while ones_placed < num_ones
        invariant
            ones_placed <= num_ones <= total,
            total == width * height,
            pattern.len() == total,
            ones_count(pattern@, width as int, height as int) == ones_placed,
        decreases num_ones - ones_placed,
    {
        let skip = rng.next_below(total - ones_placed);
        let (x, y) = nth_clear_cell(&pattern, width, height, skip);
        let index = cell_index_of(x, y, width, height);
        proof {
            lemma_ones_count_update(pattern@, width as int, height as int, x as int, y as int, true);
        }
        pattern.set(index, true);
        ones_placed = ones_placed + 1;
    }
    pattern
}

/// Some cell holds the rank `v`.
pub open spec fn rank_occurs(ranks: Seq<usize>, v: int) -> bool {
    exists|i: int| 0 <= i < ranks.len() && #[trigger] ranks[i] == v
}

/// The ranks take each value below their number exactly once.
pub open spec fn ranks_are_bijection(ranks: Seq<usize>) -> bool {
    &&& forall|i: int| 0 <= i < ranks.len() ==> #[trigger] ranks[i] < ranks.len()
    &&& forall|i: int, j: int|
        0 <= i < ranks.len() && 0 <= j < ranks.len() && i != j ==> #[trigger] ranks[i]
            != #[trigger] ranks[j]
    &&& forall|v: int| 0 <= v < ranks.len() ==> #[trigger] rank_occurs(ranks, v)
}

/// The cells ranked no higher than `cut`: what a sample at the level of
/// `cut` turns on.
pub open spec fn cut_pattern(ranks: Seq<usize>, cut: int) -> Seq<bool> {
    Seq::new(ranks.len(), |i: int| ranks[i] <= cut)
}

/// Every cell is the tightest cluster among the cells ranked no higher than
/// itself: the ranks are the order, from the top down, in which tightest
/// clusters leave a full grid.
pub open spec fn ranks_follow_removal(ranks: Seq<usize>, size: int, kernel: Kernel) -> bool {
    forall|x: int, y: int|
        0 <= x < size && 0 <= y < size ==> is_tightest_cluster(
            cut_pattern(ranks, ranks[#[trigger] cell_index(x, y, size)] as int),
            size,
            size,
            kernel,
            x,
            y,
        )
}

/// The cells that are still set, together with the cleared cells ranked no
/// higher than `cut`.
pub open spec fn removal_view(grid: Seq<bool>, ranks: Seq<usize>, cut: int) -> Seq<bool> {
    Seq::new(grid.len(), |i: int| grid[i] || ranks[i] <= cut)
}

/// A grid has at most one tightest cluster.
pub proof fn lemma_tightest_cluster_is_unique(
    grid: Seq<bool>,
    width: int,
    height: int,
    kernel: Kernel,
    x1: int,
    y1: int,
    x2: int,
    y2: int,
)
    requires
        is_tightest_cluster(grid, width, height, kernel, x1, y1),
        is_tightest_cluster(grid, width, height, kernel, x2, y2),
    ensures
        x1 == x2,
        y1 == y2,
{
    assert(grid[cell_index(x2, y2, width)]);
    assert(cluster_before(grid, width, height, kernel, x1, y1, x2, y2));
    assert(grid[cell_index(x1, y1, width)]);
    assert(cluster_before(grid, width, height, kernel, x2, y2, x1, y1));
}

/// Two rankings of one grid that both follow the removal order agree on
/// every cell ranked `least` or higher.
proof fn lemma_removal_orders_agree_from(
    a: Seq<usize>,
    b: Seq<usize>,
    size: int,
    kernel: Kernel,
    least: int,
)
    requires
        0 < size,
        a.len() == size * size,
        b.len() == size * size,
        ranks_are_bijection(a),
        ranks_are_bijection(b),
        ranks_follow_removal(a, size, kernel),
        ranks_follow_removal(b, size, kernel),
        0 <= least <= size * size,
    ensures
        forall|c: int|
            0 <= c < size * size ==> (#[trigger] a[c] >= least <==> b[c] >= least) && (a[c] >= least
                ==> a[c] == b[c]),
    decreases size * size - least,
{
    let n = size * size;
    if least < n {
        lemma_removal_orders_agree_from(a, b, size, kernel, least + 1);
        assert(rank_occurs(a, least));
        assert(rank_occurs(b, least));
        let ca = choose|i: int| 0 <= i < a.len() && #[trigger] a[i] == least;
        let cb = choose|i: int| 0 <= i < b.len() && #[trigger] b[i] == least;
        crate::grid::lemma_cell_of_index(ca, size, size);
        crate::grid::lemma_cell_of_index(cb, size, size);
        let cut = cut_pattern(a, least);
        assert(cut =~= cut_pattern(b, least)) by {
            assert forall|c: int| 0 <= c < n implies (a[c] <= least) == (b[c] <= least) by {
                assert(a[c] >= least + 1 <==> b[c] >= least + 1);
            }
        }
        assert(cell_index(ca % size, ca / size, size) == ca);
        assert(cell_index(cb % size, cb / size, size) == cb);
        assert(is_tightest_cluster(cut, size, size, kernel, ca % size, ca / size));
        assert(is_tightest_cluster(cut, size, size, kernel, cb % size, cb / size));
        lemma_tightest_cluster_is_unique(
            cut,
            size,
            size,
            kernel,
            ca % size,
            ca / size,
            cb % size,
            cb / size,
        );
        assert(ca == cb);
        assert forall|c: int| 0 <= c < n implies (#[trigger] a[c] >= least <==> b[c] >= least) && (
        a[c] >= least ==> a[c] == b[c]) by {
            assert(a[c] >= least + 1 <==> b[c] >= least + 1);
            if a[c] == least && c != ca {
                assert(a[c] != a[ca]);
            }
            if b[c] == least && c != cb {
                assert(b[c] != b[cb]);
            }
        }
    }
}

/// The removal order leaves no choice: two rankings of one grid that both
/// take each rank once and both follow the removal order are the same
/// ranking. The matrix depends on its size and the kernel alone.
pub proof fn lemma_removal_order_is_unique(a: Seq<usize>, b: Seq<usize>, size: int, kernel: Kernel)
    requires
        0 <= size,
        a.len() == size * size,
        b.len() == size * size,
        ranks_are_bijection(a),
        ranks_are_bijection(b),
        ranks_follow_removal(a, size, kernel),
        ranks_follow_removal(b, size, kernel),
    ensures
        a == b,
{
    if size > 0 {
        lemma_removal_orders_agree_from(a, b, size, kernel, 0);
    } else {
        assert(size * size == 0);
    }
    assert(a =~= b);
}

/// A square matrix that ranks its cells, with the cell of each rank at hand.
pub struct RankMatrix {
    pub size: usize,
    /// The rank of each cell, row-major.
    pub ranks: Vec<usize>,
    /// The position of the cell that holds each rank.
    pub cells: Vec<usize>,
}

impl RankMatrix {
    /// `ranks` and `cells` are inverse to each other on the positions of a
    /// `size` by `size` grid.
    pub open spec fn wf(&self) -> bool {
        &&& self.ranks.len() == self.size * self.size
        &&& self.cells.len() == self.size * self.size
        &&& forall|i: int|
            0 <= i < self.ranks.len() ==> #[trigger] self.ranks[i] < self.ranks.len()
                && self.cells[self.ranks[i] as int] == i
        &&& forall|v: int|
            0 <= v < self.cells.len() ==> #[trigger] self.cells[v] < self.cells.len()
                && self.ranks[self.cells[v] as int] == v
    }

    /// The ranks are the order in which tightest clusters, under the given
    /// kernel, leave a full grid.
    pub open spec fn follows_removal(&self, kernel: Kernel) -> bool {
        ranks_follow_removal(self.ranks@, self.size as int, kernel)
    }

    /// The ranks of a well-formed matrix take each value from 0 to
    /// `size * size - 1` exactly once.
    pub proof fn lemma_ranks_are_bijection(&self)
        requires
            self.wf(),
        ensures
            ranks_are_bijection(self.ranks@),
    {
        let ranks = self.ranks@;
        assert forall|v: int| 0 <= v < ranks.len() implies #[trigger] rank_occurs(ranks, v) by {
            let i = self.cells[v] as int;
            assert(ranks[i] == v);
        }
    }

    /// The rank under the pixel `(x, y)` of an image that the matrix is
    /// tiled over.
    pub open spec fn tiled_rank(&self, x: int, y: int) -> int {
        self.ranks[cell_index(x % (self.size as int), y % (self.size as int), self.size as int)] as int
    }

    /// The rank under the pixel `(x, y)` of an image that the matrix is
    /// tiled over.
    pub fn rank_at(&self, x: usize, y: usize) -> (rank: usize)
        requires
            self.wf(),
            self.size > 0,
        ensures
            rank == self.tiled_rank(x as int, y as int),
            rank < self.size * self.size,
    {
        let index = cell_index_of(x % self.size, y % self.size, self.size, self.size);
        self.ranks[index]
    }
}

/// Where a builder stands in its run.
#[derive(Clone, Copy, Debug)]
pub enum Phase {
    /// Largest voids are being filled.
    VoidFill,
    /// Tightest clusters are being removed and ranked.
    ClusterRemoval,
    /// Every cell holds its final rank.
    Done,
}

/// What one step of a builder did.
#[derive(Clone, Copy, Debug)]
pub enum StepOutcome {
    /// The largest void, at `(x, y)`, was set.
    Filled { x: usize, y: usize },
    /// The grid was full: removal begins.
    RemovalStarted,
    /// The tightest cluster, at `(x, y)`, was cleared and ranked.
    Removed { x: usize, y: usize },
    /// The grid was empty: the ranks are final.
    Finished,
    /// The builder was done already.
    Idle,
}

/// The state of a void-and-cluster run: the working grid, the ranks given so
/// far, the next rank to give and the phase.
pub struct VoidClusterBuilder {
    pub size: usize,
    pub grid: Vec<bool>,
    pub ranks: Vec<usize>,
    pub cells: Vec<usize>,
    pub ones: usize,
    pub rank: usize,
    pub phase: Phase,
}

impl VoidClusterBuilder {
    /// Number of cells of the grid.
    pub open spec fn cell_count(&self) -> int {
        self.size * self.size
    }

    /// The cells cleared so far hold the ranks from `least` up, each once,
    /// and `cells` finds the cell of each of those ranks.
    pub open spec fn cleared_are_ranked(&self, least: int) -> bool {
        &&& forall|v: int|
            least <= v < self.cell_count() ==> {
                &&& #[trigger] self.cells[v] < self.cell_count()
                &&& !self.grid[self.cells[v] as int]
                &&& self.ranks[self.cells[v] as int] == v
            }
        &&& forall|c: int|
            0 <= c < self.cell_count() && !self.grid[c] ==> {
                &&& least <= #[trigger] self.ranks[c] < self.cell_count()
                &&& self.cells[self.ranks[c] as int] == c
            }
    }

    /// The buffers fit the grid, `ones` counts the set cells, and the ranks
    /// given so far are what the phase says they are.
    pub open spec fn wf(&self) -> bool {
        &&& self.grid.len() == self.cell_count()
        &&& self.ranks.len() == self.cell_count()
        &&& self.cells.len() == self.cell_count()
        &&& self.ones == ones_count(self.grid@, self.size as int, self.size as int)
        &&& match self.phase {
            Phase::VoidFill => self.rank <= self.ones,
            Phase::ClusterRemoval => {
                &&& self.ones > 0 ==> self.rank == self.ones - 1
                &&& self.ones == 0 ==> self.rank == 0
                &&& self.cleared_are_ranked(self.ones as int)
            },
            Phase::Done => self.ones == 0 && self.cleared_are_ranked(0),
        }
    }

    /// Every cell cleared so far was, when it was cleared, the tightest
    /// cluster of the grid: of the cells that are still set together with
    /// the cleared cells ranked no higher than itself.
    pub open spec fn removals_are_tightest(&self, kernel: Kernel) -> bool {
        self.phase is VoidFill || forall|x: int, y: int|
            0 <= x < self.size && 0 <= y < self.size && !self.grid[#[trigger] cell_index(
                x,
                y,
                self.size as int,
            )] ==> is_tightest_cluster(
                removal_view(
                    self.grid@,
                    self.ranks@,
                    self.ranks[cell_index(x, y, self.size as int)] as int,
                ),
                self.size as int,
                self.size as int,
                kernel,
                x,
                y,
            )
    }

    /// Number of steps that the builder still has to take.
    pub open spec fn remaining_steps(&self) -> int {
        match self.phase {
            Phase::VoidFill => 2 * self.cell_count() - self.ones + 2,
            Phase::ClusterRemoval => self.ones + 1,
            Phase::Done => 0,
        }
    }

    /// A builder at the start of its run, on a `size` by `size` grid in
    /// which half of the cells, rounded down, are set at random.
    pub fn new(size: usize, rng: &mut RandomSource) -> (builder: VoidClusterBuilder)
        requires
            size * size <= usize::MAX,
        ensures
            builder.wf(),
            builder.size == size,
            builder.phase is VoidFill,
            builder.rank == 0,
            builder.ones == (size * size) / 2,
    {
        let half = Ratio { num: 1, den: 2 };
        let grid = initialize_random_pattern(size, size, half, rng);
        let total: usize = size * size;
        assert(half.floor_of(total as int) == total / 2) by {
            assert(total * 1 == total);
        }
        proof {
            lemma_ones_count_bounds(grid@, size as int, size as int);
        }
        VoidClusterBuilder {
            size,
            grid,
            ranks: filled(total, 0),
            cells: filled(total, 0),
            ones: total / 2,
            rank: 0,
            phase: Phase::VoidFill,
        }
    }

    /// Whether every cell holds its final rank.
    pub fn is_done(&self) -> (done: bool)
        ensures
            done == (self.phase is Done),
    {
        match self.phase {
            Phase::Done => true,
            _ => false,
        }
    }

    /// Takes one step of the run.
    ///
    /// While voids are filled, the largest void is set and given the next
    /// rank counting up; a full grid starts the removal at the top rank.
    /// While clusters are removed, the tightest cluster is cleared and given
    /// the next rank counting down; an empty grid ends the run.
    pub fn step(&mut self, kernel: &Kernel) -> (outcome: StepOutcome)
        requires
            old(self).wf(),
            old(self).removals_are_tightest(*kernel),
            kernel.wf(),
        ensures
            final(self).wf(),
            final(self).removals_are_tightest(*kernel),
            final(self).size == old(self).size,
            final(self).remaining_steps() == if old(self).phase is Done {
                0
            } else {
                old(self).remaining_steps() - 1
            },
            outcome is Filled <==> old(self).phase is VoidFill && old(self).ones < old(
                self,
            ).cell_count(),
            outcome is RemovalStarted <==> old(self).phase is VoidFill && old(self).ones == old(
                self,
            ).cell_count(),
            outcome is Removed <==> old(self).phase is ClusterRemoval && old(self).ones > 0,
            outcome is Finished <==> old(self).phase is ClusterRemoval && old(self).ones == 0,
            outcome is Idle <==> old(self).phase is Done,
            outcome matches StepOutcome::Filled { x, y } ==> {
                let index = cell_index(x as int, y as int, old(self).size as int);
                &&& is_largest_void(
                    old(self).grid@,
                    old(self).size as int,
                    old(self).size as int,
                    *kernel,
                    x as int,
                    y as int,
                )
                &&& final(self).grid@ == old(self).grid@.update(index, true)
                &&& final(self).ranks@ == old(self).ranks@.update(index, old(self).rank)
                &&& final(self).cells@ == old(self).cells@
                &&& final(self).rank == old(self).rank + 1
                &&& final(self).ones == old(self).ones + 1
                &&& final(self).phase is VoidFill
            },
            outcome is RemovalStarted ==> {
                &&& final(self).grid@ == old(self).grid@
                &&& final(self).ranks@ == old(self).ranks@
                &&& final(self).cells@ == old(self).cells@
                &&& final(self).ones == old(self).ones
                &&& final(self).rank == if old(self).cell_count() > 0 {
                    old(self).cell_count() - 1
                } else {
                    0
                }
                &&& final(self).phase is ClusterRemoval
            },
            outcome matches StepOutcome::Removed { x, y } ==> {
                let index = cell_index(x as int, y as int, old(self).size as int);
                &&& is_tightest_cluster(
                    old(self).grid@,
                    old(self).size as int,
                    old(self).size as int,
                    *kernel,
                    x as int,
                    y as int,
                )
                &&& final(self).grid@ == old(self).grid@.update(index, false)
                &&& final(self).ranks@ == old(self).ranks@.update(index, old(self).rank)
                &&& final(self).cells@ == old(self).cells@.update(old(self).rank as int, index as usize)
                &&& final(self).rank == if old(self).rank > 0 {
                    old(self).rank - 1
                } else {
                    0
                }
                &&& final(self).ones == old(self).ones - 1
                &&& final(self).phase is ClusterRemoval
            },
            outcome is Finished ==> {
                &&& final(self).grid@ == old(self).grid@
                &&& final(self).ranks@ == old(self).ranks@
                &&& final(self).cells@ == old(self).cells@
                &&& final(self).rank == old(self).rank
                &&& final(self).ones == old(self).ones
                &&& final(self).phase is Done
            },
            outcome is Idle ==> *final(self) == *old(self),
    {
        let size = self.size;
        let total: usize = size * size;
        proof {
            lemma_ones_count_bounds(self.grid@, size as int, size as int);
        }
        match self.phase {
            Phase::VoidFill => {
                if self.ones < total {
                    let found = find_largest_void(&self.grid, size, size, kernel);
                    proof {
                        if found.is_none() {
                            crate::grid::lemma_ones_count_uniform(
                                self.grid@,
                                size as int,
                                size as int,
                                true,
                            );
                        }
                    }
                    assert(found is Some);
                    match found {
                        Some((x, y)) => {
                            let index = cell_index_of(x, y, size, size);
                            proof {
                                lemma_ones_count_update(
                                    self.grid@,
                                    size as int,
                                    size as int,
                                    x as int,
                                    y as int,
                                    true,
                                );
                            }
                            self.ranks.set(index, self.rank);
                            self.grid.set(index, true);
                            self.ones = self.ones + 1;
                            self.rank = self.rank + 1;
                            StepOutcome::Filled { x, y }
                        },
                        None => StepOutcome::Idle,
                    }
                } else {
                    self.rank = if total > 0 {
                        total - 1
                    } else {
                        0
                    };
                    self.phase = Phase::ClusterRemoval;
                    proof {
                        lemma_ones_count_bounds(self.grid@, size as int, size as int);
                        assert forall|c: int| 0 <= c < total implies self.grid[c] by {
                            crate::grid::lemma_cell_of_index(c, size as int, size as int);
                            crate::grid::lemma_ones_count_full(
                                self.grid@,
                                size as int,
                                size as int,
                                c % (size as int),
                                c / (size as int),
                            );
                        }
                        assert forall|cx: int, cy: int|
                            0 <= cx < size && 0 <= cy < size implies self.grid[#[trigger] cell_index(
                            cx,
                            cy,
                            size as int,
                        )] by {
                            lemma_cell_index_bounds(cx, cy, size as int, size as int);
                        }
                    }
                    StepOutcome::RemovalStarted
                }
            },
            Phase::ClusterRemoval => {
                if self.ones > 0 {
                    let found = find_tightest_cluster(&self.grid, size, size, kernel);
                    proof {
                        if found.is_none() {
                            crate::grid::lemma_ones_count_uniform(
                                self.grid@,
                                size as int,
                                size as int,
                                false,
                            );
                        }
                    }
                    assert(found is Some);
                    match found {
                        Some((x, y)) => {
                            let index = cell_index_of(x, y, size, size);
                            let rank = self.rank;
                            proof {
                                lemma_ones_count_update(
                                    self.grid@,
                                    size as int,
                                    size as int,
                                    x as int,
                                    y as int,
                                    false,
                                );
                            }
                            self.ranks.set(index, rank);
                            self.cells.set(rank, index);
                            self.grid.set(index, false);
                            self.ones = self.ones - 1;
                            if self.rank > 0 {
                                self.rank = self.rank - 1;
                            }
                            proof {
                                let before = *old(self);
                                assert forall|cx: int, cy: int|
                                    0 <= cx < size && 0 <= cy < size && !self.grid[#[trigger] cell_index(
                                        cx,
                                        cy,
                                        size as int,
                                    )] implies is_tightest_cluster(
                                    removal_view(
                                        self.grid@,
                                        self.ranks@,
                                        self.ranks[cell_index(cx, cy, size as int)] as int,
                                    ),
                                    size as int,
                                    size as int,
                                    *kernel,
                                    cx,
                                    cy,
                                ) by {
                                    let c = cell_index(cx, cy, size as int);
                                    lemma_cell_index_bounds(cx, cy, size as int, size as int);
                                    let now = removal_view(
                                        self.grid@,
                                        self.ranks@,
                                        self.ranks[c] as int,
                                    );
                                    if c == index {
                                        lemma_cell_index_injective(
                                            cx,
                                            cy,
                                            x as int,
                                            y as int,
                                            size as int,
                                        );
                                        assert(now =~= before.grid@);
                                    } else {
                                        assert(!before.grid[c]);
                                        assert(now =~= removal_view(
                                            before.grid@,
                                            before.ranks@,
                                            before.ranks[c] as int,
                                        ));
                                    }
                                }
                            }
                            StepOutcome::Removed { x, y }
                        },
                        None => StepOutcome::Idle,
                    }
                } else {
                    self.phase = Phase::Done;
                    StepOutcome::Finished
                }
            },
            Phase::Done => StepOutcome::Idle,
        }
    }

    /// In a finished run every cell is cleared.
    pub proof fn lemma_finished_is_clear(&self)
        requires
            self.wf(),
            self.phase is Done,
        ensures
            forall|c: int| 0 <= c < self.cell_count() ==> !self.grid[c],
    {
        let size = self.size as int;
        assert forall|c: int| 0 <= c < self.cell_count() implies !self.grid[c] by {
            crate::grid::lemma_cell_of_index(c, size, size);
            crate::grid::lemma_ones_count_zero(self.grid@, size, size, c % size, c / size);
        }
    }

    /// The ranks of a finished run are the order in which tightest clusters
    /// left the full grid.
    pub proof fn lemma_finished_follows_removal(&self, kernel: Kernel)
        requires
            self.wf(),
            self.removals_are_tightest(kernel),
            self.phase is Done,
        ensures
            ranks_follow_removal(self.ranks@, self.size as int, kernel),
    {
        let size = self.size as int;
        self.lemma_finished_is_clear();
        assert forall|x: int, y: int| 0 <= x < size && 0 <= y < size implies is_tightest_cluster(
            cut_pattern(self.ranks@, self.ranks[#[trigger] cell_index(x, y, size)] as int),
            size,
            size,
            kernel,
            x,
            y,
        ) by {
            let c = cell_index(x, y, size);
            lemma_cell_index_bounds(x, y, size, size);
            assert(cut_pattern(self.ranks@, self.ranks[c] as int) =~= removal_view(
                self.grid@,
                self.ranks@,
                self.ranks[c] as int,
            ));
        }
    }

    /// The rank matrix of a finished run.
    pub fn into_matrix(self) -> (matrix: RankMatrix)
        requires
            self.wf(),
            self.phase is Done,
        ensures
            matrix.wf(),
            matrix.size == self.size,
            matrix.ranks@ == self.ranks@,
            matrix.cells@ == self.cells@,
    {
        proof {
            self.lemma_finished_is_clear();
        }
        RankMatrix { size: self.size, ranks: self.ranks, cells: self.cells }
    }
}

/// Builds the rank matrix of a `matrix_size` by `matrix_size` tile with the
/// given neighbourhood weights. A size of zero gives the empty matrix.
pub fn generate_void_and_cluster_matrix(
    matrix_size: usize,
    kernel: &Kernel,
    rng: &mut RandomSource,
) -> (matrix: RankMatrix)
    requires
        kernel.wf(),
        matrix_size * matrix_size <= usize::MAX,
    ensures
        matrix.size == matrix_size,
        matrix.wf(),
        ranks_are_bijection(matrix.ranks@),
        matrix.follows_removal(*kernel),
{
    let mut builder = VoidClusterBuilder::new(matrix_size, rng);
    while !builder.is_done()
        invariant
            builder.wf(),
            builder.removals_are_tightest(*kernel),
            builder.size == matrix_size,
            kernel.wf(),
            builder.remaining_steps() >= 0,
        decreases builder.remaining_steps(),
    {
        builder.step(kernel);
    }
    proof {
        builder.lemma_finished_follows_removal(*kernel);
    }
    let matrix = builder.into_matrix();
    proof {
        matrix.lemma_ranks_are_bijection();
    }
    matrix
}

/// Side of the rank matrix that `void_and_cluster_dither` tiles over an
/// image.
pub const DITHER_MATRIX_SIZE: usize = 32;

/// Whether a sample stays on under a cell of the given rank in a matrix of
/// `cell_count` cells: the sample, as a fraction of 255, is at least the
/// rank as a fraction of the top rank.
pub open spec fn passes_rank(sample: u8, rank: int, cell_count: int) -> bool {
    sample * (cell_count - 1) >= rank * 255
}

/// `pattern` is the image `input` thresholded against the matrix tiled over
/// it.
pub open spec fn is_thresholded(
    pattern: Seq<bool>,
    input: Seq<u8>,
    width: int,
    height: int,
    matrix: RankMatrix,
) -> bool {
    &&& pattern.len() == width * height
    &&& forall|x: int, y: int|
        0 <= x < width && 0 <= y < height ==> pattern[#[trigger] cell_index(x, y, width)]
            == passes_rank(
            input[cell_index(x, y, width)],
            matrix.tiled_rank(x, y),
            matrix.size * matrix.size,
        )
}

/// `output` renders the image `input` thresholded against the matrix.
pub open spec fn renders_thresholded(
    output: Seq<u8>,
    input: Seq<u8>,
    width: int,
    height: int,
    matrix: RankMatrix,
) -> bool {
    exists|pattern: Seq<bool>| #[trigger]
        is_thresholded(pattern, input, width, height, matrix) && crate::raster::is_rgba_of(
            output,
            pattern,
        )
}

/// Whether a sample stays on under a cell of the given rank in a matrix of
/// `cell_count` cells.
pub fn sample_passes_rank(sample: u8, rank: usize, cell_count: usize) -> (on: bool)
    requires
        rank < cell_count,
    ensures
        on == passes_rank(sample, rank as int, cell_count as int),
{
    let top: u128 = (cell_count - 1) as u128;
    assert(sample * top <= 255 * 0xffff_ffff_ffff_ffff) by (nonlinear_arith)
        requires
            0 <= sample <= 255,
            0 <= top <= 0xffff_ffff_ffff_ffff,
    ;
    (sample as u128) * top >= (rank as u128) * 255
}

/// Thresholds the `width` by `height` image `input` against the matrix
/// tiled over it.
pub fn threshold_with_matrix(input: &[u8], width: usize, height: usize, matrix: &RankMatrix) -> (pattern:
    Vec<bool>)
    requires
        matrix.wf(),
        matrix.size > 0,
        input.len() == width * height,
    ensures
        is_thresholded(pattern@, input@, width as int, height as int, *matrix),
{
    let mut pattern: Vec<bool> = Vec::new();
    let cell_count: usize = matrix.size * matrix.size;
    let mut y: usize = 0;
    while y < height
        invariant
            y <= height,
            matrix.wf(),
            matrix.size > 0,
            cell_count == matrix.size * matrix.size,
            input.len() == width * height,
            pattern.len() == y * width,
            forall|cx: int, cy: int|
                0 <= cx < width && 0 <= cy < y ==> pattern[#[trigger] cell_index(cx, cy, width as int)]
                    == passes_rank(
                    input[cell_index(cx, cy, width as int)],
                    matrix.tiled_rank(cx, cy),
                    cell_count as int,
                ),
        decreases height - y,
    {
        let mut x: usize = 0;
        while x < width
            invariant
                x <= width,
                y < height,
                matrix.wf(),
                matrix.size > 0,
                cell_count == matrix.size * matrix.size,
                input.len() == width * height,
                pattern.len() == y * width + x,
                forall|cx: int, cy: int|
                    0 <= cx < width && (0 <= cy < y || (cy == y && cx < x)) ==> pattern[#[trigger] cell_index(
                        cx,
                        cy,
                        width as int,
                    )] == passes_rank(
                        input[cell_index(cx, cy, width as int)],
                        matrix.tiled_rank(cx, cy),
                        cell_count as int,
                    ),
            decreases width - x,
        {
            let index = cell_index_of(x, y, width, height);
            let rank = matrix.rank_at(x, y);
            let on = sample_passes_rank(input[index], rank, cell_count);
            proof {
                assert forall|cx: int, cy: int|
                    0 <= cx < width && (0 <= cy < y || (cy == y && cx < x)) implies cell_index(
                    cx,
                    cy,
                    width as int,
                ) < index by {
                    if cy < y {
                        assert(cy * width + width <= y * width) by (nonlinear_arith)
                            requires
                                cy + 1 <= y,
                                0 <= width,
                        ;
                    }
                }
            }
            pattern.push(on);
            x = x + 1;
        }
        assert((y + 1) * width == y * width + width) by (nonlinear_arith);
        y = y + 1;
    }
    proof {
        assert(height * width == width * height) by (nonlinear_arith);
    }
    pattern
}

/// `output` is what dithering the image against a freshly built matrix of
/// `matrix_size` cells a side gives: the image thresholded against the
/// matrix of that size whose ranks follow the removal order under the
/// kernel, rendered four bytes a pixel; and black throughout where the
/// matrix has no cells.
pub open spec fn is_matrix_dither(
    output: Seq<u8>,
    input: Seq<u8>,
    width: int,
    height: int,
    matrix_size: int,
    kernel: Kernel,
) -> bool {
    if matrix_size == 0 {
        crate::raster::is_rgba_of(output, Seq::new((width * height) as nat, |i: int| false))
    } else {
        exists|matrix: RankMatrix|
            {
                &&& matrix.wf()
                &&& matrix.follows_removal(kernel)
                &&& matrix.size == matrix_size
                &&& #[trigger] renders_thresholded(output, input, width, height, matrix)
            }
    }
}

/// Dithers the `width` by `height` image `input` against a freshly built
/// void-and-cluster matrix of `matrix_size` cells a side, and renders the
/// result as four bytes a pixel. A matrix without cells leaves the picture
/// black.
pub fn void_and_cluster_dither_sized(
    input: &[u8],
    width: usize,
    height: usize,
    matrix_size: usize,
    kernel: &Kernel,
    rng: &mut RandomSource,
) -> (output: Vec<u8>)
    requires
        kernel.wf(),
        input.len() == width * height,
        4 * (width * height) <= usize::MAX,
        matrix_size * matrix_size <= usize::MAX,
    ensures
        is_matrix_dither(
            output@,
            input@,
            width as int,
            height as int,
            matrix_size as int,
            *kernel,
        ),
{
    if matrix_size == 0 {
        let blank: Vec<bool> = filled(input.len(), false);
        assert(blank@ =~= Seq::new((width * height) as nat, |i: int| false));
        return crate::raster::render_rgba(&blank);
    }
    let matrix = generate_void_and_cluster_matrix(matrix_size, kernel, rng);
    let pattern = threshold_with_matrix(input, width, height, &matrix);
    let output = crate::raster::render_rgba(&pattern);
    proof {
        assert(is_thresholded(pattern@, input@, width as int, height as int, matrix)
            && crate::raster::is_rgba_of(output@, pattern@));
        assert(renders_thresholded(output@, input@, width as int, height as int, matrix));
    }
    output
}

/// Dithers the `width` by `height` image `input` against a freshly built
/// void-and-cluster matrix of `DITHER_MATRIX_SIZE` cells a side, and renders
/// the result as four bytes a pixel. The thresholds come from the matrix
/// alone: `_threshold` is not consulted.
pub fn void_and_cluster_dither(
    input: &[u8],
    width: usize,
    height: usize,
    _threshold: u8,
    kernel: &Kernel,
    rng: &mut RandomSource,
) -> (output: Vec<u8>)
    requires
        kernel.wf(),
        input.len() == width * height,
        4 * (width * height) <= usize::MAX,
    ensures
        is_matrix_dither(
            output@,
            input@,
            width as int,
            height as int,
            DITHER_MATRIX_SIZE as int,
            *kernel,
        ),
{
    void_and_cluster_dither_sized(input, width, height, DITHER_MATRIX_SIZE, kernel, rng)
}

/// The rank `rank` of a matrix whose top rank is `top`, as a fixed-point
/// fraction of the top rank: `rank / top` in units of one over `scale`,
/// rounded down. A matrix of a single cell has no top rank to divide by, and
/// its entry is zero.
pub open spec fn entry_of_rank(rank: int, top: int, scale: int) -> int {
    if top == 0 {
        0
    } else {
        (rank * scale) / top
    }
}

/// The rank that a fixed-point entry stands for: the entry times the top
/// rank, in units of one over `scale`, rounded up.
pub open spec fn rank_of_entry(entry: int, top: int, scale: int) -> int {
    (entry * top + scale - 1) / scale
}

/// A rank survives the way to a fixed-point entry and back, provided that
/// the scale exceeds the top rank; so no two ranks share an entry.
pub proof fn lemma_entry_round_trip(rank: int, top: int, scale: int)
    requires
        0 <= rank <= top,
        top < scale,
    ensures
        0 <= entry_of_rank(rank, top, scale) <= scale,
        rank_of_entry(entry_of_rank(rank, top, scale), top, scale) == rank,
{
    if top == 0 {
        vstd::arithmetic::div_mod::lemma_fundamental_div_mod_converse(scale - 1, scale, 0, scale - 1);
        assert(0 * top == 0);
    } else {
        let product = rank * scale;
        let q = product / top;
        vstd::arithmetic::div_mod::lemma_fundamental_div_mod(product, top);
        vstd::arithmetic::div_mod::lemma_mod_bound(product, top);
        assert(0 <= product <= top * scale) by (nonlinear_arith)
            requires
                product == rank * scale,
                0 <= rank <= top,
                0 < scale,
        ;
        assert(0 <= q <= scale) by (nonlinear_arith)
            requires
                product == top * q + product % top,
                0 <= product % top < top,
                0 <= product <= top * scale,
        ;
        let back = q * top + scale - 1;
        let rest = back - rank * scale;
        assert(0 <= rest < scale) by (nonlinear_arith)
            requires
                rest == q * top + scale - 1 - rank * scale,
                rank * scale == top * q + product % top,
                0 <= product % top < top,
                top < scale,
        ;
        assert(back == rank * scale + rest);
        vstd::arithmetic::div_mod::lemma_fundamental_div_mod_converse(back, scale, rank, rest);
    }
}

/// Two ranks with the same fixed-point entry are the same rank.
pub proof fn lemma_entries_do_not_collide(a: int, b: int, top: int, scale: int)
    requires
        0 <= a <= top,
        0 <= b <= top,
        top < scale,
        entry_of_rank(a, top, scale) == entry_of_rank(b, top, scale),
    ensures
        a == b,
{
    lemma_entry_round_trip(a, top, scale);
    lemma_entry_round_trip(b, top, scale);
}

/// The rank `rank` as a fixed-point fraction of the top rank `top`.
pub fn normalized_entry(rank: usize, top: usize, scale: u64) -> (entry: u64)
    requires
        rank <= top,
        top < scale,
    ensures
        entry == entry_of_rank(rank as int, top as int, scale as int),
{
    if top == 0 {
        return 0;
    }
    proof {
        lemma_entry_round_trip(rank as int, top as int, scale as int);
        assert(rank * scale <= 0xffff_ffff_ffff_ffff * 0xffff_ffff_ffff_ffff) by (nonlinear_arith)
            requires
                0 <= rank <= 0xffff_ffff_ffff_ffff,
                0 <= scale <= 0xffff_ffff_ffff_ffff,
        ;
    }
    let product: u128 = (rank as u128) * (scale as u128);
    (product / (top as u128)) as u64
}

/// The rank that a fixed-point entry stands for.
pub fn rank_from_entry(entry: u64, top: usize, scale: u64) -> (rank: u128)
    requires
        scale > 0,
    ensures
        rank == rank_of_entry(entry as int, top as int, scale as int),
{
    proof {
        assert(entry * top <= 0xffff_ffff_ffff_ffff * 0xffff_ffff_ffff_ffff) by (nonlinear_arith)
            requires
                0 <= entry <= 0xffff_ffff_ffff_ffff,
                0 <= top <= 0xffff_ffff_ffff_ffff,
        ;
    }
    let product: u128 = (entry as u128) * (top as u128);
    (product + (scale as u128) - 1) / (scale as u128)
}

impl RankMatrix {
    /// The matrix as fixed-point fractions of its top rank, row-major, in
    /// units of one over `scale`.
    pub fn normalized(&self, scale: u64) -> (entries: Vec<u64>)
        requires
            self.wf(),
            self.size * self.size <= scale,
        ensures
            entries.len() == self.ranks.len(),
            forall|i: int|
                0 <= i < entries.len() ==> #[trigger] entries[i] == entry_of_rank(
                    self.ranks[i] as int,
                    self.size * self.size - 1,
                    scale as int,
                ),
            forall|i: int|
                0 <= i < entries.len() ==> rank_of_entry(
                    #[trigger] entries[i] as int,
                    self.size * self.size - 1,
                    scale as int,
                ) == self.ranks[i],
    {
        let mut entries: Vec<u64> = Vec::new();
        let count = self.ranks.len();
        if count == 0 {
            return entries;
        }
        let top: usize = count - 1;
        let mut i: usize = 0;
        while i < count
            invariant
                i <= count,
                self.wf(),
                count == self.ranks.len(),
                count == self.size * self.size,
                top == count - 1,
                top < scale,
                entries.len() == i,
                forall|k: int|
                    0 <= k < i ==> #[trigger] entries[k] == entry_of_rank(
                        self.ranks[k] as int,
                        top as int,
                        scale as int,
                    ),
                forall|k: int|
                    0 <= k < i ==> rank_of_entry(#[trigger] entries[k] as int, top as int, scale as int)
                        == self.ranks[k],
            decreases count - i,
        {
            let rank = self.ranks[i];
            assert(self.ranks[i as int] < self.ranks.len());
            proof {
                lemma_entry_round_trip(rank as int, top as int, scale as int);
            }
            entries.push(normalized_entry(rank, top, scale));
            i = i + 1;
        }
        entries
    }
}

} // verus!
