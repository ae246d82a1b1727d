//! Square fixed-point weight windows.
//!
//! A kernel holds one non-negative integer weight per tap of an odd-sized
//! square window. The weight of a tap, as a fraction, is its integer weight
//! over the kernel's total, so the fractions of a kernel whose total is not
//! zero sum to one by construction.

use crate::grid::cell_index;
use crate::grid::cell_index_of;
use crate::grid::lemma_cell_index_bounds;
use crate::sums::lemma_sum_rect_bounds;
use crate::sums::lemma_sum_rect_le;
use crate::sums::lemma_sum_rect_single;
use crate::sums::lemma_sum_rect_split_rows;
use crate::sums::row_of;
use crate::sums::sum_range;
use crate::sums::sum_rect;
use vstd::prelude::*;

verus! {

/// The largest total that the weights of a kernel may reach: `2^20`. With
/// it, the squared errors of an image of any size that fits in memory sum
/// to less than `2^120`.
pub const MAX_KERNEL_TOTAL: u64 = 1_048_576;

/// Side of the window that stands for the human visual system where none
/// is asked for.
pub const DEFAULT_HVS_FILTER_SIZE: usize = 7;

/// Radius of the neighbourhood that a cluster value weighs where none is
/// asked for.
pub const DEFAULT_CLUSTER_RADIUS: usize = 2;

/// The weight of the tap `(fx, fy)` of a window of the given side, read from
/// the row-major buffer of the window's weights.
pub open spec fn tap_weights(weights: Seq<u32>, side: int) -> spec_fn(int, int) -> int {
    |fx: int, fy: int| weights[cell_index(fx, fy, side)] as int
}

/// The sum of the weights of a window of the given side.
pub open spec fn weights_total(weights: Seq<u32>, side: int) -> int {
    sum_rect(0, side, 0, side, tap_weights(weights, side))
}

/// A square window of weights, `2 * radius + 1` taps on a side.
pub struct Kernel {
    pub radius: usize,
    pub weights: Vec<u32>,
    pub total: u64,
}

impl Kernel {
    /// Number of taps on a side.
    pub open spec fn side(&self) -> int {
        2 * self.radius + 1
    }

    /// The weight of the tap `(fx, fy)`, counted from the window's corner.
    pub open spec fn weight(&self, fx: int, fy: int) -> int {
        self.weights@[cell_index(fx, fy, self.side())] as int
    }

    /// The weight of the tap at the offset `(dx, dy)` from the centre, and
    /// zero outside the window.
    pub open spec fn weight_at_offset(&self, dx: int, dy: int) -> int {
        if -self.radius <= dx <= self.radius && -self.radius <= dy <= self.radius {
            self.weight(dx + self.radius, dy + self.radius)
        } else {
            0
        }
    }

    /// What the fractions of the kernel are taken over: the total of the
    /// weights, or 1 for a kernel of zeros, whose weights are left as they
    /// are.
    pub open spec fn scale(&self) -> int {
        if self.total == 0 {
            1
        } else {
            self.total as int
        }
    }

    /// The buffer holds one weight for each tap, `total` is their sum, and
    /// the sum is within the limit.
    pub open spec fn wf(&self) -> bool {
        &&& self.side() * self.side() == self.weights.len()
        &&& self.total == weights_total(self.weights@, self.side())
        &&& self.total <= MAX_KERNEL_TOTAL
    }

    /// Every weight of a well-formed kernel is at most the total.
    pub proof fn lemma_weight_bounds(&self, fx: int, fy: int)
        requires
            self.wf(),
            0 <= fx < self.side(),
            0 <= fy < self.side(),
        ensures
            0 <= self.weight(fx, fy) <= self.total,
            self.total <= self.scale() <= MAX_KERNEL_TOTAL,
            1 <= self.scale(),
    {
        let side = self.side();
        let f = tap_weights(self.weights@, side);
        let g = |x: int, y: int|
            if x == fx && y == fy {
                f(fx, fy)
            } else {
                0int
            };
        lemma_sum_rect_le(0, side, 0, side, g, f);
        lemma_sum_rect_single(0, side, 0, side, fx, fy, g);
    }

    /// Builds a kernel of the given side from the row-major buffer of its
    /// weights. The side must be odd, the buffer must hold `side * side`
    /// weights, and their sum must stay within `MAX_KERNEL_TOTAL`.
    pub fn new(side: usize, weights: Vec<u32>) -> (kernel: Option<Kernel>)
        ensures
            kernel.is_some() <==> {
                &&& side % 2 == 1
                &&& side * side == weights.len()
                &&& weights_total(weights@, side as int) <= MAX_KERNEL_TOTAL
            },
            kernel matches Some(k) ==> {
                &&& k.wf()
                &&& k.side() == side
                &&& k.weights@ == weights@
            },
    {
        if side % 2 != 1 {
            return None;
        }
        let len = weights.len();
        if len / side != side || len % side != 0 {
            proof {
                if side * side == len {
                    vstd::arithmetic::div_mod::lemma_fundamental_div_mod_converse(
                        len as int,
                        side as int,
                        side as int,
                        0,
                    );
                }
            }
            return None;
        }
        proof {
            vstd::arithmetic::div_mod::lemma_fundamental_div_mod(len as int, side as int);
            assert(side * side == len) by (nonlinear_arith)
                requires
                    len == side * (len / side) + len % side,
                    len / side == side,
                    len % side == 0,
            ;
        }
        let ghost f = tap_weights(weights@, side as int);
        let mut total: u64 = 0;
        let mut fy: usize = 0;
        while fy < side
            invariant
                fy <= side,
                side * side == weights.len(),
                f == tap_weights(weights@, side as int),
                total == sum_rect(0, side as int, 0, fy as int, f),
                total <= MAX_KERNEL_TOTAL,
            decreases side - fy,
        {
            let mut fx: usize = 0;
            let mut row: u64 = 0;
            while fx < side
                invariant
                    fx <= side,
                    fy < side,
                    side * side == weights.len(),
                    f == tap_weights(weights@, side as int),
                    total == sum_rect(0, side as int, 0, fy as int, f),
                    row == sum_range(0, fx as int, row_of(f, fy as int)),
                    total + row <= MAX_KERNEL_TOTAL,
                decreases side - fx,
            {
                let index = cell_index_of(fx, fy, side, side);
                let weight = weights[index] as u64;
                if weight > MAX_KERNEL_TOTAL - total - row {
                    proof {
                        let part = sum_rect(0, side as int, 0, fy as int + 1, f);
                        assert(row_of(f, fy as int)(fx as int) == weight);
                        crate::sums::lemma_sum_range_split(
                            0,
                            fx as int + 1,
                            side as int,
                            row_of(f, fy as int),
                        );
                        assert forall|i: int| fx < i < side implies 0 <= #[trigger] row_of(
                            f,
                            fy as int,
                        )(i) <= u32::MAX by {
                            lemma_cell_index_bounds(i, fy as int, side as int, side as int);
                        }
                        crate::sums::lemma_sum_range_bounds(
                            fx as int + 1,
                            side as int,
                            row_of(f, fy as int),
                            0,
                            u32::MAX as int,
                        );
                        assert((side - (fx + 1)) * 0 == 0) by (nonlinear_arith);
                        assert(part > MAX_KERNEL_TOTAL);
                        lemma_sum_rect_split_rows(
                            0,
                            side as int,
                            0,
                            fy as int + 1,
                            side as int,
                            f,
                        );
                        assert forall|x: int, y: int|
                            0 <= x < side && fy + 1 <= y < side implies 0 <= #[trigger] f(x, y)
                            <= u32::MAX by {
                            lemma_cell_index_bounds(x, y, side as int, side as int);
                        }
                        lemma_sum_rect_bounds(
                            0,
                            side as int,
                            fy as int + 1,
                            side as int,
                            f,
                            0,
                            u32::MAX as int,
                        );
                        assert((side - (fy + 1)) * ((side - 0) * 0) == 0) by (nonlinear_arith);
                    }
                    return None;
                }
                row = row + weight;
                fx = fx + 1;
            }
            total = total + row;
            fy = fy + 1;
        }
        Some(Kernel { radius: side / 2, weights, total })
    }

    /// Number of taps on a side.
    pub fn side_len(&self) -> (side: usize)
        requires
            self.wf(),
        ensures
            side == self.side(),
    {
        proof {
            assert(self.side() <= self.side() * self.side()) by (nonlinear_arith)
                requires
                    1 <= self.side(),
            ;
        }
        2 * self.radius + 1
    }

    /// The weight of the tap `(fx, fy)`, counted from the window's corner.
    pub fn weight_of(&self, fx: usize, fy: usize) -> (weight: u32)
        requires
            self.wf(),
            fx < self.side(),
            fy < self.side(),
        ensures
            weight == self.weight(fx as int, fy as int),
            weight <= self.total,
    {
        let side = self.side_len();
        proof {
            self.lemma_weight_bounds(fx as int, fy as int);
        }
        let index = cell_index_of(fx, fy, side, side);
        self.weights[index]
    }
}

/// The make of a Gaussian window: its size and the spread of the bell, given
/// as a fraction of the radius.
#[derive(Clone, Copy, Debug)]
pub struct GaussianShape {
    /// Number of taps on a side.
    pub side: usize,
    /// Number of taps between the centre and an edge.
    pub radius: usize,
    /// Sigma is `radius * sigma_num / sigma_den`.
    pub sigma_num: u8,
    pub sigma_den: u8,
}

/// The largest radius for which the exponents of a shape are computed.
pub const MAX_SHAPE_RADIUS: usize = 0x7fff_ffff;

impl GaussianShape {
    /// The side is twice the radius plus one, and sigma is a positive
    /// fraction of the radius.
    pub open spec fn wf(&self) -> bool {
        &&& self.side == 2 * self.radius + 1
        &&& self.sigma_num > 0
        &&& self.sigma_den > 0
    }

    /// Squared distance of the tap `(fx, fy)` from the centre.
    pub open spec fn tap_distance_squared(&self, fx: int, fy: int) -> int {
        (fx - self.radius) * (fx - self.radius) + (fy - self.radius) * (fy - self.radius)
    }

    /// Numerator of the exponent of the tap `(fx, fy)`. The weight of the
    /// tap is `exp(-d / (2 * sigma^2))`, where `d` is its squared distance
    /// from the centre; with sigma as a fraction of the radius, the
    /// exponent is `d * sigma_den^2` over `2 * radius^2 * sigma_num^2`.
    pub open spec fn exponent_num(&self, fx: int, fy: int) -> int {
        self.tap_distance_squared(fx, fy) * (self.sigma_den * self.sigma_den)
    }

    /// Denominator of the exponent of every tap. A window of a single tap
    /// has no spread to divide by: its denominator is 1, so that its tap,
    /// at distance zero, has the exponent 0 and the weight 1.
    pub open spec fn exponent_den(&self) -> int {
        if self.radius == 0 {
            1
        } else {
            2 * (self.radius * self.radius) * (self.sigma_num * self.sigma_num)
        }
    }

    /// The denominator of the exponent is never zero.
    pub proof fn lemma_exponent_den_positive(&self)
        requires
            self.wf(),
        ensures
            self.exponent_den() > 0,
    {
        let r = self.radius as int;
        let n = self.sigma_num as int;
        if r > 0 {
            assert(2 * (r * r) * (n * n) > 0) by (nonlinear_arith)
                requires
                    r > 0,
                    n > 0,
            ;
        }
    }

    /// The exponent of the tap `(fx, fy)` as numerator and denominator.
    /// The denominator is positive.
    pub fn exponent(&self, fx: usize, fy: usize) -> (e: (u128, u128))
        requires
            self.wf(),
            self.radius <= MAX_SHAPE_RADIUS,
            fx < self.side,
            fy < self.side,
        ensures
            e.0 == self.exponent_num(fx as int, fy as int),
            e.1 == self.exponent_den(),
            e.1 > 0,
    {
        proof {
            self.lemma_exponent_den_positive();
        }
        let radius = self.radius as u128;
        let dx: u128 = if fx >= self.radius {
            (fx - self.radius) as u128
        } else {
            (self.radius - fx) as u128
        };
        let dy: u128 = if fy >= self.radius {
            (fy - self.radius) as u128
        } else {
            (self.radius - fy) as u128
        };
        let den = self.sigma_den as u128;
        let num = self.sigma_num as u128;
        proof {
            assert(dx * dx == (fx - self.radius) * (fx - self.radius) && dx * dx <= 0x7fff_ffff
                * 0x7fff_ffff) by (nonlinear_arith)
                requires
                    dx == fx - self.radius || dx == self.radius - fx,
                    0 <= dx <= 0x7fff_ffff,
            ;
            assert(dy * dy == (fy - self.radius) * (fy - self.radius) && dy * dy <= 0x7fff_ffff
                * 0x7fff_ffff) by (nonlinear_arith)
                requires
                    dy == fy - self.radius || dy == self.radius - fy,
                    0 <= dy <= 0x7fff_ffff,
            ;
            assert(radius * radius <= 0x7fff_ffff * 0x7fff_ffff) by (nonlinear_arith)
                requires
                    0 <= radius <= 0x7fff_ffff,
            ;
            assert(den * den <= 255 * 255 && num * num <= 255 * 255) by (nonlinear_arith)
                requires
                    0 <= den <= 255,
                    0 <= num <= 255,
            ;
            let d = dx * dx + dy * dy;
            let dd = den * den;
            let rr = radius * radius;
            let nn = num * num;
            assert(d * dd <= (2 * (0x7fff_ffff * 0x7fff_ffff)) * (255 * 255)) by (nonlinear_arith)
                requires
                    0 <= d <= 2 * (0x7fff_ffff * 0x7fff_ffff),
                    0 <= dd <= 255 * 255,
            ;
            assert((2 * rr) * nn <= (2 * (0x7fff_ffff * 0x7fff_ffff)) * (255 * 255))
                by (nonlinear_arith)
                requires
                    0 <= rr <= 0x7fff_ffff * 0x7fff_ffff,
                    0 <= nn <= 255 * 255,
            ;
        }
        let spread: u128 = if self.radius == 0 {
            1
        } else {
            (2 * (radius * radius)) * (num * num)
        };
        ((dx * dx + dy * dy) * (den * den), spread)
    }
}

/// The make of the window that stands for the human visual system. An odd
/// size is taken as it is, with a sigma of the radius over 2.5; a size of
/// zero or an even size falls back on a window of 3 by 3 with a sigma of
/// half the radius. A size of 1 gives the window of a single tap, whose
/// weight is 1.
pub fn hvs_filter_shape(size: usize) -> (shape: GaussianShape)
    ensures
        shape.wf(),
        size % 2 == 1 ==> {
            &&& shape.side == size
            &&& shape.radius == size / 2
            &&& shape.sigma_num == 2
            &&& shape.sigma_den == 5
        },
        size % 2 == 0 ==> {
            &&& shape.side == 3
            &&& shape.radius == 1
            &&& shape.sigma_num == 1
            &&& shape.sigma_den == 2
        },
{
    if size == 0 || size % 2 == 0 {
        GaussianShape { side: 3, radius: 1, sigma_num: 1, sigma_den: 2 }
    } else {
        GaussianShape { side: size, radius: size / 2, sigma_num: 2, sigma_den: 5 }
    }
}

/// The make of the window that weighs the neighbours of a cell in a cluster
/// value: `2 * radius + 1` taps on a side, with a sigma of the radius.
pub fn cluster_weights_shape(radius: usize) -> (shape: GaussianShape)
    requires
        2 * radius + 1 <= usize::MAX,
    ensures
        shape.wf(),
        shape.side == 2 * radius + 1,
        shape.radius == radius,
        shape.sigma_num == 1,
        shape.sigma_den == 1,
{
    GaussianShape { side: 2 * radius + 1, radius, sigma_num: 1, sigma_den: 1 }
}

} // verus!
