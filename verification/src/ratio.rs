//! Fractions of whole numbers, for densities and relative thresholds.

use vstd::prelude::*;

verus! {

/// The fraction `num / den`.
#[derive(Clone, Copy, Debug)]
pub struct Ratio {
    pub num: u64,
    pub den: u64,
}

impl Ratio {
    /// The denominator is not zero.
    pub open spec fn wf(&self) -> bool {
        self.den > 0
    }

    /// The fraction is at most one.
    pub open spec fn is_proper(&self) -> bool {
        self.wf() && self.num <= self.den
    }

    /// `count` scaled by the fraction and rounded down.
    pub open spec fn floor_of(&self, count: int) -> int {
        (count * self.num) / (self.den as int)
    }

    /// The fraction `num / den`, or `None` where `den` is zero.
    pub fn new(num: u64, den: u64) -> (ratio: Option<Ratio>)
        ensures
            ratio.is_some() <==> den > 0,
            ratio matches Some(r) ==> r.num == num && r.den == den && r.wf(),
    {
        if den == 0 {
            None
        } else {
            Some(Ratio { num, den })
        }
    }

    /// A proper fraction of a count is at most the count.
    pub proof fn lemma_floor_of_bounds(&self, count: int)
        requires
            self.is_proper(),
            0 <= count,
        ensures
            0 <= self.floor_of(count) <= count,
    {
        let den = self.den as int;
        let num = self.num as int;
        assert(0 <= count * num <= count * den) by (nonlinear_arith)
            requires
                0 <= count,
                0 <= num <= den,
        ;
        vstd::arithmetic::div_mod::lemma_div_is_ordered(count * num, count * den, den);
        vstd::arithmetic::div_mod::lemma_div_is_ordered(0, count * num, den);
        vstd::arithmetic::div_mod::lemma_div_multiples_vanish(count, den);
        assert(count * den == den * count) by (nonlinear_arith);
    }

    /// `count` scaled by the fraction and rounded down.
    pub fn scale_down(&self, count: usize) -> (scaled: usize)
        requires
            self.is_proper(),
        ensures
            scaled == self.floor_of(count as int),
            scaled <= count,
    {
        proof {
            self.lemma_floor_of_bounds(count as int);
            assert(count * self.num <= 0xffff_ffff_ffff_ffff * 0xffff_ffff_ffff_ffff)
                by (nonlinear_arith)
                requires
                    0 <= count <= 0xffff_ffff_ffff_ffff,
                    0 <= self.num <= 0xffff_ffff_ffff_ffff,
            ;
        }
        let product: u128 = (count as u128) * (self.num as u128);
        let scaled: u128 = product / (self.den as u128);
        scaled as usize
    }

    /// Whether `part` out of `whole` is less than the fraction:
    /// `part / whole < num / den`, decided without dividing.
    pub open spec fn share_is_below(&self, part: int, whole: int) -> bool {
        part * self.den < whole * self.num
    }

    /// Whether `part` out of `whole` is less than the fraction.
    pub fn is_share_below(&self, part: u128, whole: u128) -> (below: bool)
        requires
            part < WIDE_LIMIT,
            whole < WIDE_LIMIT,
        ensures
            below == self.share_is_below(part as int, whole as int),
    {
        let (left_hi, left_lo) = wide_mul(part, self.den);
        let (right_hi, right_lo) = wide_mul(whole, self.num);
        left_hi < right_hi || (left_hi == right_hi && left_lo < right_lo)
    }
}

/// What `wide_mul` takes: numbers below `2^120`.
pub const WIDE_LIMIT: u128 = 0x100_0000_0000_0000_0000_0000_0000_0000;

/// The product `a * d` in two parts: `hi * 2^64 + lo`.
pub fn wide_mul(a: u128, d: u64) -> (product: (u128, u64))
    requires
        a < WIDE_LIMIT,
    ensures
        a * d == product.0 * 0x1_0000_0000_0000_0000 + product.1,
{
    let a1: u128 = a / 0x1_0000_0000_0000_0000;
    let a0: u128 = a % 0x1_0000_0000_0000_0000;
    assert(a0 * d <= 0xffff_ffff_ffff_ffff * 0xffff_ffff_ffff_ffff) by (nonlinear_arith)
        requires
            0 <= a0 <= 0xffff_ffff_ffff_ffff,
            0 <= d <= 0xffff_ffff_ffff_ffff,
    ;
    let low: u128 = a0 * (d as u128);
    let c1: u128 = low / 0x1_0000_0000_0000_0000;
    let c0: u128 = low % 0x1_0000_0000_0000_0000;
    assert(a1 * d <= 0xff_ffff_ffff_ffff * 0xffff_ffff_ffff_ffff) by (nonlinear_arith)
        requires
            0 <= a1 <= 0xff_ffff_ffff_ffff,
            0 <= d <= 0xffff_ffff_ffff_ffff,
    ;
    let hi: u128 = a1 * (d as u128) + c1;
    assert(a * d == hi * 0x1_0000_0000_0000_0000 + c0) by (nonlinear_arith)
        requires
            a == a1 * 0x1_0000_0000_0000_0000 + a0,
            a0 * d == c1 * 0x1_0000_0000_0000_0000 + c0,
            hi == a1 * d + c1,
    ;
    (hi, c0 as u64)
}

} // verus!
