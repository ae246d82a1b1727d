//! Coordinates and distances on a grid whose opposite edges are adjacent.

use vstd::arithmetic::div_mod::lemma_fundamental_div_mod;
use vstd::arithmetic::div_mod::lemma_fundamental_div_mod_converse;
use vstd::prelude::*;

verus! {

/// The coordinate that `v` falls on when it is wrapped onto `0..size`.
pub open spec fn wrap(v: int, size: int) -> int {
    v % size
}

/// Distance between `a` and `b` along one axis of a torus of the given size:
/// the shorter of the two ways round.
pub open spec fn axis_distance(a: int, b: int, size: int) -> int {
    let d = if a >= b {
        a - b
    } else {
        b - a
    };
    if d <= size - d {
        d
    } else {
        size - d
    }
}

/// Squared wrap-around distance between `(px, py)` and `(qx, qy)` on a torus
/// of `width` by `height` cells.
pub open spec fn distance_squared(px: int, py: int, qx: int, qy: int, width: int, height: int) -> int {
    let dx = axis_distance(px, qx, width);
    let dy = axis_distance(py, qy, height);
    dx * dx + dy * dy
}

/// The distance along an axis is symmetric, never negative and at most half
/// the size.
pub proof fn lemma_axis_distance_bounds(a: int, b: int, size: int)
    requires
        0 <= a < size,
        0 <= b < size,
    ensures
        axis_distance(a, b, size) == axis_distance(b, a, size),
        0 <= axis_distance(a, b, size),
        2 * axis_distance(a, b, size) <= size,
        axis_distance(a, b, size) == 0 <==> a == b,
{
}

/// The squared distance is symmetric, zero exactly between a cell and itself,
/// and bounded by the squared half sizes.
pub proof fn lemma_distance_squared_bounds(px: int, py: int, qx: int, qy: int, width: int, height: int)
    requires
        0 <= px < width,
        0 <= qx < width,
        0 <= py < height,
        0 <= qy < height,
    ensures
        distance_squared(px, py, qx, qy, width, height) == distance_squared(
            qx,
            qy,
            px,
            py,
            width,
            height,
        ),
        0 <= distance_squared(px, py, qx, qy, width, height),
        4 * distance_squared(px, py, qx, qy, width, height) <= width * width + height * height,
        distance_squared(px, py, qx, qy, width, height) == 0 <==> (px == qx && py == qy),
{
    let dx = axis_distance(px, qx, width);
    let dy = axis_distance(py, qy, height);
    lemma_axis_distance_bounds(px, qx, width);
    lemma_axis_distance_bounds(py, qy, height);
    assert(0 <= dx * dx && 4 * (dx * dx) <= width * width && (dx * dx == 0 <==> dx == 0))
        by (nonlinear_arith)
        requires
            0 <= dx,
            2 * dx <= width,
    ;
    assert(0 <= dy * dy && 4 * (dy * dy) <= height * height && (dy * dy == 0 <==> dy == 0))
        by (nonlinear_arith)
        requires
            0 <= dy,
            2 * dy <= height,
    ;
}

/// Distance between two coordinates along one axis of a torus.
pub fn axis_distance_of(a: usize, b: usize, size: usize) -> (d: usize)
    requires
        a < size,
        b < size,
    ensures
        d == axis_distance(a as int, b as int, size as int),
{
    let straight: usize = if a >= b {
        a - b
    } else {
        b - a
    };
    let around: usize = size - straight;
    if straight <= around {
        straight
    } else {
        around
    }
}

/// Squared wrap-around distance between the cells `p` and `q`, each given as
/// `(x, y)`, on a torus of `width` by `height` cells.
pub fn distance_squared_of(p: (usize, usize), q: (usize, usize), width: usize, height: usize) -> (d: u128)
    requires
        p.0 < width,
        q.0 < width,
        p.1 < height,
        q.1 < height,
    ensures
        d == distance_squared(
            p.0 as int,
            p.1 as int,
            q.0 as int,
            q.1 as int,
            width as int,
            height as int,
        ),
{
    let dx: u128 = axis_distance_of(p.0, q.0, width) as u128;
    let dy: u128 = axis_distance_of(p.1, q.1, height) as u128;
    assert(dx * dx <= 0x4000_0000_0000_0000_0000_0000_0000_0000) by (nonlinear_arith)
        requires
            dx <= 0x8000_0000_0000_0000,
    ;
    assert(dy * dy <= 0x4000_0000_0000_0000_0000_0000_0000_0000) by (nonlinear_arith)
        requires
            dy <= 0x8000_0000_0000_0000,
    ;
    dx * dx + dy * dy
}

/// The coordinate `offset - radius` cells away from `x` on an axis of the
/// given size, wrapped onto the axis. `offset` counts from the far left of a
/// window of radius `radius` centred on `x`.
pub fn wrap_offset(x: usize, offset: usize, radius: usize, size: usize) -> (wrapped: usize)
    requires
        x < size,
    ensures
        wrapped == wrap(x + offset - radius, size as int),
        wrapped < size,
{
    let forth: usize = offset % size;
    let back: usize = radius % size;
    let advanced: usize = if x >= size - forth {
        x - (size - forth)
    } else {
        x + forth
    };
    let wrapped: usize = if advanced >= back {
        advanced - back
    } else {
        advanced + (size - back)
    };
    proof {
        let s = size as int;
        let qo = offset as int / s;
        let qr = radius as int / s;
        lemma_fundamental_div_mod(offset as int, s);
        lemma_fundamental_div_mod(radius as int, s);
        let carry: int = if x >= size - forth {
            1
        } else {
            0
        };
        let borrow: int = if advanced >= back {
            0
        } else {
            1
        };
        let q = qo - qr + carry - borrow;
        assert(x + offset - radius == q * s + wrapped) by (nonlinear_arith)
            requires
                offset == s * qo + forth,
                radius == s * qr + back,
                advanced == x + forth - carry * s,
                wrapped == advanced - back + borrow * s,
                q == qo - qr + carry - borrow,
        ;
        lemma_fundamental_div_mod_converse(x + offset - radius, s, q, wrapped as int);
    }
    wrapped
}

} // verus!
