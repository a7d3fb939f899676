//! Rectangular regions of interest and the disk that surrounds them.

use vstd::prelude::*;
use crate::numeric::{ceil_sqrt, floor_sqrt, isqrt, lemma_ceil_sqrt, lemma_floor_sqrt};

verus! {

/// An axis-aligned rectangle in the pixel coordinates of the full image.
#[derive(Clone, Copy, Debug, PartialEq, Eq, Structural)]
pub struct Crop {
    pub left: u32,
    pub top: u32,
    pub right: u32,
    pub bottom: u32,
}

/// The nearest integer to `(sum - sqrt(q)) / 2`, halves rounded up, and zero
/// where that is negative.
pub open spec fn low_edge(sum: int, q: int) -> int {
    let t = (sum + 1 - ceil_sqrt(q)) / 2;
    if t < 0 {
        0
    } else {
        t
    }
}

/// The nearest integer to `(sum + sqrt(q)) / 2`, halves rounded up, and
/// `u32::MAX` where that is larger.
pub open spec fn high_edge(sum: int, q: int) -> int {
    let t = (sum + 1 + floor_sqrt(q)) / 2;
    if t > u32::MAX {
        u32::MAX as int
    } else {
        t
    }
}

/// `t` is an integer nearest to `(sum - sqrt(q)) / 2`, the upper one of two:
/// `sum - 2 * t - 1 < sqrt(q) <= sum - 2 * t + 1`.
pub open spec fn nearest_below(t: int, sum: int, q: int) -> bool {
    let a = sum - 2 * t;
    &&& a - 1 < 0 || (a - 1) * (a - 1) < q
    &&& a + 1 >= 0 && q <= (a + 1) * (a + 1)
}

/// `t` is an integer nearest to `(sum + sqrt(q)) / 2`, the upper one of two:
/// `2 * t - sum - 1 <= sqrt(q) < 2 * t - sum + 1`.
pub open spec fn nearest_above(t: int, sum: int, q: int) -> bool {
    let b = 2 * t - sum;
    &&& b - 1 <= 0 || (b - 1) * (b - 1) <= q
    &&& b + 1 > 0 && q < (b + 1) * (b + 1)
}

/// Before it is kept within the range of `u32`, each edge of the square is
/// the integer nearest to the center less or plus half the diagonal.
pub proof fn lemma_edges_nearest(sum: int, q: int)
    requires
        0 <= q,
    ensures
        nearest_below((sum + 1 - ceil_sqrt(q)) / 2, sum, q),
        nearest_above((sum + 1 + floor_sqrt(q)) / 2, sum, q),
{
    lemma_ceil_sqrt(q);
    lemma_floor_sqrt(q);
    let c = ceil_sqrt(q);
    let f = floor_sqrt(q);
    let t = (sum + 1 - c) / 2;
    let a = sum - 2 * t;
    assert(c <= a + 1 <= c + 1);
    assert(q <= (a + 1) * (a + 1)) by (nonlinear_arith)
        requires
            0 <= c <= a + 1,
            q <= c * c,
    ;
    assert(a - 1 < 0 || (a - 1) * (a - 1) < q) by (nonlinear_arith)
        requires
            a - 1 <= c - 1,
            c == 0 || (c - 1) * (c - 1) < q,
            0 <= c,
    ;
    let u = (sum + 1 + f) / 2;
    let b = 2 * u - sum;
    assert(f <= b + 1 - 1 <= f + 1);
    assert(b - 1 <= 0 || (b - 1) * (b - 1) <= q) by (nonlinear_arith)
        requires
            b - 1 <= f,
            0 <= f,
            f * f <= q,
    ;
    assert(q < (b + 1) * (b + 1)) by (nonlinear_arith)
        requires
            b + 1 >= f + 1,
            0 <= f,
            q < (f + 1) * (f + 1),
    ;
}

impl Crop {
    /// The square of the rectangle's diagonal.
    pub open spec fn diag_sq(self) -> int {
        (self.right - self.left) * (self.right - self.left) + (self.bottom - self.top) * (
        self.bottom - self.top)
    }

    /// The rectangle has a positive width and height, and the disk around it
    /// a radius of at least one pixel.
    pub open spec fn well_formed(self) -> bool {
        self.right > self.left && self.bottom > self.top && self.diag_sq() >= 4
    }

    /// Twice the abscissa of the rectangle's center.
    pub open spec fn center2_x(self) -> int {
        self.left + self.right
    }

    /// Twice the ordinate of the rectangle's center.
    pub open spec fn center2_y(self) -> int {
        self.top + self.bottom
    }

    /// The integer part of half the diagonal: the radius of the sphere in
    /// whole pixels.
    pub open spec fn radius(self) -> int {
        floor_sqrt(self.diag_sq() / 4)
    }

    /// The square around the disk whose center is the rectangle's and whose
    /// radius is half its diagonal, each edge rounded to the nearest pixel
    /// and kept within the range of `u32`.
    pub open spec fn bounding_square(self) -> Crop {
        Crop {
            left: low_edge(self.center2_x(), self.diag_sq()) as u32,
            top: low_edge(self.center2_y(), self.diag_sq()) as u32,
            right: high_edge(self.center2_x(), self.diag_sq()) as u32,
            bottom: high_edge(self.center2_y(), self.diag_sq()) as u32,
        }
    }

    /// The square of the diagonal fits in 65 bits.
    pub proof fn lemma_diag_sq_bounded(self)
        requires
            self.right >= self.left,
            self.bottom >= self.top,
        ensures
            0 <= self.diag_sq() <= 2 * 0xffff_ffff * 0xffff_ffff,
    {
        let w = self.right - self.left;
        let h = self.bottom - self.top;
        assert(0 <= w * w <= 0xffff_ffff * 0xffff_ffff) by (nonlinear_arith)
            requires
                0 <= w <= 0xffff_ffff,
        ;
        assert(0 <= h * h <= 0xffff_ffff * 0xffff_ffff) by (nonlinear_arith)
            requires
                0 <= h <= 0xffff_ffff,
        ;
    }

    /// Tells whether the rectangle is well formed.
    pub fn is_well_formed(&self) -> (ok: bool)
        ensures
            ok == self.well_formed(),
    {
        self.right > self.left && self.bottom > self.top && self.diagonal_squared() >= 4
    }

    /// Computes the square of the diagonal.
    pub fn diagonal_squared(&self) -> (q: u128)
        requires
            self.right >= self.left,
            self.bottom >= self.top,
        ensures
            q == self.diag_sq(),
            q <= 2 * 0xffff_ffff * 0xffff_ffff,
    {
        let w: u128 = (self.right - self.left) as u128;
        let h: u128 = (self.bottom - self.top) as u128;
        assert(w * w <= 0xffff_ffff * 0xffff_ffff) by (nonlinear_arith)
            requires
                0 <= w <= 0xffff_ffff,
        ;
        assert(h * h <= 0xffff_ffff * 0xffff_ffff) by (nonlinear_arith)
            requires
                0 <= h <= 0xffff_ffff,
        ;
        w * w + h * h
    }

    /// Computes the radius of the sphere in whole pixels.
    pub fn sphere_radius(&self) -> (r: u32)
        requires
            self.right >= self.left,
            self.bottom >= self.top,
        ensures
            r == self.radius(),
    {
        let q: u128 = self.diagonal_squared();
        let r: u64 = isqrt(q / 4);
        assert(r <= 0xffff_ffff) by (nonlinear_arith)
            requires
                r * r <= q / 4,
                q <= 2 * 0xffff_ffff * 0xffff_ffff,
                0 <= r,
        ;
        r as u32
    }

    /// Computes the square around the disk.
    pub fn surrounding_square(&self) -> (s: Crop)
        requires
            self.right >= self.left,
            self.bottom >= self.top,
        ensures
            s == self.bounding_square(),
            s.left <= s.right,
            s.top <= s.bottom,
    {
        let q: u128 = self.diagonal_squared();
        let floor: u64 = isqrt(q);
        assert(floor <= 0x1_ffff_ffff) by (nonlinear_arith)
            requires
                floor * floor <= q,
                q <= 2 * 0xffff_ffff * 0xffff_ffff,
                0 <= floor,
        ;
        let ceil: u64 = if (floor as u128) * (floor as u128) == q {
            floor
        } else {
            floor + 1
        };
        let sum_x: u64 = self.left as u64 + self.right as u64;
        let sum_y: u64 = self.top as u64 + self.bottom as u64;
        Crop {
            left: edge_below(sum_x, ceil),
            top: edge_below(sum_y, ceil),
            right: edge_above(sum_x, floor),
            bottom: edge_above(sum_y, floor),
        }
    }
}

/// Half of `sum + 1 - root`, rounded down and not below zero.
fn edge_below(sum: u64, root: u64) -> (e: u32)
    requires
        sum <= 2 * 0xffff_ffff,
    ensures
        e as int == if (sum + 1 - root) / 2 < 0 {
            0
        } else {
            (sum + 1 - root) / 2
        },
{
    if sum + 1 < root {
        0
    } else {
        ((sum + 1 - root) / 2) as u32
    }
}

/// Half of `sum + 1 + root`, rounded down and not above `u32::MAX`.
fn edge_above(sum: u64, root: u64) -> (e: u32)
    requires
        sum <= 2 * 0xffff_ffff,
        root <= 0x1_ffff_ffff,
    ensures
        e as int == if (sum + 1 + root) / 2 > u32::MAX {
            u32::MAX as int
        } else {
            (sum + 1 + root) / 2
        },
{
    let t: u64 = (sum + 1 + root) / 2;
    if t > 0xffff_ffff {
        0xffff_ffff
    } else {
        t as u32
    }
}

} // verus!
