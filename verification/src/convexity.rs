//! The mean of the pixels that count lies in the disk in which they lie.

use vstd::prelude::*;
use vstd::arithmetic::div_mod::lemma_fundamental_div_mod;
use crate::crop::Crop;
use crate::highlight::{
    classes, doubled_offset, highlight, in_mask, lemma_moments_bounded, lemma_total_zero, moment_x,
    moment_y, total, weights, PixelClass,
};
use crate::numeric::{round_div, Ratio};

verus! {

/// The sum of the weights, each times twice the distance of its pixel from
/// a center along the rows.
pub open spec fn spread_x(w: Seq<int>, width: int, corner: int, center2: int) -> int
    decreases w.len(),
{
    if w.len() == 0 {
        0
    } else {
        spread_x(w.drop_last(), width, corner, center2) + doubled_offset(
            (w.len() - 1) % width,
            corner,
            center2,
        ) * w.last()
    }
}

/// The sum of the weights, each times twice the distance of its pixel from
/// a center along the columns.
pub open spec fn spread_y(w: Seq<int>, width: int, corner: int, center2: int) -> int
    decreases w.len(),
{
    if w.len() == 0 {
        0
    } else {
        spread_y(w.drop_last(), width, corner, center2) + doubled_offset(
            (w.len() - 1) / width,
            corner,
            center2,
        ) * w.last()
    }
}

/// Four times the square of the distance of pixel `i` from the center of a
/// crop.
pub open spec fn reach(i: int, width: int, crop: Crop) -> int {
    let square = crop.bounding_square();
    let dx = doubled_offset(i % width, square.left as int, crop.center2_x());
    let dy = doubled_offset(i / width, square.top as int, crop.center2_y());
    dx * dx + dy * dy
}

/// The sum of the weights, each times the reach of its pixel.
pub open spec fn spread_sq(w: Seq<int>, width: int, crop: Crop) -> int
    decreases w.len(),
{
    if w.len() == 0 {
        0
    } else {
        spread_sq(w.drop_last(), width, crop) + reach(w.len() - 1, width, crop) * w.last()
    }
}

/// The spread along an axis is twice the moment, moved by the corner of the
/// square, less the total times twice the center.
pub proof fn lemma_spread_is_moment(w: Seq<int>, width: int, corner: int, center2: int)
    ensures
        spread_x(w, width, corner, center2) == 2 * (moment_x(w, width) + corner * total(w))
            - center2 * total(w),
        spread_y(w, width, corner, center2) == 2 * (moment_y(w, width) + corner * total(w))
            - center2 * total(w),
    decreases w.len(),
{
    if w.len() == 0 {
        assert(corner * 0 == 0);
        assert(center2 * 0 == 0);
    } else {
        let f = w.drop_last();
        lemma_spread_is_moment(f, width, corner, center2);
        let last = w.last();
        let x = (w.len() - 1) % width;
        let y = (w.len() - 1) / width;
        let t = total(f);
        assert((2 * (x + corner) - center2) * last == 2 * (x * last) + 2 * (corner * last)
            - center2 * last) by (nonlinear_arith);
        assert((2 * (y + corner) - center2) * last == 2 * (y * last) + 2 * (corner * last)
            - center2 * last) by (nonlinear_arith);
        assert(corner * (t + last) == corner * t + corner * last) by (nonlinear_arith);
        assert(center2 * (t + last) == center2 * t + center2 * last) by (nonlinear_arith);
    }
}

/// The square of `s + a * w`, written out.
proof fn lemma_square_of_sum(s: int, a: int, w: int)
    ensures
        (s + a * w) * (s + a * w) == s * s + w * (2 * (s * a)) + w * w * (a * a),
{
    let x = a * w;
    assert((s + x) * (s + x) == s * s + 2 * (s * x) + x * x) by (nonlinear_arith);
    assert(s * x == w * (s * a)) by (nonlinear_arith)
        requires
            x == a * w,
    ;
    assert(w * (2 * (s * a)) == 2 * (w * (s * a))) by (nonlinear_arith);
    assert(x * x == w * w * (a * a)) by (nonlinear_arith)
        requires
            x == a * w,
    ;
}

/// The square of `t * a - s`, written out.
proof fn lemma_square_of_difference(t: int, a: int, s: int)
    ensures
        (t * a - s) * (t * a - s) == t * (t * (a * a)) - 2 * (t * (s * a)) + s * s,
{
    let x = t * a;
    assert((x - s) * (x - s) == x * x - 2 * (x * s) + s * s) by (nonlinear_arith);
    assert(x * s == t * (s * a)) by (nonlinear_arith)
        requires
            x == t * a,
    ;
    assert(x * x == t * (t * (a * a))) by (nonlinear_arith)
        requires
            x == t * a,
    ;
}

/// One step of the inequality of the weighted mean: a further point of
/// weight `w` keeps the square of the sum below the total times the sum of
/// the squares.
proof fn lemma_mean_step(s: int, u: int, t: int, q: int, a: int, b: int, w: int)
    requires
        s * s + u * u <= t * q,
        0 <= t,
        0 <= q,
        0 <= w,
    ensures
        (s + a * w) * (s + a * w) + (u + b * w) * (u + b * w) <= (t + w) * (q + (a * a + b * b)
            * w),
{
    let k = t * (a * a + b * b) - 2 * (s * a + u * b) + q;
    if t > 0 {
        lemma_square_of_difference(t, a, s);
        lemma_square_of_difference(t, b, u);
        let aa = a * a;
        let bb = b * b;
        let sa = s * a;
        let ub = u * b;
        assert(t * k == t * (t * aa) + t * (t * bb) - 2 * (t * sa) - 2 * (t * ub) + t * q)
            by (nonlinear_arith)
            requires
                k == t * (aa + bb) - 2 * (sa + ub) + q,
        ;
        assert(t * k == (t * a - s) * (t * a - s) + (t * b - u) * (t * b - u) + (t * q - s * s - u
            * u));
        assert((t * a - s) * (t * a - s) >= 0) by (nonlinear_arith);
        assert((t * b - u) * (t * b - u) >= 0) by (nonlinear_arith);
        assert(k >= 0) by (nonlinear_arith)
            requires
                t * k >= 0,
                t > 0,
        ;
    } else {
        assert(t * q == 0) by (nonlinear_arith)
            requires
                t == 0,
        ;
        assert(s == 0 && u == 0) by (nonlinear_arith)
            requires
                s * s + u * u <= 0,
        ;
        assert(k == q) by (nonlinear_arith)
            requires
                k == t * (a * a + b * b) - 2 * (s * a + u * b) + q,
                t == 0,
                s == 0,
                u == 0,
        ;
    }
    lemma_square_of_sum(s, a, w);
    lemma_square_of_sum(u, b, w);
    assert(w * (2 * (s * a)) + w * (2 * (u * b)) == w * (2 * (s * a + u * b))) by (nonlinear_arith);
    assert(w * w * (a * a) + w * w * (b * b) == w * w * (a * a + b * b)) by (nonlinear_arith);
    assert((t + w) * (q + (a * a + b * b) * w) == t * q + w * (t * (a * a + b * b) + q) + w * w
        * (a * a + b * b)) by (nonlinear_arith);
    assert(w * (2 * (s * a + u * b)) <= w * (t * (a * a + b * b) + q)) by (nonlinear_arith)
        requires
            0 <= w,
            t * (a * a + b * b) - 2 * (s * a + u * b) + q >= 0,
    ;
}

/// The inequality of the weighted mean: the squares of the two spreads add
/// up to no more than the total times the spread of the squares.
pub proof fn lemma_mean_inequality(w: Seq<int>, width: int, crop: Crop)
    requires
        forall|i: int| 0 <= i < w.len() ==> w[i] >= 0,
    ensures
        0 <= spread_sq(w, width, crop),
        ({
            let square = crop.bounding_square();
            let sx = spread_x(w, width, square.left as int, crop.center2_x());
            let sy = spread_y(w, width, square.top as int, crop.center2_y());
            sx * sx + sy * sy <= total(w) * spread_sq(w, width, crop)
        }),
    decreases w.len(),
{
    if w.len() == 0 {
        assert(0 * 0 + 0 * 0 <= 0 * 0);
    } else {
        let f = w.drop_last();
        lemma_mean_inequality(f, width, crop);
        lemma_total_zero(f);
        let square = crop.bounding_square();
        let k = w.len() - 1;
        let a = doubled_offset(k % width, square.left as int, crop.center2_x());
        let b = doubled_offset(k / width, square.top as int, crop.center2_y());
        assert(a * a + b * b >= 0) by (nonlinear_arith);
        assert((a * a + b * b) * w.last() >= 0) by (nonlinear_arith)
            requires
                a * a + b * b >= 0,
                w.last() >= 0,
        ;
        lemma_mean_step(
            spread_x(f, width, square.left as int, crop.center2_x()),
            spread_y(f, width, square.top as int, crop.center2_y()),
            total(f),
            spread_sq(f, width, crop),
            a,
            b,
            w.last(),
        );
    }
}

/// Where every pixel with a weight has a reach of at most `bound / scale`,
/// the spread of the squares is at most the total times that.
pub proof fn lemma_spread_bounded(w: Seq<int>, width: int, crop: Crop, scale: int, bound: int)
    requires
        0 <= scale,
        forall|i: int| 0 <= i < w.len() ==> w[i] >= 0,
        forall|i: int|
            0 <= i < w.len() && #[trigger] w[i] != 0 ==> reach(i, width, crop) * scale <= bound,
    ensures
        spread_sq(w, width, crop) * scale <= bound * total(w),
    decreases w.len(),
{
    if w.len() == 0 {
        assert(0 * scale == 0);
        assert(bound * 0 == 0);
    } else {
        let f = w.drop_last();
        assert forall|i: int| 0 <= i < f.len() && #[trigger] f[i] != 0 implies reach(
            i,
            width,
            crop,
        ) * scale <= bound by {
            assert(w[i] != 0);
        }
        lemma_spread_bounded(f, width, crop, scale, bound);
        let k = w.len() - 1;
        let r = reach(k, width, crop);
        let last = w.last();
        assert(w[k] == last);
        assert((r * last) * scale <= bound * last) by (nonlinear_arith)
            requires
                last >= 0,
                last != 0 ==> r * scale <= bound,
        ;
        assert((spread_sq(f, width, crop) + r * last) * scale == spread_sq(f, width, crop) * scale
            + (r * last) * scale) by (nonlinear_arith);
        assert(bound * (total(f) + last) == bound * total(f) + bound * last) by (nonlinear_arith);
    }
}

/// The mean of the pixels that count, each weighted by its luminance, lies
/// in the disk of the mask. With `t` the total weight, `t` times twice the
/// distance of the mean from the center of the crop is the spread along each
/// axis, so the condition of the mask holds of the spreads with `t * t` on
/// its other side. The highlight is that mean, rounded to the nearest
/// pixel.
pub proof fn lemma_mean_in_mask(
    crop: Crop,
    threshold: Ratio,
    mask_ray: Ratio,
    width: int,
    lumas: Seq<u8>,
)
    ensures
        ({
            let w = weights(classes(crop, threshold, mask_ray, width, lumas), lumas);
            let square = crop.bounding_square();
            let t = total(w);
            let sx = 2 * (moment_x(w, width) + square.left * t) - crop.center2_x() * t;
            let sy = 2 * (moment_y(w, width) + square.top * t) - crop.center2_y() * t;
            (sx * sx + sy * sy) * (mask_ray.den * mask_ray.den) <= crop.diag_sq() * (mask_ray.num
                * mask_ray.num) * (t * t)
        }),
{
    let cls = classes(crop, threshold, mask_ray, width, lumas);
    let w = weights(cls, lumas);
    let square = crop.bounding_square();
    let t = total(w);
    let scale = mask_ray.den * mask_ray.den;
    let bound = crop.diag_sq() * (mask_ray.num * mask_ray.num);
    assert(scale >= 0) by (nonlinear_arith)
        requires
            scale == mask_ray.den * mask_ray.den,
    ;
    assert forall|i: int| 0 <= i < w.len() && #[trigger] w[i] != 0 implies reach(i, width, crop)
        * scale <= bound by {
        assert(cls[i] == PixelClass::Highlight);
        assert(in_mask(crop, mask_ray, i % width, i / width));
    }
    lemma_total_zero(w);
    lemma_spread_bounded(w, width, crop, scale, bound);
    lemma_mean_inequality(w, width, crop);
    lemma_spread_is_moment(w, width, square.left as int, crop.center2_x());
    lemma_spread_is_moment(w, width, square.top as int, crop.center2_y());
    let sx = spread_x(w, width, square.left as int, crop.center2_x());
    let sy = spread_y(w, width, square.top as int, crop.center2_y());
    let q = spread_sq(w, width, crop);
    assert((sx * sx + sy * sy) * scale <= bound * (t * t)) by (nonlinear_arith)
        requires
            sx * sx + sy * sy <= t * q,
            q * scale <= bound * t,
            0 <= t,
            0 <= scale,
    ;
}

/// A quotient rounded to the nearest integer is no further than a half from
/// the quotient.
pub proof fn lemma_round_div_near(a: int, b: int)
    requires
        0 <= a,
        0 < b,
    ensures
        0 <= round_div(a, b),
        -b < 2 * (b * round_div(a, b) - a) <= b,
{
    let r = round_div(a, b);
    lemma_fundamental_div_mod(2 * a + b, 2 * b);
    assert((2 * b) * r == 2 * (b * r)) by (nonlinear_arith);
    assert(0 <= r) by (nonlinear_arith)
        requires
            r == (2 * a + b) / (2 * b),
            0 <= a,
            0 < b,
    ;
}

/// The highlight is the mean of the pixels that count, each weighted by its
/// luminance, moved by no more than half a pixel along each axis. Since the
/// mean lies in the disk of the mask, the highlight lies within half a pixel
/// of the disk along each axis.
pub proof fn lemma_highlight_near_mean(
    crop: Crop,
    threshold: Ratio,
    mask_ray: Ratio,
    width: int,
    height: int,
    lumas: Seq<u8>,
)
    requires
        0 < width <= u32::MAX,
        0 <= height <= u32::MAX,
        lumas.len() == width * height,
    ensures
        highlight(crop, threshold, mask_ray, width, lumas) is Some ==> ({
            let w = weights(classes(crop, threshold, mask_ray, width, lumas), lumas);
            let p = highlight(crop, threshold, mask_ray, width, lumas)->0;
            let t = total(w);
            &&& t > 0
            &&& p.x < width
            &&& p.y < height
            &&& -t < 2 * (t * p.x - moment_x(w, width)) <= t
            &&& -t < 2 * (t * p.y - moment_y(w, width)) <= t
        }),
{
    let w = weights(classes(crop, threshold, mask_ray, width, lumas), lumas);
    let t = total(w);
    lemma_total_zero(w);
    lemma_moments_bounded(w, width, height);
    if t != 0 {
        let mx = moment_x(w, width);
        let my = moment_y(w, width);
        lemma_round_div_near(mx, t);
        lemma_round_div_near(my, t);
        let rx = round_div(mx, t);
        let ry = round_div(my, t);
        assert(rx < width) by (nonlinear_arith)
            requires
                2 * (t * rx - mx) <= t,
                -t < 2 * (t * rx - mx),
                0 <= mx <= (width - 1) * t,
                t > 0,
        ;
        assert(ry < height) by (nonlinear_arith)
            requires
                2 * (t * ry - my) <= t,
                -t < 2 * (t * ry - my),
                0 <= my <= (height - 1) * t,
                t > 0,
        ;
    }
}

} // verus!
