//! The highlight of a patch that is symmetric about a pixel is that pixel.

use vstd::prelude::*;
use vstd::arithmetic::div_mod::{lemma_fundamental_div_mod, lemma_fundamental_div_mod_converse};
use crate::crop::Crop;
use crate::highlight::{
    centroid, classes, highlight, in_mask, is_bright, lemma_total_zero, moment_x, moment_y, total,
    weights, PixelClass, Point2D,
};
use crate::multires::lemma_place;
use crate::numeric::{round_div, Ratio};

verus! {

/// The index of the pixel that mirrors pixel `i` about the pixel
/// `(cx, cy)`, in a crop that is `width` pixels wide.
pub open spec fn mirror(i: int, width: int, cx: int, cy: int) -> int {
    (2 * cy - i / width) * width + (2 * cx - i % width)
}

/// Each pixel with a weight is mirrored about `(cx, cy)` by a pixel of the
/// crop with the same weight.
pub open spec fn symmetric_about(w: Seq<int>, width: int, cx: int, cy: int) -> bool {
    forall|i: int|
        0 <= i < w.len() && #[trigger] w[i] != 0 ==> {
            &&& 0 <= 2 * cx - i % width < width
            &&& 0 <= mirror(i, width, cx, cy) < w.len()
            &&& w[mirror(i, width, cx, cy)] == w[i]
        }
}

/// The mirror of a pixel lies in the mirrored column and row, and its own
/// mirror is the pixel.
pub proof fn lemma_mirror(i: int, width: int, cx: int, cy: int)
    requires
        width > 0,
        0 <= 2 * cx - i % width < width,
    ensures
        mirror(i, width, cx, cy) % width == 2 * cx - i % width,
        mirror(i, width, cx, cy) / width == 2 * cy - i / width,
        mirror(mirror(i, width, cx, cy), width, cx, cy) == i,
{
    let m = mirror(i, width, cx, cy);
    lemma_fundamental_div_mod_converse(m, width, 2 * cy - i / width, 2 * cx - i % width);
    lemma_fundamental_div_mod(i, width);
    assert(width * (i / width) == (i / width) * width) by (nonlinear_arith);
}

/// Taking the weight of one pixel away lowers the total by that weight and
/// each moment by the weight times the pixel's column or row.
pub proof fn lemma_without(w: Seq<int>, width: int, m: int)
    requires
        0 <= m < w.len(),
    ensures
        total(w.update(m, 0)) == total(w) - w[m],
        moment_x(w.update(m, 0), width) == moment_x(w, width) - (m % width) * w[m],
        moment_y(w.update(m, 0), width) == moment_y(w, width) - (m / width) * w[m],
    decreases w.len(),
{
    let u = w.update(m, 0);
    if m == w.len() - 1 {
        assert(u.drop_last() =~= w.drop_last());
        assert((m % width) * 0 == 0);
        assert((m / width) * 0 == 0);
    } else {
        lemma_without(w.drop_last(), width, m);
        assert(u.drop_last() =~= w.drop_last().update(m, 0));
    }
}

/// Symmetric weights stay symmetric when a last pixel without weight, or a
/// last pixel that is its own mirror, is left out.
proof fn lemma_symmetric_front(w: Seq<int>, width: int, cx: int, cy: int)
    requires
        width > 0,
        w.len() > 0,
        symmetric_about(w, width, cx, cy),
        w.last() == 0 || mirror(w.len() - 1, width, cx, cy) == w.len() - 1,
    ensures
        symmetric_about(w.drop_last(), width, cx, cy),
{
    let f = w.drop_last();
    let k = w.len() - 1;
    assert forall|i: int| 0 <= i < f.len() && #[trigger] f[i] != 0 implies {
        &&& 0 <= 2 * cx - i % width < width
        &&& 0 <= mirror(i, width, cx, cy) < f.len()
        &&& f[mirror(i, width, cx, cy)] == f[i]
    } by {
        assert(w[i] != 0);
        lemma_mirror(i, width, cx, cy);
        let m = mirror(i, width, cx, cy);
        assert(w[m] == w[i]);
        assert(m != k);
    }
}

/// Symmetric weights stay symmetric when the last pixel and its mirror,
/// which is another pixel, are both left out.
proof fn lemma_symmetric_without_pair(w: Seq<int>, width: int, cx: int, cy: int)
    requires
        width > 0,
        w.len() > 0,
        symmetric_about(w, width, cx, cy),
        w.last() != 0,
        mirror(w.len() - 1, width, cx, cy) != w.len() - 1,
    ensures
        symmetric_about(
            w.update(mirror(w.len() - 1, width, cx, cy), 0).drop_last(),
            width,
            cx,
            cy,
        ),
{
    let k = w.len() - 1;
    assert(w[k] != 0);
    let m = mirror(k, width, cx, cy);
    lemma_mirror(k, width, cx, cy);
    let f = w.update(m, 0).drop_last();
    assert forall|i: int| 0 <= i < f.len() && #[trigger] f[i] != 0 implies {
        &&& 0 <= 2 * cx - i % width < width
        &&& 0 <= mirror(i, width, cx, cy) < f.len()
        &&& f[mirror(i, width, cx, cy)] == f[i]
    } by {
        assert(i != m);
        assert(w[i] != 0);
        lemma_mirror(i, width, cx, cy);
        let mi = mirror(i, width, cx, cy);
        assert(w[mi] == w[i]);
        assert(mi != k);
        assert(mi != m);
    }
}

/// Weights that are symmetric about `(cx, cy)` balance there: each moment is
/// the total times the coordinate of the center.
pub proof fn lemma_symmetric_moments(w: Seq<int>, width: int, cx: int, cy: int)
    requires
        width > 0,
        symmetric_about(w, width, cx, cy),
    ensures
        moment_x(w, width) == cx * total(w),
        moment_y(w, width) == cy * total(w),
    decreases w.len(),
{
    if w.len() == 0 {
        assert(cx * 0 == 0);
        assert(cy * 0 == 0);
    } else {
        let k = w.len() - 1;
        let last = w[k];
        let m = mirror(k, width, cx, cy);
        let xk = k % width;
        let yk = k / width;
        if last == 0 || m == k {
            let f = w.drop_last();
            lemma_symmetric_front(w, width, cx, cy);
            lemma_symmetric_moments(f, width, cx, cy);
            if last != 0 {
                lemma_mirror(k, width, cx, cy);
                assert(xk == cx && yk == cy);
            }
            assert(xk * last == cx * last) by (nonlinear_arith)
                requires
                    last == 0 || xk == cx,
            ;
            assert(yk * last == cy * last) by (nonlinear_arith)
                requires
                    last == 0 || yk == cy,
            ;
            assert(cx * (total(f) + last) == cx * total(f) + cx * last) by (nonlinear_arith);
            assert(cy * (total(f) + last) == cy * total(f) + cy * last) by (nonlinear_arith);
        } else {
            let u = w.update(m, 0);
            let f = u.drop_last();
            lemma_mirror(k, width, cx, cy);
            lemma_symmetric_without_pair(w, width, cx, cy);
            lemma_symmetric_moments(f, width, cx, cy);
            lemma_without(w, width, m);
            assert(u[k] == last);
            assert(w[m] == last);
            let xm = m % width;
            let ym = m / width;
            assert(xk * last + xm * last == (2 * cx) * last) by (nonlinear_arith)
                requires
                    xk + xm == 2 * cx,
            ;
            assert(yk * last + ym * last == (2 * cy) * last) by (nonlinear_arith)
                requires
                    yk + ym == 2 * cy,
            ;
            assert(cx * (total(f) + last + last) == cx * total(f) + (2 * cx) * last)
                by (nonlinear_arith);
            assert(cy * (total(f) + last + last) == cy * total(f) + (2 * cy) * last)
                by (nonlinear_arith);
        }
    }
}

/// The centroid of weights that are symmetric about a pixel, none of them
/// negative and not all of them zero, is that pixel.
pub proof fn lemma_symmetric_centroid(w: Seq<int>, width: int, center: Point2D)
    requires
        width > 0,
        symmetric_about(w, width, center.x as int, center.y as int),
        forall|i: int| 0 <= i < w.len() ==> w[i] >= 0,
        exists|i: int| 0 <= i < w.len() && w[i] != 0,
    ensures
        centroid(w, width) == Some(center),
{
    lemma_symmetric_moments(w, width, center.x as int, center.y as int);
    lemma_total_zero(w);
    let t = total(w);
    assert(t > 0);
    let cx = center.x as int;
    let cy = center.y as int;
    assert(round_div(cx * t, t) == cx) by (nonlinear_arith)
        requires
            t > 0,
    ;
    assert(round_div(cy * t, t) == cy) by (nonlinear_arith)
        requires
            t > 0,
    ;
}

/// Where the pixels that count in a blurred crop form a patch that is
/// symmetric about a pixel, with the luminance of each pixel equal to that of
/// its mirror, the highlight is that pixel.
pub proof fn lemma_symmetric_patch(
    crop: Crop,
    threshold: Ratio,
    mask_ray: Ratio,
    width: int,
    lumas: Seq<u8>,
    center: Point2D,
)
    requires
        width > 0,
        symmetric_about(
            weights(classes(crop, threshold, mask_ray, width, lumas), lumas),
            width,
            center.x as int,
            center.y as int,
        ),
        exists|i: int|
            0 <= i < lumas.len() && weights(
                classes(crop, threshold, mask_ray, width, lumas),
                lumas,
            )[i] != 0,
    ensures
        highlight(crop, threshold, mask_ray, width, lumas) == Some(center),
{
    let w = weights(classes(crop, threshold, mask_ray, width, lumas), lumas);
    lemma_symmetric_centroid(w, width, center);
}

/// The pixel `(x, y)` lies in the round patch of the given radius about
/// `center`.
pub open spec fn in_patch(center: Point2D, radius: int, x: int, y: int) -> bool {
    (x - center.x) * (x - center.x) + (y - center.y) * (y - center.y) <= radius * radius
}

/// Where a round patch of one luminance, which lies in the crop and in the
/// disk of the mask, holds all the pixels that are brighter than the
/// threshold, the highlight is the center of the patch.
pub proof fn lemma_round_patch(
    crop: Crop,
    threshold: Ratio,
    mask_ray: Ratio,
    width: int,
    height: int,
    lumas: Seq<u8>,
    center: Point2D,
    radius: int,
    luma: u8,
)
    requires
        lumas.len() == width * height,
        0 <= radius <= center.x,
        center.x + radius < width,
        radius <= center.y,
        center.y + radius < height,
        is_bright(luma, threshold),
        forall|x: int, y: int|
            0 <= x < width && 0 <= y < height && #[trigger] in_patch(center, radius, x, y)
                ==> in_mask(crop, mask_ray, x, y) && lumas[y * width + x] == luma,
        forall|x: int, y: int|
            0 <= x < width && 0 <= y < height && !(#[trigger] in_patch(center, radius, x, y))
                ==> !is_bright(lumas[y * width + x], threshold),
    ensures
        highlight(crop, threshold, mask_ray, width, lumas) == Some(center),
{
    let cx = center.x as int;
    let cy = center.y as int;
    let cls = classes(crop, threshold, mask_ray, width, lumas);
    let w = weights(cls, lumas);
    assert(luma > 0) by (nonlinear_arith)
        requires
            luma * threshold.den > 255 * threshold.num,
            threshold.den >= 0,
            threshold.num >= 0,
    ;
    assert forall|i: int| 0 <= i < w.len() && #[trigger] w[i] != 0 implies {
        &&& 0 <= 2 * cx - i % width < width
        &&& 0 <= mirror(i, width, cx, cy) < w.len()
        &&& w[mirror(i, width, cx, cy)] == w[i]
    } by {
        let x = i % width;
        let y = i / width;
        lemma_fundamental_div_mod(i, width);
        assert(width * y == y * width) by (nonlinear_arith);
        assert(0 <= x < width);
        assert(0 <= y < height) by (nonlinear_arith)
            requires
                0 <= i < width * height,
                i == y * width + x,
                0 <= x < width,
        ;
        assert(cls[i] == PixelClass::Highlight);
        assert(is_bright(lumas[y * width + x], threshold));
        assert(in_patch(center, radius, x, y));
        let mx = 2 * cx - x;
        let my = 2 * cy - y;
        assert((mx - cx) * (mx - cx) == (x - cx) * (x - cx)) by (nonlinear_arith)
            requires
                mx - cx == -(x - cx),
        ;
        assert((my - cy) * (my - cy) == (y - cy) * (y - cy)) by (nonlinear_arith)
            requires
                my - cy == -(y - cy),
        ;
        assert(-radius <= x - cx <= radius && -radius <= y - cy <= radius) by (nonlinear_arith)
            requires
                (x - cx) * (x - cx) + (y - cy) * (y - cy) <= radius * radius,
                0 <= radius,
        ;
        assert(in_patch(center, radius, mx, my));
        lemma_place(mx, my, width, height);
        let m = mirror(i, width, cx, cy);
        assert(m == my * width + mx);
        lemma_fundamental_div_mod_converse(m, width, my, mx);
        assert(lumas[my * width + mx] == luma);
        assert(lumas[y * width + x] == luma);
        assert(cls[m] == PixelClass::Highlight);
    }
    lemma_place(cx, cy, width, height);
    let c = cy * width + cx;
    lemma_fundamental_div_mod_converse(c, width, cy, cx);
    assert(0 <= radius * radius) by (nonlinear_arith);
    assert(in_patch(center, radius, cx, cy));
    assert(lumas[cy * width + cx] == luma);
    assert(cls[c] == PixelClass::Highlight);
    assert(w[c] != 0);
    lemma_symmetric_patch(crop, threshold, mask_ray, width, lumas, center);
}

} // verus!
