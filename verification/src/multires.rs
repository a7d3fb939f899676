//! Images at several resolutions, each half as wide and high as the one
//! before.

use vstd::prelude::*;
use vstd::arithmetic::div_mod::{lemma_div_denominator, lemma_fundamental_div_mod_converse};
use vstd::arithmetic::power2::{lemma2_to64, lemma_pow2_pos, lemma_pow2_unfold, pow2};
use crate::registration::CanRegister;

verus! {

/// A gray image: one level for each pixel, row after row.
#[derive(Clone, Debug, PartialEq, Eq)]
pub struct Gray<T> {
    pub width: usize,
    pub height: usize,
    pub data: Vec<T>,
}

/// What a gray image holds: its size, and the level of each pixel as an
/// integer.
pub struct Raster {
    pub width: int,
    pub height: int,
    pub levels: Seq<int>,
}

impl Raster {
    /// The level of the pixel in column `x` of row `y`.
    pub open spec fn at(self, x: int, y: int) -> int {
        self.levels[y * self.width + x]
    }

    /// The image has no pixel.
    pub open spec fn is_empty(self) -> bool {
        self.width <= 0 || self.height <= 0
    }
}

/// The image at half the resolution: each pixel is the mean, rounded down, of
/// the four pixels that it covers; a last odd column or row is left out.
pub open spec fn halved(r: Raster) -> Raster {
    let w = r.width / 2;
    let h = r.height / 2;
    Raster {
        width: w,
        height: h,
        levels: Seq::new(
            (w * h) as nat,
            |i: int|
                {
                    let x = i % w;
                    let y = i / w;
                    (r.at(2 * x, 2 * y) + r.at(2 * x + 1, 2 * y) + r.at(2 * x, 2 * y + 1) + r.at(
                        2 * x + 1,
                        2 * y + 1,
                    )) / 4
                },
        ),
    }
}

/// The image after `k` halvings.
pub open spec fn level_of(r: Raster, k: nat) -> Raster
    decreases k,
{
    if k == 0 {
        r
    } else {
        halved(level_of(r, (k - 1) as nat))
    }
}

/// After `k` halvings the width and the height are those of the image,
/// divided by the `k`-th power of two and rounded down. So an image has the
/// level `k` exactly where both are at least that power.
pub proof fn lemma_level_size(r: Raster, k: nat)
    requires
        0 <= r.width,
        0 <= r.height,
    ensures
        level_of(r, k).width == r.width / (pow2(k) as int),
        level_of(r, k).height == r.height / (pow2(k) as int),
        !level_of(r, k).is_empty() <==> r.width >= pow2(k) && r.height >= pow2(k),
    decreases k,
{
    lemma_pow2_pos(k);
    let p = pow2(k) as int;
    if k == 0 {
        lemma2_to64();
    } else {
        lemma_level_size(r, (k - 1) as nat);
        lemma_pow2_pos((k - 1) as nat);
        lemma_pow2_unfold(k);
        let q = pow2((k - 1) as nat) as int;
        lemma_div_denominator(r.width, q, 2);
        lemma_div_denominator(r.height, q, 2);
        assert(q * 2 == p);
    }
    assert(r.width / p >= 1 <==> r.width >= p) by (nonlinear_arith)
        requires
            p > 0,
            r.width >= 0,
    ;
    assert(r.height / p >= 1 <==> r.height >= p) by (nonlinear_arith)
        requires
            p > 0,
            r.height >= 0,
    ;
}

/// The image is too small for the number of levels asked for.
#[derive(Clone, Copy, Debug, PartialEq, Eq, Structural)]
pub struct InsufficientResolution {
    /// The number of levels that the image does have.
    pub available: usize,
}

/// A pixel at `(x, y)` within the size has its place among the levels.
pub proof fn lemma_place(x: int, y: int, width: int, height: int)
    requires
        0 <= x < width,
        0 <= y < height,
    ensures
        0 <= y * width + x < width * height,
{
    assert(0 <= y * width && y * width + width <= height * width) by (nonlinear_arith)
        requires
            0 <= y < height,
            0 < width,
    ;
    assert(height * width == width * height) by (nonlinear_arith);
}

impl<T: CanRegister> View for Gray<T> {
    type V = Raster;

    open spec fn view(&self) -> Raster {
        Raster {
            width: self.width as int,
            height: self.height as int,
            levels: Seq::new(self.data@.len(), |i: int| self.data@[i].level()),
        }
    }
}

impl<T: CanRegister> Gray<T> {
    /// There is one level for each pixel.
    pub open spec fn well_formed(self) -> bool {
        self.data@.len() == self.width * self.height
    }

    /// Tells whether there is one level for each pixel.
    pub fn is_well_formed(&self) -> (ok: bool)
        ensures
            ok == self.well_formed(),
    {
        let width: u128 = self.width as u128;
        let height: u128 = self.height as u128;
        assert(width * height <= 0xffff_ffff_ffff_ffff * 0xffff_ffff_ffff_ffff) by (nonlinear_arith)
            requires
                0 <= width <= 0xffff_ffff_ffff_ffff,
                0 <= height <= 0xffff_ffff_ffff_ffff,
        ;
        self.data.len() as u128 == width * height
    }

    /// Computes the image at half the resolution.
    pub fn halve(&self) -> (out: Gray<T>)
        requires
            self.well_formed(),
        ensures
            out@ == halved(self@),
            out.well_formed(),
    {
        let width: usize = self.width;
        let w: usize = self.width / 2;
        let h: usize = self.height / 2;
        let ghost goal = halved(self@).levels;
        assert(w * h >= 0) by (nonlinear_arith)
            requires
                w >= 0,
                h >= 0,
        ;
        let mut data: Vec<T> = Vec::new();
        let mut y: usize = 0;
        while y < h
            invariant
                self.well_formed(),
                width == self.width,
                w == self.width / 2,
                h == self.height / 2,
                goal == halved(self@).levels,
                goal.len() == w * h,
                y <= h,
                data@.len() == y * w,
                forall|i: int| 0 <= i < data@.len() ==> (#[trigger] data@[i]).level() == goal[i],
            decreases h - y,
        {
            let mut x: usize = 0;
            while x < w
                invariant
                    self.well_formed(),
                    width == self.width,
                    w == self.width / 2,
                    h == self.height / 2,
                    goal == halved(self@).levels,
                    goal.len() == w * h,
                    y < h,
                    x <= w,
                    data@.len() == y * w + x,
                    forall|i: int|
                        0 <= i < data@.len() ==> (#[trigger] data@[i]).level() == goal[i],
                decreases w - x,
            {
                proof {
                    lemma_place(2 * x as int, 2 * y as int, width as int, self.height as int);
                    lemma_place(2 * x + 1, 2 * y as int, width as int, self.height as int);
                    lemma_place(2 * x as int, 2 * y + 1, width as int, self.height as int);
                    lemma_place(2 * x + 1, 2 * y + 1, width as int, self.height as int);
                    lemma_place(x as int, y as int, w as int, h as int);
                    lemma_fundamental_div_mod_converse(
                        y * w + x as int,
                        w as int,
                        y as int,
                        x as int,
                    );
                    assert(2 * y * width >= 0 && (2 * y + 1) * width == 2 * y * width + width)
                        by (nonlinear_arith);
                    assert(self.data.len() == width * self.height);
                    assert(2 * y * width + width + 2 * x + 1 < self.data.len());
                }
                let upper: usize = 2 * y * width + 2 * x;
                let lower: usize = upper + width;
                let a: T = self.data[upper];
                let b: T = self.data[upper + 1];
                let c: T = self.data[lower];
                let d: T = self.data[lower + 1];
                proof {
                    a.lemma_level_in_range();
                    b.lemma_level_in_range();
                    c.lemma_level_in_range();
                    d.lemma_level_in_range();
                }
                let top_sum = T::add_wide(a.widen(), b.widen());
                let bottom_sum = T::add_wide(c.widen(), d.widen());
                let mean: T = T::quarter(T::add_wide(top_sum, bottom_sum));
                assert(mean.level() == goal[y * w + x]) by {
                    assert(self@.at(2 * x as int, 2 * y as int) == a.level());
                    assert(self@.at(2 * x + 1, 2 * y as int) == b.level());
                    assert(self@.at(2 * x as int, 2 * y + 1) == c.level());
                    assert(self@.at(2 * x + 1, 2 * y + 1) == d.level());
                }
                data.push(mean);
                x = x + 1;
            }
            assert((y + 1) * w == y * w + w) by (nonlinear_arith);
            y = y + 1;
        }
        assert(h * w == w * h) by (nonlinear_arith);
        let out = Gray { width: w, height: h, data };
        assert(out@.levels =~= goal);
        out
    }

    /// Copies the image.
    pub fn copy(&self) -> (out: Gray<T>)
        ensures
            out@ == self@,
            out.width == self.width,
            out.height == self.height,
            out.data@ == self.data@,
    {
        let mut data: Vec<T> = Vec::new();
        let mut i: usize = 0;
        while i < self.data.len()
            invariant
                i <= self.data@.len(),
                data@ == self.data@.take(i as int),
            decreases self.data@.len() - i,
        {
            data.push(self.data[i]);
            assert(self.data@.take(i + 1) =~= self.data@.take(i as int).push(self.data@[i as int]));
            i = i + 1;
        }
        assert(self.data@.take(i as int) =~= self.data@);
        let out = Gray { width: self.width, height: self.height, data };
        assert(out@.levels =~= self@.levels);
        out
    }
}

/// Builds the images of a pyramid from the finest, which is the image given,
/// to the coarsest, each the half of the one before. It fails where one of
/// the levels asked for would have no pixel, and then tells how many levels
/// the image does have.
pub fn build_pyramid<T: CanRegister>(image: &Gray<T>, levels: usize) -> (r: Result<
    Vec<Gray<T>>,
    InsufficientResolution,
>)
    requires
        image.well_formed(),
    ensures
        r is Ok <==> forall|k: nat| k < levels ==> !(#[trigger] level_of(image@, k)).is_empty(),
        r is Ok ==> r->Ok_0@.len() == levels,
        r is Ok ==> forall|k: int|
            0 <= k < levels ==> (#[trigger] r->Ok_0@[k])@ == level_of(image@, k as nat)
                && r->Ok_0@[k].well_formed(),
        r is Err ==> r->Err_0.available < levels,
        r is Err ==> level_of(image@, r->Err_0.available as nat).is_empty(),
        r is Err ==> forall|k: nat|
            k < r->Err_0.available ==> !(#[trigger] level_of(image@, k)).is_empty(),
{
    let mut pyramid: Vec<Gray<T>> = Vec::new();
    let mut current: Gray<T> = image.copy();
    let mut k: usize = 0;
    while k < levels
        invariant
            k <= levels,
            current.well_formed(),
            current@ == level_of(image@, k as nat),
            pyramid@.len() == k,
            forall|j: nat| j < k ==> !(#[trigger] level_of(image@, j)).is_empty(),
            forall|j: int|
                0 <= j < k ==> (#[trigger] pyramid@[j])@ == level_of(image@, j as nat)
                    && pyramid@[j].well_formed(),
        decreases levels - k,
    {
        if current.width == 0 || current.height == 0 {
            return Err(InsufficientResolution { available: k });
        }
        let next = current.halve();
        pyramid.push(current);
        current = next;
        k = k + 1;
    }
    Ok(pyramid)
}

} // verus!
