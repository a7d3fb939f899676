//! Finding the specular highlight of the sphere in a blurred crop.
//!
//! A pixel counts when it lies in the disk of the mask and is brighter than
//! the threshold. The highlight is the centroid of the pixels that count,
//! each weighted by its luminance.

use vstd::prelude::*;
use vstd::arithmetic::div_mod::lemma_fundamental_div_mod_converse;
use crate::crop::Crop;
use crate::grid::{Picture, RgbGrid};
use crate::lightsource::{
    lemma_reflected_ray_well_formed, light_dir, reflected_ray, LightRay, PixelVector,
};
use crate::numeric::{round_div, Ratio};

verus! {

/// A pixel position within a crop.
#[derive(Clone, Copy, Debug, PartialEq, Eq, Structural)]
pub struct Point2D {
    pub x: u32,
    pub y: u32,
}

/// What a pixel of the crop is taken for.
#[derive(Clone, Copy, Debug, PartialEq, Eq, Structural)]
pub enum PixelClass {
    /// In the disk and brighter than the threshold: part of the highlight.
    Highlight,
    /// In the disk, but not brighter than the threshold.
    Dim,
    /// Outside the disk.
    Outside,
}

/// Twice the distance along one axis from the center of the crop to the
/// pixel at `pos` in the square whose corner is at `corner`.
pub open spec fn doubled_offset(pos: int, corner: int, center2: int) -> int {
    2 * (pos + corner) - center2
}

/// The pixel `(x, y)` of the square around the disk is no further from the
/// center of the crop than `mask_ray` times half the diagonal.
pub open spec fn in_mask(crop: Crop, mask_ray: Ratio, x: int, y: int) -> bool {
    let square = crop.bounding_square();
    let dx = doubled_offset(x, square.left as int, crop.center2_x());
    let dy = doubled_offset(y, square.top as int, crop.center2_y());
    (dx * dx + dy * dy) * (mask_ray.den * mask_ray.den) <= crop.diag_sq() * (mask_ray.num
        * mask_ray.num)
}

/// The luminance exceeds `threshold` times 255.
pub open spec fn is_bright(luma: u8, threshold: Ratio) -> bool {
    luma * threshold.den > 255 * threshold.num
}

/// The class of the pixel `(x, y)` with the given luminance.
pub open spec fn classify(
    crop: Crop,
    threshold: Ratio,
    mask_ray: Ratio,
    x: int,
    y: int,
    luma: u8,
) -> PixelClass {
    if !in_mask(crop, mask_ray, x, y) {
        PixelClass::Outside
    } else if is_bright(luma, threshold) {
        PixelClass::Highlight
    } else {
        PixelClass::Dim
    }
}

/// The class of each pixel of a crop that is `width` pixels wide, row after
/// row.
pub open spec fn classes(
    crop: Crop,
    threshold: Ratio,
    mask_ray: Ratio,
    width: int,
    lumas: Seq<u8>,
) -> Seq<PixelClass> {
    Seq::new(
        lumas.len(),
        |i: int| classify(crop, threshold, mask_ray, i % width, i / width, lumas[i]),
    )
}

/// The weight of each pixel: its luminance where it is part of the
/// highlight, zero elsewhere.
pub open spec fn weights(classes: Seq<PixelClass>, lumas: Seq<u8>) -> Seq<int> {
    Seq::new(
        classes.len(),
        |i: int|
            if classes[i] == PixelClass::Highlight {
                lumas[i] as int
            } else {
                0
            },
    )
}

/// The sum of the weights.
pub open spec fn total(w: Seq<int>) -> int
    decreases w.len(),
{
    if w.len() == 0 {
        0
    } else {
        total(w.drop_last()) + w.last()
    }
}

/// The sum of the weights, each times the column of its pixel.
pub open spec fn moment_x(w: Seq<int>, width: int) -> int
    decreases w.len(),
{
    if w.len() == 0 {
        0
    } else {
        moment_x(w.drop_last(), width) + ((w.len() - 1) % width) * w.last()
    }
}

/// The sum of the weights, each times the row of its pixel.
pub open spec fn moment_y(w: Seq<int>, width: int) -> int
    decreases w.len(),
{
    if w.len() == 0 {
        0
    } else {
        moment_y(w.drop_last(), width) + ((w.len() - 1) / width) * w.last()
    }
}

/// The weighted mean position, each coordinate rounded to the nearest pixel;
/// none where the weights add up to zero.
pub open spec fn centroid(w: Seq<int>, width: int) -> Option<Point2D> {
    if total(w) == 0 {
        None
    } else {
        Some(
            Point2D {
                x: round_div(moment_x(w, width), total(w)) as u32,
                y: round_div(moment_y(w, width), total(w)) as u32,
            },
        )
    }
}

/// The highlight of a crop that is `width` pixels wide: the centroid of its
/// bright pixels in the disk.
pub open spec fn highlight(
    crop: Crop,
    threshold: Ratio,
    mask_ray: Ratio,
    width: int,
    lumas: Seq<u8>,
) -> Option<Point2D> {
    centroid(weights(classes(crop, threshold, mask_ray, width, lumas), lumas), width)
}

/// The level of gray that stands for a pixel of the disk that is not part of
/// the highlight.
pub const DIM_GRAY: u8 = 50;

/// The level of gray that stands for a pixel outside the disk.
pub const OUTSIDE_WHITE: u8 = 255;

/// The bytes of the picture that shows the classes: a pixel of the highlight
/// keeps its color, every channel of another is `DIM_GRAY` in the disk and
/// `OUTSIDE_WHITE` outside it.
pub open spec fn rendered(classes: Seq<PixelClass>, data: Seq<u8>) -> Seq<u8> {
    Seq::new(
        data.len(),
        |j: int|
            match classes[j / 3] {
                PixelClass::Highlight => data[j],
                PixelClass::Dim => DIM_GRAY,
                PixelClass::Outside => OUTSIDE_WHITE,
            },
    )
}

/// The highlight of a blurred crop.
pub open spec fn frame_highlight(
    crop: Crop,
    threshold: Ratio,
    mask_ray: Ratio,
    grid: RgbGrid,
) -> Option<Point2D> {
    highlight(crop, threshold, mask_ray, grid.width as int, grid.lumas())
}

/// The picture that shows which pixels of a blurred crop count.
pub open spec fn frame_picture(
    crop: Crop,
    threshold: Ratio,
    mask_ray: Ratio,
    grid: RgbGrid,
) -> Picture {
    Picture {
        width: grid.width,
        height: grid.height,
        data: rendered(
            classes(crop, threshold, mask_ray, grid.width as int, grid.lumas()),
            grid.data@,
        ),
    }
}

/// The value is in the range of `i32`.
pub open spec fn fits_i32(v: int) -> bool {
    i32::MIN <= v <= i32::MAX
}

/// The ray that the sphere of a crop reflects from a highlight, seen in the
/// square around the disk: the center of the sphere is the center of the
/// crop in whole pixels, its radius the integer part of half the diagonal.
/// There is none without a highlight, for a highlight outside the sphere, or
/// where a coordinate is beyond the range of `i32`.
pub open spec fn sphere_ray(crop: Crop, spot: Option<Point2D>) -> Option<LightRay> {
    let square = crop.bounding_square();
    let center_x = crop.center2_x() / 2 - square.left;
    let center_y = crop.center2_y() / 2 - square.top;
    match spot {
        None => None,
        Some(p) => if fits_i32(crop.radius()) && fits_i32(center_x) && fits_i32(center_y)
            && fits_i32(square.left as int) && fits_i32(square.top as int) && fits_i32(p.x as int)
            && fits_i32(p.y as int) {
            reflected_ray(
                crop.radius() as i32,
                PixelVector { x: p.x as i32, y: p.y as i32 },
                PixelVector { x: center_x as i32, y: center_y as i32 },
                PixelVector { x: square.left as i32, y: square.top as i32 },
            )
        } else {
            None
        },
    }
}

/// The ray of a sphere is well formed.
pub proof fn lemma_sphere_ray_well_formed(crop: Crop, spot: Option<Point2D>)
    ensures
        sphere_ray(crop, spot) is Some ==> sphere_ray(crop, spot)->0.well_formed(),
{
    if sphere_ray(crop, spot) is Some {
        let square = crop.bounding_square();
        let p = spot->0;
        lemma_reflected_ray_well_formed(
            crop.radius() as i32,
            PixelVector { x: p.x as i32, y: p.y as i32 },
            PixelVector {
                x: (crop.center2_x() / 2 - square.left) as i32,
                y: (crop.center2_y() / 2 - square.top) as i32,
            },
            PixelVector { x: square.left as i32, y: square.top as i32 },
        );
    }
}

/// A crop together with the square around its disk and the two parameters
/// that decide which pixels count.
#[derive(Clone, Copy, Debug)]
pub struct Mask {
    pub crop: Crop,
    pub square: Crop,
    pub diag_sq: u128,
    pub threshold: Ratio,
    pub mask_ray: Ratio,
}

impl Mask {
    /// The square and the diagonal are those of the crop.
    pub open spec fn well_formed(self) -> bool {
        &&& self.crop.right >= self.crop.left
        &&& self.crop.bottom >= self.crop.top
        &&& self.square == self.crop.bounding_square()
        &&& self.diag_sq == self.crop.diag_sq()
    }

    /// Prepares the mask of a crop.
    pub fn new(crop: Crop, threshold: Ratio, mask_ray: Ratio) -> (mask: Mask)
        requires
            crop.right >= crop.left,
            crop.bottom >= crop.top,
        ensures
            mask.well_formed(),
            mask.crop == crop,
            mask.threshold == threshold,
            mask.mask_ray == mask_ray,
    {
        Mask {
            crop,
            square: crop.surrounding_square(),
            diag_sq: crop.diagonal_squared(),
            threshold,
            mask_ray,
        }
    }

    /// Classifies the pixel `(x, y)` of the square.
    pub fn classify(&self, x: u32, y: u32, luma: u8) -> (class: PixelClass)
        requires
            self.well_formed(),
        ensures
            class == classify(self.crop, self.threshold, self.mask_ray, x as int, y as int, luma),
    {
        let dx: i64 = 2 * (x as i64 + self.square.left as i64) - (self.crop.left as i64
            + self.crop.right as i64);
        let dy: i64 = 2 * (y as i64 + self.square.top as i64) - (self.crop.top as i64
            + self.crop.bottom as i64);
        let ax: u128 = if dx < 0 {
            (-dx) as u128
        } else {
            dx as u128
        };
        let ay: u128 = if dy < 0 {
            (-dy) as u128
        } else {
            dy as u128
        };
        let num: u128 = self.mask_ray.num as u128;
        let den: u128 = self.mask_ray.den as u128;
        assert(ax * ax == dx * dx && ax * ax <= 0x4_0000_0000 * 0x4_0000_0000) by (nonlinear_arith)
            requires
                ax == dx || ax == -dx,
                0 <= ax <= 0x4_0000_0000,
        ;
        assert(ay * ay == dy * dy && ay * ay <= 0x4_0000_0000 * 0x4_0000_0000) by (nonlinear_arith)
            requires
                ay == dy || ay == -dy,
                0 <= ay <= 0x4_0000_0000,
        ;
        assert(num * num <= 0xffff * 0xffff) by (nonlinear_arith)
            requires
                0 <= num <= 0xffff,
        ;
        assert(den * den <= 0xffff * 0xffff) by (nonlinear_arith)
            requires
                0 <= den <= 0xffff,
        ;
        let dist: u128 = ax * ax + ay * ay;
        let den_sq: u128 = den * den;
        let num_sq: u128 = num * num;
        assert(dist * den_sq <= (2 * 0x4_0000_0000 * 0x4_0000_0000) * (0xffff * 0xffff))
            by (nonlinear_arith)
            requires
                0 <= dist <= 2 * 0x4_0000_0000 * 0x4_0000_0000,
                0 <= den_sq <= 0xffff * 0xffff,
        ;
        proof {
            self.crop.lemma_diag_sq_bounded();
        }
        let luma_wide: u32 = luma as u32;
        let cut_den: u32 = self.threshold.den as u32;
        assert(luma_wide * cut_den <= 255 * 0xffff) by (nonlinear_arith)
            requires
                0 <= luma_wide <= 255,
                0 <= cut_den <= 0xffff,
        ;
        assert(self.diag_sq * num_sq <= (2 * 0xffff_ffff * 0xffff_ffff) * (0xffff * 0xffff))
            by (nonlinear_arith)
            requires
                0 <= self.diag_sq <= 2 * 0xffff_ffff * 0xffff_ffff,
                0 <= num_sq <= 0xffff * 0xffff,
        ;
        if dist * den_sq > self.diag_sq * num_sq {
            PixelClass::Outside
        } else if luma_wide * cut_den > 255 * self.threshold.num as u32 {
            PixelClass::Highlight
        } else {
            PixelClass::Dim
        }
    }

    /// Finds the highlight among the pixels of a crop that is `width` pixels
    /// wide and `height` high, given the luminance of each, row after row.
    pub fn locate(&self, width: u32, height: u32, lumas: &Vec<u8>) -> (spot: Option<Point2D>)
        requires
            self.well_formed(),
            lumas@.len() == width * height,
        ensures
            spot == highlight(self.crop, self.threshold, self.mask_ray, width as int, lumas@),
            spot is None <==> forall|i: int|
                0 <= i < lumas@.len() ==> classes(
                    self.crop,
                    self.threshold,
                    self.mask_ray,
                    width as int,
                    lumas@,
                )[i] != PixelClass::Highlight,
            spot is Some ==> spot->0.x < width && spot->0.y < height,
    {
        let n: usize = lumas.len();
        let ghost cls = classes(self.crop, self.threshold, self.mask_ray, width as int, lumas@);
        let ghost ws = weights(cls, lumas@);
        let mut total_weight: u128 = 0;
        let mut sum_x: u128 = 0;
        let mut sum_y: u128 = 0;
        let mut x: u32 = 0;
        let mut y: u32 = 0;
        let mut i: usize = 0;
        while i < n
            invariant
                self.well_formed(),
                n == lumas@.len(),
                n == width * height,
                cls == classes(self.crop, self.threshold, self.mask_ray, width as int, lumas@),
                ws == weights(cls, lumas@),
                i <= n,
                i == y * width + x,
                i < n ==> x < width && y < height,
                total_weight == total(ws.take(i as int)),
                sum_x == moment_x(ws.take(i as int), width as int),
                sum_y == moment_y(ws.take(i as int), width as int),
                total_weight <= 255 * i,
                sum_x <= 0xff_0000_0000 * i,
                sum_y <= 0xff_0000_0000 * i,
            decreases n - i,
        {
            proof {
                lemma_fundamental_div_mod_converse(i as int, width as int, y as int, x as int);
                assert(ws.take(i + 1).drop_last() =~= ws.take(i as int));
                assert(ws.take(i + 1).last() == ws[i as int]);
            }
            let weight: u128 = match self.classify(x, y, lumas[i]) {
                PixelClass::Highlight => lumas[i] as u128,
                _ => 0,
            };
            assert(weight == ws[i as int]);
            assert(x * weight <= 0xff_0000_0000 && y * weight <= 0xff_0000_0000)
                by (nonlinear_arith)
                requires
                    0 <= x <= 0xffff_ffff,
                    0 <= y <= 0xffff_ffff,
                    0 <= weight <= 255,
            ;
            total_weight = total_weight + weight;
            sum_x = sum_x + x as u128 * weight;
            sum_y = sum_y + y as u128 * weight;
            i = i + 1;
            if x + 1 == width {
                assert((y + 1) * width == y * width + width) by (nonlinear_arith);
                assert(i < n ==> y + 1 < height) by (nonlinear_arith)
                    requires
                        i == (y + 1) * width,
                        n == width * height,
                        y < height,
                        width > 0,
                ;
                x = 0;
                y = y + 1;
            } else {
                x = x + 1;
            }
        }
        proof {
            assert(ws.take(n as int) =~= ws);
            lemma_total_zero(ws);
            lemma_highlight_absent(
                self.crop,
                self.threshold,
                self.mask_ray,
                width as int,
                lumas@,
            );
            if n > 0 {
                assert(width > 0 && height > 0) by (nonlinear_arith)
                    requires
                        n == width * height,
                        n > 0,
                        width >= 0,
                        height >= 0,
                ;
                lemma_moments_bounded(ws, width as int, height as int);
            }
        }
        if total_weight == 0 {
            None
        } else {
            let px: u128 = (2 * sum_x + total_weight) / (2 * total_weight);
            let py: u128 = (2 * sum_y + total_weight) / (2 * total_weight);
            assert(px < width) by (nonlinear_arith)
                requires
                    px == (2 * sum_x + total_weight) / (2 * total_weight),
                    0 <= sum_x <= (width - 1) * total_weight,
                    total_weight > 0,
            ;
            assert(py < height) by (nonlinear_arith)
                requires
                    py == (2 * sum_y + total_weight) / (2 * total_weight),
                    0 <= sum_y <= (height - 1) * total_weight,
                    total_weight > 0,
            ;
            Some(Point2D { x: px as u32, y: py as u32 })
        }
    }

    /// Draws the picture that shows the class of each pixel of a blurred crop.
    pub fn render(&self, grid: &RgbGrid, lumas: &Vec<u8>) -> (picture: RgbGrid)
        requires
            self.well_formed(),
            grid.well_formed(),
            lumas@ == grid.lumas(),
        ensures
            picture@ == frame_picture(self.crop, self.threshold, self.mask_ray, *grid),
            picture.well_formed(),
    {
        let n: usize = lumas.len();
        let ghost cls = classes(
            self.crop,
            self.threshold,
            self.mask_ray,
            grid.width as int,
            lumas@,
        );
        let ghost goal = rendered(cls, grid.data@);
        assert(n > 0 ==> grid.width > 0 && grid.height > 0) by (nonlinear_arith)
            requires
                n == grid.width * grid.height,
        ;
        let mut data: Vec<u8> = Vec::new();
        let mut x: u32 = 0;
        let mut y: u32 = 0;
        let mut i: usize = 0;
        while i < n
            invariant
                self.well_formed(),
                n == lumas@.len(),
                n == grid.width * grid.height,
                grid.data.len() == 3 * n,
                cls == classes(
                    self.crop,
                    self.threshold,
                    self.mask_ray,
                    grid.width as int,
                    lumas@,
                ),
                goal == rendered(cls, grid.data@),
                i <= n,
                i == y * grid.width + x,
                i < n ==> x < grid.width && y < grid.height,
                data@ == goal.take(3 * i),
            decreases n - i,
        {
            proof {
                lemma_fundamental_div_mod_converse(
                    i as int,
                    grid.width as int,
                    y as int,
                    x as int,
                );
            }
            let class = self.classify(x, y, lumas[i]);
            assert(class == cls[i as int]);
            let mut k: usize = 0;
            while k < 3
                invariant
                    k <= 3,
                    i < n,
                    grid.data.len() == 3 * n,
                    goal == rendered(cls, grid.data@),
                    cls.len() == n,
                    class == cls[i as int],
                    data@ == goal.take(3 * i + k),
                decreases 3 - k,
            {
                let byte: u8 = match class {
                    PixelClass::Highlight => grid.data[3 * i + k],
                    PixelClass::Dim => DIM_GRAY,
                    PixelClass::Outside => OUTSIDE_WHITE,
                };
                assert(byte == goal[3 * i + k]);
                data.push(byte);
                assert(goal.take(3 * i + k + 1) =~= goal.take(3 * i + k).push(goal[3 * i + k]));
                k = k + 1;
            }
            i = i + 1;
            if x + 1 == grid.width {
                assert((y + 1) * grid.width == y * grid.width + grid.width) by (nonlinear_arith);
                assert(i < n ==> y + 1 < grid.height) by (nonlinear_arith)
                    requires
                        i == (y + 1) * grid.width,
                        n == grid.width * grid.height,
                        y < grid.height,
                        grid.width > 0,
                ;
                x = 0;
                y = y + 1;
            } else {
                x = x + 1;
            }
        }
        assert(goal.take(3 * n) =~= goal);
        RgbGrid { width: grid.width, height: grid.height, data }
    }

    /// Computes the ray that the sphere reflects from a highlight.
    pub fn ray_of(&self, spot: Option<Point2D>) -> (ray: Option<LightRay>)
        requires
            self.well_formed(),
        ensures
            ray == sphere_ray(self.crop, spot),
            ray is Some ==> ray->0.well_formed(),
    {
        let p = match spot {
            None => {
                return None;
            },
            Some(p) => p,
        };
        let radius: u32 = self.crop.sphere_radius();
        let center_x: i64 = ((self.crop.left as u64 + self.crop.right as u64) / 2) as i64
            - self.square.left as i64;
        let center_y: i64 = ((self.crop.top as u64 + self.crop.bottom as u64) / 2) as i64
            - self.square.top as i64;
        let limit: u32 = 0x7fff_ffff;
        if radius > limit || self.square.left > limit || self.square.top > limit || p.x > limit
            || p.y > limit || center_x < -0x8000_0000 || center_x > 0x7fff_ffff || center_y
            < -0x8000_0000 || center_y > 0x7fff_ffff {
            return None;
        }
        light_dir(
            radius as i32,
            PixelVector { x: p.x as i32, y: p.y as i32 },
            PixelVector { x: center_x as i32, y: center_y as i32 },
            PixelVector { x: self.square.left as i32, y: self.square.top as i32 },
        )
    }
}

/// What one sphere shows over a burst: for each frame the highlight, the
/// picture of the classes and the reflected ray.
pub struct ChannelHighlights {
    pub centers: Vec<Option<Point2D>>,
    pub pictures: Vec<RgbGrid>,
    pub rays: Vec<Option<LightRay>>,
}

impl ChannelHighlights {
    /// Each frame's entry is what the crop and the two parameters give for
    /// that frame's blurred crop.
    pub open spec fn describes(
        self,
        crop: Crop,
        threshold: Ratio,
        mask_ray: Ratio,
        blurred: Seq<RgbGrid>,
    ) -> bool {
        &&& self.centers@.len() == blurred.len()
        &&& self.pictures@.len() == blurred.len()
        &&& self.rays@.len() == blurred.len()
        &&& forall|i: int|
            0 <= i < blurred.len() ==> {
                &&& #[trigger] self.centers@[i] == frame_highlight(
                    crop,
                    threshold,
                    mask_ray,
                    blurred[i],
                )
                &&& self.rays@[i] == sphere_ray(crop, self.centers@[i])
            }
        &&& forall|i: int|
            0 <= i < blurred.len() ==> {
                &&& (#[trigger] self.pictures@[i])@ == frame_picture(
                    crop,
                    threshold,
                    mask_ray,
                    blurred[i],
                )
                &&& self.pictures@[i].well_formed()
            }
    }
}

/// Finds the highlight of one sphere in each frame of a burst, given the
/// blurred crop of each frame around the disk of that sphere. Without a crop
/// there is nothing to find, and for a crop that is not well formed nothing
/// is computed.
pub fn maxes(
    crop: Option<Crop>,
    blurred: &Vec<RgbGrid>,
    threshold: Ratio,
    mask_ray: Ratio,
) -> (found: Option<ChannelHighlights>)
    requires
        forall|i: int| 0 <= i < blurred@.len() ==> (#[trigger] blurred@[i]).well_formed(),
    ensures
        found is None <==> crop is None || !crop->0.well_formed(),
        found is Some ==> found->0.describes(crop->0, threshold, mask_ray, blurred@),
{
    let frame = match crop {
        None => {
            return None;
        },
        Some(frame) => frame,
    };
    if !frame.is_well_formed() {
        return None;
    }
    let mask = Mask::new(frame, threshold, mask_ray);
    let mut centers: Vec<Option<Point2D>> = Vec::new();
    let mut pictures: Vec<RgbGrid> = Vec::new();
    let mut rays: Vec<Option<LightRay>> = Vec::new();
    let mut i: usize = 0;
    while i < blurred.len()
        invariant
            i <= blurred@.len(),
            mask.well_formed(),
            mask.crop == frame,
            mask.threshold == threshold,
            mask.mask_ray == mask_ray,
            forall|j: int| 0 <= j < blurred@.len() ==> (#[trigger] blurred@[j]).well_formed(),
            (ChannelHighlights { centers, pictures, rays }).describes(
                frame,
                threshold,
                mask_ray,
                blurred@.take(i as int),
            ),
        decreases blurred@.len() - i,
    {
        let grid = &blurred[i];
        assert(grid.well_formed());
        let lumas = grid.luminances();
        let spot = mask.locate(grid.width, grid.height, &lumas);
        let picture = mask.render(grid, &lumas);
        let ray = mask.ray_of(spot);
        centers.push(spot);
        pictures.push(picture);
        rays.push(ray);
        i = i + 1;
    }
    assert(blurred@.take(i as int) =~= blurred@);
    Some(ChannelHighlights { centers, pictures, rays })
}

/// A crop has no highlight exactly where none of its pixels is both in the
/// disk and brighter than the threshold.
pub proof fn lemma_highlight_absent(
    crop: Crop,
    threshold: Ratio,
    mask_ray: Ratio,
    width: int,
    lumas: Seq<u8>,
)
    ensures
        highlight(crop, threshold, mask_ray, width, lumas) is None <==> forall|i: int|
            0 <= i < lumas.len() ==> classes(crop, threshold, mask_ray, width, lumas)[i]
                != PixelClass::Highlight,
{
    let cls = classes(crop, threshold, mask_ray, width, lumas);
    let ws = weights(cls, lumas);
    lemma_total_zero(ws);
    assert forall|k: int| 0 <= k < lumas.len() implies (ws[k] == 0 <==> cls[k]
        != PixelClass::Highlight) by {
        if cls[k] == PixelClass::Highlight {
            assert(is_bright(lumas[k], threshold));
            assert(lumas[k] > 0) by (nonlinear_arith)
                requires
                    lumas[k] * threshold.den > 255 * threshold.num,
                    threshold.den >= 0,
                    threshold.num >= 0,
            ;
        }
    }
}

/// Under a threshold of one or more, no pixel is bright enough: no crop has
/// a highlight.
pub proof fn lemma_full_threshold(
    crop: Crop,
    threshold: Ratio,
    mask_ray: Ratio,
    width: int,
    lumas: Seq<u8>,
)
    requires
        threshold.den > 0,
        threshold.num >= threshold.den,
    ensures
        highlight(crop, threshold, mask_ray, width, lumas) is None,
{
    lemma_highlight_absent(crop, threshold, mask_ray, width, lumas);
    assert forall|i: int| 0 <= i < lumas.len() implies classes(
        crop,
        threshold,
        mask_ray,
        width,
        lumas,
    )[i] != PixelClass::Highlight by {
        assert(!is_bright(lumas[i], threshold)) by (nonlinear_arith)
            requires
                lumas[i] <= 255,
                threshold.den > 0,
                threshold.num >= threshold.den,
        ;
    }
}

/// Weights that are not negative add up to zero only where each is zero.
pub proof fn lemma_total_zero(w: Seq<int>)
    requires
        forall|i: int| 0 <= i < w.len() ==> w[i] >= 0,
    ensures
        total(w) >= 0,
        total(w) == 0 <==> forall|i: int| 0 <= i < w.len() ==> w[i] == 0,
    decreases w.len(),
{
    if w.len() > 0 {
        let front = w.drop_last();
        lemma_total_zero(front);
        if total(w) == 0 {
            assert forall|i: int| 0 <= i < w.len() implies w[i] == 0 by {
                if i < w.len() - 1 {
                    assert(front[i] == 0);
                }
            }
        }
        if forall|i: int| 0 <= i < w.len() ==> w[i] == 0 {
            assert forall|i: int| 0 <= i < front.len() implies front[i] == 0 by {
                assert(w[i] == 0);
            }
        }
    }
}

/// The centroid of weights that are not negative lies within the crop: the
/// moments are bounded by the total weight times the last column and row.
pub proof fn lemma_moments_bounded(w: Seq<int>, width: int, height: int)
    requires
        width > 0,
        w.len() <= width * height,
        forall|i: int| 0 <= i < w.len() ==> w[i] >= 0,
    ensures
        0 <= moment_x(w, width) <= (width - 1) * total(w),
        0 <= moment_y(w, width) <= (height - 1) * total(w),
    decreases w.len(),
{
    if w.len() > 0 {
        let front = w.drop_last();
        let k = w.len() - 1;
        let last = w.last();
        lemma_moments_bounded(front, width, height);
        lemma_total_zero(front);
        let col = k % width;
        let row = k / width;
        assert(0 <= col < width && 0 <= row < height) by (nonlinear_arith)
            requires
                col == k % width,
                row == k / width,
                0 <= k < width * height,
                width > 0,
        ;
        assert(0 <= col * last <= (width - 1) * last) by (nonlinear_arith)
            requires
                0 <= col <= width - 1,
                last >= 0,
        ;
        assert(0 <= row * last <= (height - 1) * last) by (nonlinear_arith)
            requires
                0 <= row <= height - 1,
                last >= 0,
        ;
        assert((width - 1) * (total(front) + last) == (width - 1) * total(front) + (width - 1)
            * last) by (nonlinear_arith);
        assert((height - 1) * (total(front) + last) == (height - 1) * total(front) + (height - 1)
            * last) by (nonlinear_arith);
    } else {
        assert((width - 1) * 0 == 0);
        assert((height - 1) * 0 == 0);
    }
}

} // verus!
