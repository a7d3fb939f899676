//! The light ray that a mirror sphere reflects towards the viewer.
//!
//! The viewer is taken to stand straight above the sphere, so the view vector
//! is `(0, 0, 1)`. All quantities are kept exact: a length that is the square
//! root of an integer is held as that integer.

use vstd::prelude::*;

verus! {

/// A pair of pixel coordinates, or the difference of two.
#[derive(Clone, Copy, Debug, PartialEq, Eq, Structural)]
pub struct PixelVector {
    pub x: i32,
    pub y: i32,
}

/// A reflected ray, in exact form.
///
/// With `h` the square root of `height_sq`, the ray leaves the sphere at
/// `(origin_x, origin_y, h)`, and its direction is
/// `(2 * offset_x * h, 2 * offset_y * h, 2 * height_sq - radius_sq)` divided
/// by `radius_sq`.
#[derive(Clone, Copy, Debug, PartialEq, Eq, Structural)]
pub struct LightRay {
    /// The highlight's position relative to the center of the sphere.
    pub offset_x: i64,
    pub offset_y: i64,
    /// The square of the sphere's radius.
    pub radius_sq: i64,
    /// The square of the height of the sphere's surface above the highlight.
    pub height_sq: i64,
    /// The point of the surface under the highlight: the offset, moved by
    /// the corner of the crop in the full image.
    pub origin_x: i64,
    pub origin_y: i64,
}

impl LightRay {
    /// The highlight lies on a sphere of positive radius.
    pub open spec fn well_formed(self) -> bool {
        &&& self.radius_sq > 0
        &&& self.height_sq >= 0
        &&& self.height_sq == self.radius_sq - self.offset_x * self.offset_x - self.offset_y
            * self.offset_y
    }

    /// Tells whether the highlight lies on a sphere of positive radius.
    pub fn is_well_formed(&self) -> (ok: bool)
        ensures
            ok == self.well_formed(),
    {
        let limit: i64 = 0x1_0000_0000;
        if self.radius_sq <= 0 || self.height_sq < 0 {
            return false;
        }
        if self.offset_x >= limit || self.offset_x <= -limit || self.offset_y >= limit
            || self.offset_y <= -limit {
            proof {
                let x = self.offset_x as int;
                let y = self.offset_y as int;
                assert(x * x >= 0 && y * y >= 0) by (nonlinear_arith);
                assert(x * x >= 0x1_0000_0000 * 0x1_0000_0000 || y * y >= 0x1_0000_0000
                    * 0x1_0000_0000) by (nonlinear_arith)
                    requires
                        x >= 0x1_0000_0000 || x <= -0x1_0000_0000 || y >= 0x1_0000_0000 || y
                            <= -0x1_0000_0000,
                ;
            }
            return false;
        }
        let x: i128 = self.offset_x as i128;
        let y: i128 = self.offset_y as i128;
        assert(0 <= x * x <= 0x1_0000_0000 * 0x1_0000_0000) by (nonlinear_arith)
            requires
                -0x1_0000_0000 < x < 0x1_0000_0000,
        ;
        assert(0 <= y * y <= 0x1_0000_0000 * 0x1_0000_0000) by (nonlinear_arith)
            requires
                -0x1_0000_0000 < y < 0x1_0000_0000,
        ;
        self.height_sq as i128 == self.radius_sq as i128 - x * x - y * y
    }

    /// The factor of the surface height in the first component of the
    /// direction, before the division by `radius_sq`.
    pub open spec fn dir_x_factor(self) -> int {
        2 * self.offset_x
    }

    /// The factor of the surface height in the second component of the
    /// direction, before the division by `radius_sq`.
    pub open spec fn dir_y_factor(self) -> int {
        2 * self.offset_y
    }

    /// The third component of the direction, before the division by
    /// `radius_sq`.
    pub open spec fn dir_z_scaled(self) -> int {
        2 * self.height_sq - self.radius_sq
    }

    /// Computes the factor of the surface height in the first component.
    pub fn x_factor(&self) -> (f: i64)
        requires
            self.well_formed(),
        ensures
            f == self.dir_x_factor(),
    {
        proof {
            self.lemma_offsets_bounded();
        }
        2 * self.offset_x
    }

    /// Computes the factor of the surface height in the second component.
    pub fn y_factor(&self) -> (f: i64)
        requires
            self.well_formed(),
        ensures
            f == self.dir_y_factor(),
    {
        proof {
            self.lemma_offsets_bounded();
        }
        2 * self.offset_y
    }

    /// Computes the third component, scaled by `radius_sq`.
    pub fn z_scaled(&self) -> (z: i64)
        requires
            self.well_formed(),
        ensures
            z == self.dir_z_scaled(),
    {
        assert(self.offset_x * self.offset_x >= 0) by (nonlinear_arith);
        assert(self.offset_y * self.offset_y >= 0) by (nonlinear_arith);
        self.height_sq - (self.radius_sq - self.height_sq)
    }

    /// The highlight is no further from the center than the radius, along
    /// each axis.
    pub proof fn lemma_offsets_bounded(self)
        requires
            self.well_formed(),
        ensures
            self.offset_x * self.offset_x <= self.radius_sq,
            self.offset_y * self.offset_y <= self.radius_sq,
            -0x1_0000_0000 < self.offset_x < 0x1_0000_0000,
            -0x1_0000_0000 < self.offset_y < 0x1_0000_0000,
    {
        let x = self.offset_x as int;
        let y = self.offset_y as int;
        assert(x * x >= 0) by (nonlinear_arith);
        assert(y * y >= 0) by (nonlinear_arith);
        assert(-0x1_0000_0000 < x < 0x1_0000_0000) by (nonlinear_arith)
            requires
                x * x <= 0x7fff_ffff_ffff_ffff,
        ;
        assert(-0x1_0000_0000 < y < 0x1_0000_0000) by (nonlinear_arith)
            requires
                y * y <= 0x7fff_ffff_ffff_ffff,
        ;
    }

    /// The direction has length one: the squares of its three components,
    /// each still scaled by `radius_sq`, add up to the square of `radius_sq`.
    pub proof fn lemma_unit_direction(self)
        requires
            self.well_formed(),
        ensures
            (self.dir_x_factor() * self.dir_x_factor() + self.dir_y_factor() * self.dir_y_factor())
                * self.height_sq + self.dir_z_scaled() * self.dir_z_scaled() == self.radius_sq
                * self.radius_sq,
    {
        let x = self.offset_x as int;
        let y = self.offset_y as int;
        let r2 = self.radius_sq as int;
        let h2 = self.height_sq as int;
        assert(((2 * x) * (2 * x) + (2 * y) * (2 * y)) * h2 + (2 * h2 - r2) * (2 * h2 - r2) == r2
            * r2) by (nonlinear_arith)
            requires
                h2 == r2 - x * x - y * y,
        ;
    }

    /// The ray leaves the surface at the angle at which the view meets it:
    /// the direction and the view vector have the same component along the
    /// surface normal `(offset_x, offset_y, h)`, once the common factor `h`
    /// is taken out.
    pub proof fn lemma_mirror_angle(self)
        requires
            self.well_formed(),
        ensures
            self.dir_x_factor() * self.offset_x + self.dir_y_factor() * self.offset_y
                + self.dir_z_scaled() == self.radius_sq,
    {
        let x = self.offset_x as int;
        let y = self.offset_y as int;
        let r2 = self.radius_sq as int;
        let h2 = self.height_sq as int;
        assert((2 * x) * x + (2 * y) * y + (2 * h2 - r2) == r2) by (nonlinear_arith)
            requires
                h2 == r2 - x * x - y * y,
        ;
    }
}

/// The ray reflected by a sphere of the given radius whose highlight is seen
/// at `light_bulb`, where `center` is the center of the sphere, both in the
/// frame of the crop, and `sphere_pos` the corner of the crop in the full
/// image. There is none where the radius is zero or the highlight lies
/// outside the silhouette of the sphere.
pub open spec fn reflected_ray(
    radius: i32,
    light_bulb: PixelVector,
    center: PixelVector,
    sphere_pos: PixelVector,
) -> Option<LightRay> {
    let x = light_bulb.x - center.x;
    let y = light_bulb.y - center.y;
    let height_sq = radius * radius - x * x - y * y;
    if radius == 0 || height_sq < 0 {
        None
    } else {
        Some(
            LightRay {
                offset_x: x as i64,
                offset_y: y as i64,
                radius_sq: (radius * radius) as i64,
                height_sq: height_sq as i64,
                origin_x: (x + sphere_pos.x) as i64,
                origin_y: (y + sphere_pos.y) as i64,
            },
        )
    }
}

/// A reflected ray is well formed.
pub proof fn lemma_reflected_ray_well_formed(
    radius: i32,
    light_bulb: PixelVector,
    center: PixelVector,
    sphere_pos: PixelVector,
)
    ensures
        reflected_ray(radius, light_bulb, center, sphere_pos) is Some ==> reflected_ray(
            radius,
            light_bulb,
            center,
            sphere_pos,
        )->0.well_formed(),
{
    let r = radius as int;
    let x = light_bulb.x - center.x;
    let y = light_bulb.y - center.y;
    assert(0 <= r * r <= 0x8000_0000 * 0x8000_0000) by (nonlinear_arith)
        requires
            -0x8000_0000 <= r <= 0x8000_0000,
    ;
    assert(r != 0 ==> r * r > 0) by (nonlinear_arith);
    assert(x * x >= 0 && y * y >= 0) by (nonlinear_arith);
}

/// Computes the light ray that the sphere reflects.
pub fn light_dir(
    radius: i32,
    light_bulb: PixelVector,
    center: PixelVector,
    sphere_pos: PixelVector,
) -> (ray: Option<LightRay>)
    ensures
        ray == reflected_ray(radius, light_bulb, center, sphere_pos),
        ray is Some ==> ray->0.well_formed(),
        ray is None <==> radius == 0 || (light_bulb.x - center.x) * (light_bulb.x - center.x) + (
        light_bulb.y - center.y) * (light_bulb.y - center.y) > radius * radius,
{
    let x: i64 = light_bulb.x as i64 - center.x as i64;
    let y: i64 = light_bulb.y as i64 - center.y as i64;
    let r: i64 = radius as i64;
    assert(0 <= r * r <= 0x8000_0000 * 0x8000_0000) by (nonlinear_arith)
        requires
            -0x8000_0000 <= r <= 0x8000_0000,
    ;
    assert(0 <= x * x <= 0xffff_ffff * 0xffff_ffff) by (nonlinear_arith)
        requires
            -0xffff_ffff <= x <= 0xffff_ffff,
    ;
    assert(0 <= y * y <= 0xffff_ffff * 0xffff_ffff) by (nonlinear_arith)
        requires
            -0xffff_ffff <= y <= 0xffff_ffff,
    ;
    assert(r != 0 ==> r * r > 0) by (nonlinear_arith);
    let radius_sq: i64 = r * r;
    let dist_sq: i128 = (x as i128) * (x as i128) + (y as i128) * (y as i128);
    if radius == 0 || dist_sq > radius_sq as i128 {
        None
    } else {
        Some(
            LightRay {
                offset_x: x,
                offset_y: y,
                radius_sq,
                height_sq: (radius_sq as i128 - dist_sq) as i64,
                origin_x: x + sphere_pos.x as i64,
                origin_y: y + sphere_pos.y as i64,
            },
        )
    }
}

/// A highlight at the very center of the sphere is reflected straight back
/// along the view vector: the direction is `(0, 0, 1)`, the surface is one
/// radius high there, and the origin is the corner of the crop.
pub proof fn lemma_central_highlight(radius: i32, center: PixelVector, sphere_pos: PixelVector)
    requires
        radius != 0,
    ensures
        reflected_ray(radius, center, center, sphere_pos) is Some,
        ({
            let ray = reflected_ray(radius, center, center, sphere_pos)->0;
            &&& ray.well_formed()
            &&& ray.dir_x_factor() == 0
            &&& ray.dir_y_factor() == 0
            &&& ray.dir_z_scaled() == ray.radius_sq
            &&& ray.height_sq == radius * radius
            &&& ray.origin_x == sphere_pos.x
            &&& ray.origin_y == sphere_pos.y
        }),
{
    let r = radius as int;
    assert(0 < r * r <= 0x8000_0000 * 0x8000_0000) by (nonlinear_arith)
        requires
            -0x8000_0000 <= r <= 0x8000_0000,
            r != 0,
    ;
}

} // verus!
