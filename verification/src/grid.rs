//! Pictures as plain rows of bytes.

use vstd::prelude::*;
use image::DynamicImage;
use crate::codec::{dimensions, dims_of, luma, rgb_of, srgb_luma, to_rgb};

verus! {

/// An 8-bit RGB picture: three bytes per pixel, row after row.
#[derive(Clone, Debug, PartialEq, Eq)]
pub struct RgbGrid {
    pub width: u32,
    pub height: u32,
    pub data: Vec<u8>,
}

/// What a picture holds.
pub struct Picture {
    pub width: u32,
    pub height: u32,
    pub data: Seq<u8>,
}

impl View for RgbGrid {
    type V = Picture;

    open spec fn view(&self) -> Picture {
        Picture { width: self.width, height: self.height, data: self.data@ }
    }
}

impl RgbGrid {
    /// The number of pixels.
    pub open spec fn area(self) -> int {
        self.width * self.height
    }

    /// There are three bytes for each pixel.
    pub open spec fn well_formed(self) -> bool {
        self.data@.len() == 3 * self.area()
    }

    /// The luminance of each pixel, row after row.
    pub open spec fn lumas(self) -> Seq<u8> {
        Seq::new(
            self.area() as nat,
            |i: int| srgb_luma(self.data@[3 * i], self.data@[3 * i + 1], self.data@[3 * i + 2]),
        )
    }

    /// Tells whether there are three bytes for each pixel.
    pub fn is_well_formed(&self) -> (ok: bool)
        ensures
            ok == self.well_formed(),
    {
        assert(self.width * self.height <= 0xffff_ffff * 0xffff_ffff) by (nonlinear_arith)
            requires
                self.width <= 0xffff_ffff,
                self.height <= 0xffff_ffff,
        ;
        let area: u64 = self.width as u64 * self.height as u64;
        self.data.len() as u128 == 3 * (area as u128)
    }

    /// Computes the luminance of each pixel.
    pub fn luminances(&self) -> (out: Vec<u8>)
        requires
            self.well_formed(),
        ensures
            out@ == self.lumas(),
    {
        let n: usize = self.data.len() / 3;
        let mut out: Vec<u8> = Vec::new();
        let mut i: usize = 0;
        while i < n
            invariant
                i <= n,
                n == self.area(),
                self.data.len() == 3 * n,
                out@ == self.lumas().take(i as int),
            decreases n - i,
        {
            let l: u8 = luma(self.data[3 * i], self.data[3 * i + 1], self.data[3 * i + 2]);
            out.push(l);
            assert(out@ == self.lumas().take(i + 1)) by {
                assert(self.lumas().take(i + 1) =~= self.lumas().take(i as int).push(
                    self.lumas()[i as int],
                ));
            }
            i = i + 1;
        }
        assert(self.lumas().take(n as int) =~= self.lumas());
        out
    }
}

/// Three bytes for each pixel of the image can be counted in `usize`.
pub open spec fn fits_rgb(img: DynamicImage) -> bool {
    3 * dims_of(img).0 * dims_of(img).1 <= usize::MAX
}

/// Makes the 8-bit RGB picture of an image; none of an image so large that
/// the bytes of the picture cannot be counted.
pub fn to_grid(img: &DynamicImage) -> (grid: Option<RgbGrid>)
    ensures
        grid is Some <==> fits_rgb(*img),
        grid is Some ==> grid->0@ == rgb_of(*img) && grid->0.well_formed(),
        grid is Some ==> grid->0.width == dims_of(*img).0 && grid->0.height == dims_of(*img).1,
{
    let (width, height) = dimensions(img);
    assert(3 * width * height <= 3 * 0xffff_ffff * 0xffff_ffff) by (nonlinear_arith)
        requires
            0 <= width <= 0xffff_ffff,
            0 <= height <= 0xffff_ffff,
    ;
    let bytes: u128 = 3 * (width as u128) * (height as u128);
    if bytes <= usize::MAX as u128 {
        Some(to_rgb(img))
    } else {
        None
    }
}

} // verus!
