//! One burst: the images loaded so far and what the last run found in them.

use vstd::prelude::*;
use image::DynamicImage;
use crate::codec::{
    cropped, cut, cut_size, decode, decoded, dims_of, encode_image, encode_rgb, error_text, layout,
    layout_of, png_of, rgb_png, PixelLayout,
};
use crate::crop::Crop;
use crate::grid::RgbGrid;
use crate::highlight::{lemma_sphere_ray_well_formed, maxes, ChannelHighlights, Point2D};
use crate::lightsource::LightRay;
use crate::numeric::Ratio;
use crate::records::{column, lemma_column_members, rows, transpose_records};
use crate::registration::Config;

verus! {

/// The number of spheres that a burst may show, one in each corner: top
/// left, top right, bottom left, bottom right.
pub const CHANNELS: usize = 4;

/// The parameters of a run.
#[derive(Clone, Copy, Debug)]
pub struct Args {
    pub config: Config,
    pub equalize: Option<Ratio>,
    pub crop_t_l: Option<Crop>,
    pub crop_t_r: Option<Crop>,
    pub crop_b_l: Option<Crop>,
    pub crop_b_r: Option<Crop>,
}

impl Args {
    /// The crop of a channel.
    pub open spec fn crop_of(self, channel: int) -> Option<Crop> {
        if channel == 0 {
            self.crop_t_l
        } else if channel == 1 {
            self.crop_t_r
        } else if channel == 2 {
            self.crop_b_l
        } else {
            self.crop_b_r
        }
    }

    /// Gets the crop of a channel.
    pub fn crop(&self, channel: usize) -> (crop: Option<Crop>)
        ensures
            crop == self.crop_of(channel as int),
    {
        if channel == 0 {
            self.crop_t_l
        } else if channel == 1 {
            self.crop_t_r
        } else if channel == 2 {
            self.crop_b_l
        } else {
            self.crop_b_r
        }
    }

    /// The channel has a crop that is not well formed.
    pub open spec fn is_malformed(self, channel: int) -> bool {
        self.crop_of(channel) is Some && !self.crop_of(channel)->0.well_formed()
    }

    /// The first channel whose crop is not well formed, if there is one.
    pub open spec fn first_malformed(self) -> Option<usize> {
        if self.is_malformed(0) {
            Some(0usize)
        } else if self.is_malformed(1) {
            Some(1usize)
        } else if self.is_malformed(2) {
            Some(2usize)
        } else if self.is_malformed(3) {
            Some(3usize)
        } else {
            None
        }
    }

    /// Looks for the first channel whose crop is not well formed.
    pub fn find_malformed(&self) -> (found: Option<usize>)
        ensures
            found == self.first_malformed(),
    {
        let mut channel: usize = 0;
        while channel < CHANNELS
            invariant
                channel <= CHANNELS,
                channel >= 1 ==> !self.is_malformed(0),
                channel >= 2 ==> !self.is_malformed(1),
                channel >= 3 ==> !self.is_malformed(2),
                channel >= 4 ==> !self.is_malformed(3),
            decreases CHANNELS - channel,
        {
            match self.crop(channel) {
                Some(crop) => {
                    if !crop.is_well_formed() {
                        return Some(channel);
                    }
                },
                None => {},
            }
            channel = channel + 1;
        }
        None
    }
}

/// Why an image was not loaded.
#[derive(Debug)]
pub enum LoadError {
    /// The file could not be decoded; the decoder's words are given.
    Decode(String),
    /// The channels are stored in the order blue, green, red.
    BgrOrder,
    /// The image has an alpha channel.
    AlphaChannel,
}

impl LoadError {
    /// Describes the failure.
    pub fn message(&self) -> (m: String)
        ensures
            self is BgrOrder ==> m@ == "BGR order not supported"@,
            self is AlphaChannel ==> m@ == "Alpha channel not supported"@,
            self is Decode ==> m@ == self->Decode_0@,
    {
        match self {
            LoadError::Decode(text) => text.clone(),
            LoadError::BgrOrder => "BGR order not supported".to_owned(),
            LoadError::AlphaChannel => "Alpha channel not supported".to_owned(),
        }
    }
}

/// Why a run did not start.
#[derive(Clone, Copy, Debug, PartialEq, Eq, Structural)]
pub enum RunError {
    /// The crop of the given channel is not well formed: it has no width or
    /// no height, or the sphere in it has a radius of less than one whole
    /// pixel, as the crop of a single pixel has.
    MalformedCrop(usize),
}

/// Why no file was written.
#[derive(Debug)]
pub enum EncodeError {
    /// The bytes of the picture are too many to count.
    TooLarge,
    /// The encoder failed; its words are given.
    Encoder(String),
}

/// Three bytes for each pixel of a picture of this size, and one more, can be
/// counted in `usize`.
pub open spec fn can_be_written(width: u32, height: u32) -> bool {
    3 * width * height < usize::MAX
}

/// The layout stores the channels in the order blue, green, red.
pub open spec fn is_bgr(l: PixelLayout) -> bool {
    l == PixelLayout::Bgr8 || l == PixelLayout::Bgra8
}

/// The layout has an alpha channel.
pub open spec fn has_alpha(l: PixelLayout) -> bool {
    l == PixelLayout::LumaA8 || l == PixelLayout::LumaA16 || l == PixelLayout::Rgba8 || l
        == PixelLayout::Rgba16 || l == PixelLayout::Bgra8
}

/// The layout is one that a burst may hold: one or three channels of 8 or 16
/// bits, in the order red, green, blue.
pub open spec fn is_supported(l: PixelLayout) -> bool {
    !is_bgr(l) && !has_alpha(l)
}

/// Decides whether an image of the given layout may join a burst.
pub fn accept_layout(l: PixelLayout) -> (r: Result<(), LoadError>)
    ensures
        r is Ok <==> is_supported(l),
        r is Err ==> (r->Err_0 is BgrOrder <==> is_bgr(l)),
        r is Err ==> (r->Err_0 is AlphaChannel <==> !is_bgr(l)),
{
    match l {
        PixelLayout::Bgr8 | PixelLayout::Bgra8 => Err(LoadError::BgrOrder),
        PixelLayout::LumaA8 | PixelLayout::LumaA16 | PixelLayout::Rgba8 | PixelLayout::Rgba16 => Err(
            LoadError::AlphaChannel,
        ),
        _ => Ok(()),
    }
}

/// The bytes of the picture that stands for a channel without a crop: two
/// by two pixels, yellow on one diagonal and black on the other.
pub open spec fn placeholder_data() -> Seq<u8> {
    seq![255u8, 255u8, 0u8, 0u8, 0u8, 0u8, 0u8, 0u8, 0u8, 255u8, 255u8, 0u8]
}

/// The rays of each channel, frame after frame; a channel without a crop
/// has none.
pub open spec fn ray_table(channels: Seq<Option<ChannelHighlights>>) -> Seq<Seq<Option<LightRay>>> {
    Seq::new(
        channels.len(),
        |c: int|
            match channels[c] {
                None => Seq::empty(),
                Some(found) => found.rays@,
            },
    )
}

/// The rays that are there, in their order.
pub open spec fn present(row: Seq<Option<LightRay>>) -> Seq<LightRay>
    decreases row.len(),
{
    if row.len() == 0 {
        Seq::empty()
    } else {
        match row.last() {
            None => present(row.drop_last()),
            Some(ray) => present(row.drop_last()).push(ray),
        }
    }
}

/// Each channel holds what its crop gives on its blurred crops; a channel
/// without a crop holds nothing, and no channel holds anything where one of
/// the crops is not well formed.
pub open spec fn channels_describe(
    channels: Seq<Option<ChannelHighlights>>,
    args: Args,
    blurred: Seq<Vec<RgbGrid>>,
) -> bool {
    &&& channels.len() == CHANNELS
    &&& forall|c: int|
        0 <= c < CHANNELS ==> {
            &&& (#[trigger] channels[c] is None <==> args.crop_of(c) is None
                || args.first_malformed() is Some)
            &&& channels[c] is Some ==> channels[c]->0.describes(
                args.crop_of(c)->0,
                args.config.threshold,
                args.config.mask_ray,
                blurred[c]@,
            )
        }
}

/// Finds the highlights of the four channels, each on its own blurred
/// crops. Where one of the crops is not well formed, nothing is looked for
/// in any channel.
pub fn crop_and_register(args: &Args, blurred: &Vec<Vec<RgbGrid>>) -> (found: Vec<
    Option<ChannelHighlights>,
>)
    requires
        blurred@.len() == CHANNELS,
        forall|c: int, i: int|
            0 <= c < CHANNELS && 0 <= i < blurred@[c]@.len() ==> (
            #[trigger] blurred@[c]@[i]).well_formed(),
    ensures
        channels_describe(found@, *args, blurred@),
{
    let refused = args.find_malformed().is_some();
    let mut found: Vec<Option<ChannelHighlights>> = Vec::new();
    let mut channel: usize = 0;
    while channel < CHANNELS
        invariant
            channel <= CHANNELS,
            refused == args.first_malformed() is Some,
            blurred@.len() == CHANNELS,
            forall|c: int, i: int|
                0 <= c < CHANNELS && 0 <= i < blurred@[c]@.len() ==> (
                #[trigger] blurred@[c]@[i]).well_formed(),
            found@.len() == channel,
            forall|c: int|
                0 <= c < channel ==> {
                    &&& (#[trigger] found@[c] is None <==> args.crop_of(c) is None
                        || args.first_malformed() is Some)
                    &&& found@[c] is Some ==> found@[c]->0.describes(
                        args.crop_of(c)->0,
                        args.config.threshold,
                        args.config.mask_ray,
                        blurred@[c]@,
                    )
                },
        decreases CHANNELS - channel,
    {
        let crop = args.crop(channel);
        let grids = &blurred[channel];
        assert forall|i: int| 0 <= i < grids@.len() implies (#[trigger] grids@[i]).well_formed() by {
            assert(blurred@[channel as int]@[i].well_formed());
        }
        let outcome = if refused {
            None
        } else {
            maxes(crop, grids, args.config.threshold, args.config.mask_ray)
        };
        found.push(outcome);
        channel = channel + 1;
    }
    found
}

/// The state of one burst.
pub struct SelectBallInner {
    /// The names of the loaded images.
    pub image_ids: Vec<String>,
    /// The loaded images, in the order of their names.
    pub dataset: Vec<DynamicImage>,
    /// What the last run found in each channel.
    pub channels: Vec<Option<ChannelHighlights>>,
    /// The rays of the last run, by frame: for each frame one entry for each
    /// channel with a crop, in the order of the channels.
    pub light_rays: Vec<Vec<Option<LightRay>>>,
}

impl SelectBallInner {
    /// There is a name for each image and a place for each channel, the
    /// pictures of each channel have three bytes for each pixel, and every
    /// ray by frame is well formed.
    pub open spec fn well_formed(self) -> bool {
        &&& self.image_ids@.len() == self.dataset@.len()
        &&& forall|i: int, k: int|
            0 <= i < self.light_rays@.len() && 0 <= k < self.light_rays@[i]@.len() && (
            #[trigger] self.light_rays@[i]@[k]) is Some ==> self.light_rays@[i]@[k]->0.well_formed()
        &&& self.channels@.len() == CHANNELS
        &&& forall|c: int, i: int|
            0 <= c < CHANNELS && self.channels@[c] is Some && 0 <= i
                < self.channels@[c]->0.pictures@.len() ==> (
            #[trigger] self.channels@[c]->0.pictures@[i]).well_formed()
        &&& forall|c: int|
            0 <= c < CHANNELS && (#[trigger] self.channels@[c]) is Some ==> self.channels@[c]->0.centers@.len()
                == self.channels@[c]->0.pictures@.len()
    }

    /// The channel has nothing to show.
    pub open spec fn is_vacant(self, channel: int) -> bool {
        self.channels@[channel] is None || self.channels@[channel]->0.pictures@.len() == 0
    }

    /// A burst without images.
    pub fn init() -> (state: SelectBallInner)
        ensures
            state.well_formed(),
            state.image_ids@.len() == 0,
            state.light_rays@.len() == 0,
            forall|c: int| 0 <= c < CHANNELS ==> (#[trigger] state.channels@[c]) is None,
    {
        let mut channels: Vec<Option<ChannelHighlights>> = Vec::new();
        channels.push(None);
        channels.push(None);
        channels.push(None);
        channels.push(None);
        SelectBallInner {
            image_ids: Vec::new(),
            dataset: Vec::new(),
            channels,
            light_rays: Vec::new(),
        }
    }

    /// Adds a decoded image to the burst under the given name, unless its
    /// layout is one that the burst cannot hold. A file that could not be
    /// decoded, of which the decoder's words are given, adds nothing.
    pub fn load_decoded(&mut self, id: String, outcome: Result<DynamicImage, String>) -> (r: Result<
        (),
        LoadError,
    >)
        requires
            old(self).well_formed(),
        ensures
            final(self).well_formed(),
            final(self).channels == old(self).channels,
            final(self).light_rays == old(self).light_rays,
            r is Ok <==> outcome is Ok && is_supported(layout_of(outcome->Ok_0)),
            r is Ok ==> final(self).image_ids@ == old(self).image_ids@.push(id),
            r is Ok ==> final(self).dataset@ == old(self).dataset@.push(outcome->Ok_0),
            r is Err ==> *final(self) == *old(self),
            r is Err ==> (r->Err_0 is Decode <==> outcome is Err),
            r is Err && outcome is Err ==> r->Err_0->Decode_0 == outcome->Err_0,
            r is Err ==> (r->Err_0 is BgrOrder <==> outcome is Ok && is_bgr(
                layout_of(outcome->Ok_0),
            )),
    {
        let img = match outcome {
            Ok(img) => img,
            Err(text) => {
                return Err(LoadError::Decode(text));
            },
        };
        match accept_layout(layout(&img)) {
            Ok(()) => {
                self.dataset.push(img);
                self.image_ids.push(id);
                Ok(())
            },
            Err(refusal) => Err(refusal),
        }
    }

    /// Decodes an image file and adds the image to the burst under the given
    /// name, unless its layout is one that the burst cannot hold. Whether a
    /// file is decoded is the decoder's to say; an image that is added is
    /// the one that the file holds.
    pub fn load(&mut self, id: String, img_file: &[u8]) -> (r: Result<(), LoadError>)
        requires
            old(self).well_formed(),
        ensures
            final(self).well_formed(),
            final(self).channels == old(self).channels,
            final(self).light_rays == old(self).light_rays,
            r is Ok ==> decoded(img_file@) is Some && is_supported(
                layout_of(decoded(img_file@)->0),
            ),
            r is Ok ==> final(self).image_ids@ == old(self).image_ids@.push(id),
            r is Ok ==> final(self).dataset@ == old(self).dataset@.push(decoded(img_file@)->0),
            r is Err ==> *final(self) == *old(self),
            r is Err && r->Err_0 is BgrOrder ==> decoded(img_file@) is Some && is_bgr(
                layout_of(decoded(img_file@)->0),
            ),
            r is Err && r->Err_0 is AlphaChannel ==> decoded(img_file@) is Some && has_alpha(
                layout_of(decoded(img_file@)->0),
            ) && !is_bgr(layout_of(decoded(img_file@)->0)),
    {
        let outcome = match decode(img_file) {
            Ok(img) => Ok(img),
            Err(err) => Err(error_text(&err)),
        };
        self.load_decoded(id, outcome)
    }

    /// The square around the disk of a crop, cut out of an image.
    pub open spec fn cut_out(crop: Crop, img: DynamicImage) -> DynamicImage {
        let square = crop.bounding_square();
        cropped(
            img,
            square.left,
            square.top,
            (square.right - square.left) as u32,
            (square.bottom - square.top) as u32,
        )
    }

    /// The size of the square around the disk of a crop, cut out of an
    /// image: that of the square as far as it lies in the image.
    pub open spec fn cut_out_size(crop: Crop, img: DynamicImage) -> (u32, u32) {
        let square = crop.bounding_square();
        cut_size(
            dims_of(img),
            square.left,
            square.top,
            (square.right - square.left) as u32,
            (square.bottom - square.top) as u32,
        )
    }

    /// The parts hold, for each channel with a crop, the square around its
    /// disk cut out of each loaded image; nothing for a channel without a
    /// crop, nor for any channel where one of the crops is not well formed.
    pub open spec fn holds_cuts(self, args: Args, parts: Seq<Vec<DynamicImage>>) -> bool {
        &&& parts.len() == CHANNELS
        &&& forall|c: int|
            0 <= c < CHANNELS ==> (#[trigger] parts[c])@.len() == if args.first_malformed() is Some
                || args.crop_of(c) is None {
                0
            } else {
                self.dataset@.len()
            }
        &&& forall|c: int, i: int|
            0 <= c < CHANNELS && 0 <= i < parts[c]@.len() ==> #[trigger] parts[c]@[i]
                == Self::cut_out(args.crop_of(c)->0, self.dataset@[i]) && dims_of(parts[c]@[i])
                == Self::cut_out_size(args.crop_of(c)->0, self.dataset@[i])
    }

    /// Cuts the square around each sphere out of each loaded image. The
    /// parts are to be blurred before the highlights are looked for.
    pub fn cut_crops(&self, args: &Args) -> (parts: Vec<Vec<DynamicImage>>)
        ensures
            self.holds_cuts(*args, parts@),
    {
        let refused = args.find_malformed().is_some();
        let mut parts: Vec<Vec<DynamicImage>> = Vec::new();
        let mut channel: usize = 0;
        while channel < CHANNELS
            invariant
                channel <= CHANNELS,
                refused == args.first_malformed() is Some,
                parts@.len() == channel,
                forall|c: int|
                    0 <= c < channel ==> (#[trigger] parts@[c])@.len() == if args.first_malformed() is Some
                        || args.crop_of(c) is None {
                        0
                    } else {
                        self.dataset@.len()
                    },
                forall|c: int, i: int|
                    0 <= c < channel && 0 <= i < parts@[c]@.len() ==> #[trigger] parts@[c]@[i]
                        == Self::cut_out(args.crop_of(c)->0, self.dataset@[i]) && dims_of(
                        parts@[c]@[i],
                    ) == Self::cut_out_size(args.crop_of(c)->0, self.dataset@[i]),
            decreases CHANNELS - channel,
        {
            let mut row: Vec<DynamicImage> = Vec::new();
            match args.crop(channel) {
                Some(crop) => {
                    if !refused {
                        let square = crop.surrounding_square();
                        let mut i: usize = 0;
                        while i < self.dataset.len()
                            invariant
                                i <= self.dataset@.len(),
                                square == crop.bounding_square(),
                                square.left <= square.right,
                                square.top <= square.bottom,
                                row@.len() == i,
                                forall|k: int|
                                    0 <= k < i ==> #[trigger] row@[k] == Self::cut_out(
                                        crop,
                                        self.dataset@[k],
                                    ) && dims_of(row@[k]) == Self::cut_out_size(
                                        crop,
                                        self.dataset@[k],
                                    ),
                            decreases self.dataset@.len() - i,
                        {
                            let part = cut(
                                &self.dataset[i],
                                square.left,
                                square.top,
                                square.right - square.left,
                                square.bottom - square.top,
                            );
                            row.push(part);
                            i = i + 1;
                        }
                    }
                },
                None => {},
            }
            parts.push(row);
            channel = channel + 1;
        }
        parts
    }

    /// The state holds what a run with these parameters finds: nothing
    /// without images; otherwise for each channel what its crop gives, and
    /// for each frame the rays of the channels, in their order.
    pub open spec fn holds_run(self, args: Args, blurred: Seq<Vec<RgbGrid>>) -> bool {
        if self.dataset@.len() == 0 {
            &&& self.channels@.len() == CHANNELS
            &&& forall|c: int| 0 <= c < CHANNELS ==> (#[trigger] self.channels@[c]) is None
            &&& self.light_rays@.len() == 0
        } else {
            &&& channels_describe(self.channels@, args, blurred)
            &&& self.light_rays@.len() == self.dataset@.len()
            &&& forall|i: int|
                0 <= i < self.dataset@.len() ==> (#[trigger] self.light_rays@[i])@ == column(
                    ray_table(self.channels@),
                    i,
                )
        }
    }

    /// Runs the search for the highlights over all loaded images, given for
    /// each channel with a crop the blurred crop of each image. What an
    /// earlier run found is replaced. A crop that is not well formed stops
    /// the run before anything is computed or replaced; a crop is well
    /// formed where it has a width and a height and half its diagonal is at
    /// least one whole pixel, which leaves out the crop of a single pixel.
    pub fn run(&mut self, args: &Args, blurred: &Vec<Vec<RgbGrid>>) -> (r: Result<(), RunError>)
        requires
            old(self).well_formed(),
            blurred@.len() == CHANNELS,
            forall|c: int, i: int|
                0 <= c < CHANNELS && 0 <= i < blurred@[c]@.len() ==> (
                #[trigger] blurred@[c]@[i]).well_formed(),
            args.first_malformed() is None ==> forall|c: int|
                0 <= c < CHANNELS && args.crop_of(c) is Some ==> (#[trigger] blurred@[c])@.len()
                    == old(self).dataset@.len(),
        ensures
            final(self).well_formed(),
            final(self).image_ids == old(self).image_ids,
            final(self).dataset == old(self).dataset,
            r is Err <==> args.first_malformed() is Some,
            r is Err ==> r->Err_0 == RunError::MalformedCrop(args.first_malformed()->0),
            r is Err ==> *final(self) == *old(self),
            r is Ok ==> final(self).holds_run(*args, blurred@),
    {
        match args.find_malformed() {
            Some(channel) => {
                return Err(RunError::MalformedCrop(channel));
            },
            None => {},
        }
        let nb_images: usize = self.dataset.len();
        if nb_images == 0 {
            let mut channels: Vec<Option<ChannelHighlights>> = Vec::new();
            channels.push(None);
            channels.push(None);
            channels.push(None);
            channels.push(None);
            self.channels = channels;
            self.light_rays = Vec::new();
        } else {
            let found = crop_and_register(args, blurred);
            let records = ray_records(&found);
            assert forall|c: int| 0 <= c < records@.len() implies (#[trigger] records@[c])@.len()
                <= nb_images by {
                assert(crate::records::rows(records@).len() == records@.len());
                assert(ray_table(found@).len() == found@.len());
                assert(crate::records::rows(records@)[c] == ray_table(found@)[c]);
                if found@[c] is Some {
                    assert(args.crop_of(c) is Some);
                    assert(blurred@[c]@.len() == nb_images);
                    assert(found@[c]->0.rays@.len() == blurred@[c]@.len());
                }
            }
            let by_frame = transpose_records(&records, nb_images);
            assert forall|i: int, k: int|
                0 <= i < by_frame@.len() && 0 <= k < by_frame@[i]@.len() && (
                #[trigger] by_frame@[i]@[k]) is Some implies by_frame@[i]@[k]->0.well_formed() by {
                let table = ray_table(found@);
                assert(by_frame@[i]@ == column(rows(records@), i));
                lemma_column_members(table, i, k);
                let c = choose|c: int|
                    0 <= c < table.len() && i < table[c].len() && column(table, i)[k]
                        == #[trigger] table[c][i];
                assert(found@[c] is Some);
                let channel = found@[c]->0;
                assert(channel.rays@[i] == crate::highlight::sphere_ray(
                    args.crop_of(c)->0,
                    channel.centers@[i],
                ));
                lemma_sphere_ray_well_formed(args.crop_of(c)->0, channel.centers@[i]);
            }
            self.light_rays = by_frame;
            self.channels = found;
        }
        Ok(())
    }

    /// The names of the loaded images.
    pub fn image_ids(&self) -> (ids: &Vec<String>)
        ensures
            ids == self.image_ids,
    {
        &self.image_ids
    }

    /// The picture that a channel shows for a frame: the picture of the
    /// classes, or the placeholder where the channel has nothing to show.
    pub open spec fn shown(self, i: int, channel: int) -> crate::grid::Picture {
        if self.is_vacant(channel) {
            crate::grid::Picture { width: 2, height: 2, data: placeholder_data() }
        } else {
            self.channels@[channel]->0.pictures@[i]@
        }
    }

    /// Writes the picture that a channel shows for a frame as a PNG file.
    pub fn cropped_img_file(&self, i: usize, channel: usize) -> (r: Result<Vec<u8>, EncodeError>)
        requires
            self.well_formed(),
            channel < CHANNELS,
            !self.is_vacant(channel as int) ==> i < self.channels@[channel as int]->0.pictures@.len(),
        ensures
            is_file_of(r, self.shown(i as int, channel as int)),
    {
        match &self.channels[channel] {
            Some(found) => {
                if found.pictures.len() > 0 {
                    let picture = &found.pictures[i];
                    assert(picture.well_formed());
                    return write_picture(picture.width, picture.height, &picture.data);
                }
            },
            None => {},
        }
        let data: Vec<u8> = vec![255u8, 255u8, 0u8, 0u8, 0u8, 0u8, 0u8, 0u8, 0u8, 255u8, 255u8, 0u8];
        assert(data@ =~= placeholder_data());
        write_picture(2, 2, &data)
    }

    /// The highlight that a channel found in a frame; none where the channel
    /// has nothing to show or the frame no highlight.
    pub open spec fn lobe(self, i: int, channel: int) -> Option<Point2D> {
        if self.is_vacant(channel) {
            None
        } else {
            self.channels@[channel]->0.centers@[i]
        }
    }

    /// Gets the highlight that a channel found in a frame.
    pub fn lobes(&self, i: usize, channel: usize) -> (center: Option<Point2D>)
        requires
            self.well_formed(),
            channel < CHANNELS,
            !self.is_vacant(channel as int) ==> i < self.channels@[channel as int]->0.centers@.len(),
        ensures
            center == self.lobe(i as int, channel as int),
    {
        match &self.channels[channel] {
            Some(found) => {
                if found.pictures.len() > 0 {
                    found.centers[i]
                } else {
                    None
                }
            },
            None => None,
        }
    }

    /// Writes a loaded image as a PNG file.
    pub fn register_and_save(&self, i: usize) -> (r: Result<Vec<u8>, EncodeError>)
        requires
            i < self.dataset@.len(),
        ensures
            is_image_file_of(r, self.dataset@[i as int]),
    {
        match encode_image(&self.dataset[i]) {
            Ok(file) => Ok(file),
            Err(err) => Err(EncodeError::Encoder(error_text(&err))),
        }
    }

    /// Gathers the rays of a frame that are there. Each is well formed.
    pub fn present_rays(&self, i: usize) -> (rays: Vec<LightRay>)
        requires
            self.well_formed(),
            i < self.light_rays@.len(),
        ensures
            rays@ == present(self.light_rays@[i as int]@),
            forall|k: int| 0 <= k < rays@.len() ==> (#[trigger] rays@[k]).well_formed(),
    {
        let row = &self.light_rays[i];
        let mut rays: Vec<LightRay> = Vec::new();
        let mut k: usize = 0;
        while k < row.len()
            invariant
                k <= row@.len(),
                rays@ == present(row@.take(k as int)),
                forall|j: int| 0 <= j < row@.len() && (#[trigger] row@[j]) is Some ==> row@[j]->0.well_formed(),
                forall|j: int| 0 <= j < rays@.len() ==> (#[trigger] rays@[j]).well_formed(),
            decreases row@.len() - k,
        {
            assert(row@.take(k + 1).drop_last() =~= row@.take(k as int));
            assert(row@.take(k + 1).last() == row@[k as int]);
            match row[k] {
                Some(ray) => {
                    rays.push(ray);
                },
                None => {},
            }
            k = k + 1;
        }
        assert(row@.take(k as int) =~= row@);
        rays
    }
}

/// The result is what the encoder makes of the picture: the PNG file that it
/// writes, or its failure. A picture whose bytes are too many to count is not
/// handed to the encoder.
pub open spec fn is_file_of(r: Result<Vec<u8>, EncodeError>, p: crate::grid::Picture) -> bool {
    if !can_be_written(p.width, p.height) {
        r is Err && r->Err_0 is TooLarge
    } else {
        match r {
            Ok(file) => rgb_png(p.width, p.height, p.data) == Some(file@),
            Err(e) => e is Encoder && rgb_png(p.width, p.height, p.data) is None,
        }
    }
}

/// The result is what the encoder makes of the image: the PNG file that it
/// writes, or its failure.
pub open spec fn is_image_file_of(r: Result<Vec<u8>, EncodeError>, img: DynamicImage) -> bool {
    match r {
        Ok(file) => png_of(img) == Some(file@),
        Err(e) => e is Encoder && png_of(img) is None,
    }
}

/// Writes 8-bit RGB data as a PNG file.
pub fn write_picture(width: u32, height: u32, data: &Vec<u8>) -> (r: Result<Vec<u8>, EncodeError>)
    ensures
        is_file_of(r, crate::grid::Picture { width, height, data: data@ }),
{
    assert(3 * width * height <= 3 * 0xffff_ffff * 0xffff_ffff) by (nonlinear_arith)
        requires
            0 <= width <= 0xffff_ffff,
            0 <= height <= 0xffff_ffff,
    ;
    let bytes: u128 = 3 * (width as u128) * (height as u128);
    if bytes >= usize::MAX as u128 {
        return Err(EncodeError::TooLarge);
    }
    match encode_rgb(width, height, data) {
        Ok(file) => Ok(file),
        Err(err) => Err(EncodeError::Encoder(error_text(&err))),
    }
}

/// Copies the rays of each channel; a channel without a crop has none.
fn ray_records(found: &Vec<Option<ChannelHighlights>>) -> (records: Vec<Vec<Option<LightRay>>>)
    ensures
        crate::records::rows(records@) == ray_table(found@),
{
    let mut records: Vec<Vec<Option<LightRay>>> = Vec::new();
    let mut c: usize = 0;
    while c < found.len()
        invariant
            c <= found@.len(),
            records@.len() == c,
            forall|k: int| 0 <= k < c ==> (#[trigger] records@[k])@ == ray_table(found@)[k],
        decreases found@.len() - c,
    {
        let mut rays: Vec<Option<LightRay>> = Vec::new();
        match &found[c] {
            Some(channel) => {
                let mut i: usize = 0;
                while i < channel.rays.len()
                    invariant
                        i <= channel.rays@.len(),
                        rays@ == channel.rays@.take(i as int),
                    decreases channel.rays@.len() - i,
                {
                    rays.push(channel.rays[i]);
                    assert(channel.rays@.take(i + 1) =~= channel.rays@.take(i as int).push(
                        channel.rays@[i as int],
                    ));
                    i = i + 1;
                }
                assert(channel.rays@.take(i as int) =~= channel.rays@);
            },
            None => {},
        }
        assert(rays@ =~= ray_table(found@)[c as int]);
        records.push(rays);
        c = c + 1;
    }
    assert(crate::records::rows(records@) =~= ray_table(found@));
    records
}

} // verus!
