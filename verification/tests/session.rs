use image::{DynamicImage, GenericImageView, ImageOutputFormat};
use select_ball::codec::PixelLayout;
use select_ball::crop::Crop;
use select_ball::grid::{to_grid, RgbGrid};
use select_ball::highlight::Point2D;
use select_ball::numeric::Ratio;
use select_ball::registration::Config;
use select_ball::session::{
    accept_layout, crop_and_register, write_picture, Args, EncodeError, LoadError, RunError,
    SelectBallInner, CHANNELS,
};

fn ratio(num: u16, den: u16) -> Ratio {
    Ratio { num, den }
}

fn args(crops: [Option<Crop>; 4]) -> Args {
    Args {
        config: Config {
            sigma: ratio(3, 2),
            threshold: ratio(1, 2),
            mask_ray: ratio(1, 1),
            verbosity: 0,
        },
        equalize: None,
        crop_t_l: crops[0],
        crop_t_r: crops[1],
        crop_b_l: crops[2],
        crop_b_r: crops[3],
    }
}

fn wide_crop() -> Crop {
    Crop { left: 10, top: 20, right: 50, bottom: 60 }
}

fn png_of(img: &DynamicImage) -> Vec<u8> {
    let mut file = Vec::new();
    img.write_to(&mut file, ImageOutputFormat::Png).expect("encodes");
    file
}

fn rgb_file(width: u32, height: u32, seed: u8) -> Vec<u8> {
    let img = image::RgbImage::from_fn(width, height, |x, y| {
        image::Rgb([seed, (x % 256) as u8, (y % 256) as u8])
    });
    png_of(&DynamicImage::ImageRgb8(img))
}

fn planted(cx: i64, cy: i64) -> RgbGrid {
    let mut data = Vec::new();
    for y in 0..56i64 {
        for x in 0..56i64 {
            let inside = (x - cx) * (x - cx) + (y - cy) * (y - cy) <= 16;
            let l = if inside { 220 } else { 60 };
            data.extend_from_slice(&[l, l, l]);
        }
    }
    RgbGrid { width: 56, height: 56, data }
}

fn no_grids() -> Vec<Vec<RgbGrid>> {
    vec![Vec::new(), Vec::new(), Vec::new(), Vec::new()]
}

#[test]
fn new_burst_is_empty() {
    let state = SelectBallInner::init();
    assert!(state.image_ids().is_empty());
    assert!(state.dataset.is_empty());
    assert_eq!(state.channels.len(), CHANNELS);
    assert!(state.channels.iter().all(|c| c.is_none()));
    assert!(state.light_rays.is_empty());
    assert_eq!(CHANNELS, 4);
}

#[test]
fn loading_keeps_names_and_images_in_order() {
    let mut state = SelectBallInner::init();
    assert!(state.load("first".to_string(), &rgb_file(8, 6, 1)).is_ok());
    assert!(state.load("second".to_string(), &rgb_file(5, 9, 2)).is_ok());
    assert_eq!(state.image_ids(), &vec!["first".to_string(), "second".to_string()]);
    assert_eq!(state.dataset.len(), 2);
    assert_eq!(state.dataset[0].dimensions(), (8, 6));
    assert_eq!(state.dataset[1].dimensions(), (5, 9));
    assert_eq!(state.dataset[1].get_pixel(4, 8), image::Rgba([2, 4, 8, 255]));
}

#[test]
fn gray_and_sixteen_bit_images_are_loaded() {
    let mut state = SelectBallInner::init();
    let gray = DynamicImage::ImageLuma8(image::GrayImage::new(3, 3));
    let deep = DynamicImage::ImageRgb16(image::ImageBuffer::new(3, 2));
    let deep_gray = DynamicImage::ImageLuma16(image::ImageBuffer::new(2, 3));
    assert!(state.load("gray".to_string(), &png_of(&gray)).is_ok());
    assert!(state.load("deep".to_string(), &png_of(&deep)).is_ok());
    assert!(state.load("deep gray".to_string(), &png_of(&deep_gray)).is_ok());
    assert_eq!(state.image_ids().len(), 3);
    assert_eq!(state.dataset[1].color(), image::ColorType::Rgb16);
}

#[test]
fn bytes_that_are_no_image_are_refused() {
    let mut state = SelectBallInner::init();
    match state.load("junk".to_string(), b"this is no image at all") {
        Err(LoadError::Decode(text)) => assert!(!text.is_empty()),
        other => panic!("unexpected outcome: {:?}", other),
    }
    assert!(matches!(state.load("empty".to_string(), &[]), Err(LoadError::Decode(_))));
    let mut cut = rgb_file(8, 6, 1);
    cut.truncate(40);
    assert!(matches!(state.load("cut".to_string(), &cut), Err(LoadError::Decode(_))));
    assert!(state.image_ids().is_empty());
    assert!(state.dataset.is_empty());
}

#[test]
fn images_with_an_alpha_channel_are_refused() {
    let mut state = SelectBallInner::init();
    state.load("kept".to_string(), &rgb_file(4, 4, 9)).expect("loads");
    let rgba = DynamicImage::ImageRgba8(image::RgbaImage::new(3, 3));
    let gray_alpha = DynamicImage::ImageLumaA8(image::GrayAlphaImage::new(3, 3));
    let deep = DynamicImage::ImageRgba16(image::ImageBuffer::new(3, 3));
    for img in [rgba, gray_alpha, deep] {
        let outcome = state.load("alpha".to_string(), &png_of(&img));
        assert!(matches!(outcome, Err(LoadError::AlphaChannel)));
    }
    assert_eq!(state.image_ids(), &vec!["kept".to_string()]);
    assert_eq!(state.dataset.len(), 1);
}

#[test]
fn layouts_are_accepted_or_refused_by_kind() {
    for l in [
        PixelLayout::Luma8,
        PixelLayout::Rgb8,
        PixelLayout::Luma16,
        PixelLayout::Rgb16,
    ] {
        assert!(accept_layout(l).is_ok());
    }
    for l in [PixelLayout::Bgr8, PixelLayout::Bgra8] {
        assert!(matches!(accept_layout(l), Err(LoadError::BgrOrder)));
    }
    for l in [
        PixelLayout::LumaA8,
        PixelLayout::LumaA16,
        PixelLayout::Rgba8,
        PixelLayout::Rgba16,
    ] {
        assert!(matches!(accept_layout(l), Err(LoadError::AlphaChannel)));
    }
}

#[test]
fn load_errors_have_their_text() {
    assert_eq!(LoadError::BgrOrder.message(), "BGR order not supported");
    assert_eq!(LoadError::AlphaChannel.message(), "Alpha channel not supported");
    assert_eq!(LoadError::Decode("broken".to_string()).message(), "broken");
}

#[test]
fn channel_without_a_crop_shows_the_placeholder() {
    let state = SelectBallInner::init();
    for channel in 0..CHANNELS {
        let file = state.cropped_img_file(7, channel).expect("encodes");
        let img = image::load_from_memory(&file).expect("a PNG file");
        assert_eq!(img.color(), image::ColorType::Rgb8);
        assert_eq!(img.dimensions(), (2, 2));
        assert_eq!(img.get_pixel(0, 0), image::Rgba([255, 255, 0, 255]));
        assert_eq!(img.get_pixel(1, 0), image::Rgba([0, 0, 0, 255]));
        assert_eq!(img.get_pixel(0, 1), image::Rgba([0, 0, 0, 255]));
        assert_eq!(img.get_pixel(1, 1), image::Rgba([255, 255, 0, 255]));
        assert_eq!(state.lobes(7, channel), None);
    }
}

#[test]
fn picture_without_pixels_is_refused_by_the_encoder() {
    for (width, height) in [(0, 3), (3, 0), (0, 0)] {
        match write_picture(width, height, &Vec::new()) {
            Err(EncodeError::Encoder(text)) => assert!(!text.is_empty()),
            other => panic!("unexpected outcome: {:?}", other),
        }
    }
}

#[test]
fn picture_too_large_to_count_is_not_handed_to_the_encoder() {
    let outcome = write_picture(u32::MAX, u32::MAX, &Vec::new());
    assert!(matches!(outcome, Err(EncodeError::TooLarge)));
    let outcome = write_picture(u32::MAX, u32::MAX, &vec![0u8; 12]);
    assert!(matches!(outcome, Err(EncodeError::TooLarge)));
}

#[test]
fn rays_by_frame_are_well_formed() {
    let mut state = SelectBallInner::init();
    state.load("a".to_string(), &rgb_file(64, 70, 1)).expect("loads");
    let mut blurred = no_grids();
    blurred[0] = vec![planted(30, 25)];
    blurred[3] = vec![planted(20, 40)];
    let a = args([Some(wide_crop()), None, None, Some(wide_crop())]);
    assert_eq!(state.run(&a, &blurred), Ok(()));
    let rays = state.present_rays(0);
    assert_eq!(rays.len(), 2);
    for ray in &rays {
        assert!(ray.is_well_formed());
        assert_eq!(ray.x_factor(), 2 * ray.offset_x);
        assert_eq!(ray.y_factor(), 2 * ray.offset_y);
        assert_eq!(ray.z_scaled(), 2 * ray.height_sq - ray.radius_sq);
    }
}

#[test]
fn picture_with_too_few_bytes_is_refused_by_the_encoder() {
    match write_picture(2, 2, &vec![0u8; 11]) {
        Err(EncodeError::Encoder(text)) => assert!(!text.is_empty()),
        other => panic!("unexpected outcome: {:?}", other),
    }
}

#[test]
fn decoded_image_joins_the_burst_by_its_layout() {
    let mut state = SelectBallInner::init();
    let rgb = DynamicImage::ImageRgb8(image::RgbImage::new(4, 3));
    assert!(state.load_decoded("rgb".to_string(), Ok(rgb.clone())).is_ok());
    assert_eq!(state.image_ids(), &vec!["rgb".to_string()]);
    assert_eq!(state.dataset, vec![rgb]);
    let bgr = DynamicImage::ImageBgr8(image::ImageBuffer::new(4, 3));
    let bgra = DynamicImage::ImageBgra8(image::ImageBuffer::new(4, 3));
    for img in [bgr, bgra] {
        let outcome = state.load_decoded("bgr".to_string(), Ok(img));
        assert!(matches!(outcome, Err(LoadError::BgrOrder)));
    }
    let rgba = DynamicImage::ImageRgba8(image::RgbaImage::new(4, 3));
    let outcome = state.load_decoded("rgba".to_string(), Ok(rgba));
    assert!(matches!(outcome, Err(LoadError::AlphaChannel)));
    assert_eq!(state.image_ids().len(), 1);
    assert_eq!(state.dataset.len(), 1);
}

#[test]
fn failed_decoding_is_reported_in_the_decoder_s_words() {
    let mut state = SelectBallInner::init();
    match state.load_decoded("none".to_string(), Err("no such format".to_string())) {
        Err(LoadError::Decode(text)) => assert_eq!(text, "no such format"),
        other => panic!("unexpected outcome: {:?}", other),
    }
    assert!(state.image_ids().is_empty());
    assert!(state.dataset.is_empty());
}

#[test]
fn squares_are_cut_out_of_each_image_for_each_crop() {
    let mut state = SelectBallInner::init();
    state.load("a".to_string(), &rgb_file(64, 70, 1)).expect("loads");
    state.load("b".to_string(), &rgb_file(64, 70, 2)).expect("loads");
    let a = args([Some(wide_crop()), None, None, Some(Crop { left: 0, top: 0, right: 4, bottom: 4 })]);
    let parts = state.cut_crops(&a);
    assert_eq!(parts.len(), 4);
    assert_eq!(parts[0].len(), 2);
    assert!(parts[1].is_empty());
    assert!(parts[2].is_empty());
    assert_eq!(parts[3].len(), 2);
    for (i, seed) in [1u8, 2].iter().enumerate() {
        assert_eq!(parts[0][i].dimensions(), (56, 56));
        assert_eq!(parts[0][i].get_pixel(0, 0), image::Rgba([*seed, 2, 12, 255]));
        assert_eq!(parts[0][i].get_pixel(55, 55), image::Rgba([*seed, 57, 67, 255]));
        assert_eq!(parts[3][i].dimensions(), (5, 5));
        assert_eq!(parts[3][i].get_pixel(4, 4), image::Rgba([*seed, 4, 4, 255]));
    }
}

#[test]
fn square_beyond_the_image_is_cut_at_its_border() {
    let mut state = SelectBallInner::init();
    state.load("a".to_string(), &rgb_file(40, 30, 1)).expect("loads");
    let parts = state.cut_crops(&args([None, Some(wide_crop()), None, None]));
    assert_eq!(parts[1][0].dimensions(), (38, 18));
    assert_eq!(parts[1][0].get_pixel(37, 17), image::Rgba([1, 39, 29, 255]));
}

#[test]
fn nothing_is_cut_where_a_crop_is_malformed() {
    let mut state = SelectBallInner::init();
    state.load("a".to_string(), &rgb_file(64, 70, 1)).expect("loads");
    let flat = Crop { left: 10, top: 20, right: 50, bottom: 20 };
    let parts = state.cut_crops(&args([Some(wide_crop()), Some(flat), None, None]));
    assert_eq!(parts.len(), 4);
    assert!(parts.iter().all(|row| row.is_empty()));
    let blurred = no_grids();
    assert_eq!(
        state.run(&args([Some(wide_crop()), Some(flat), None, None]), &blurred),
        Err(RunError::MalformedCrop(1))
    );
}

#[test]
fn nothing_is_cut_without_images() {
    let state = SelectBallInner::init();
    let parts = state.cut_crops(&args([Some(wide_crop()), None, None, None]));
    assert_eq!(parts.len(), 4);
    assert!(parts.iter().all(|row| row.is_empty()));
}

#[test]
fn picture_of_an_image_has_its_size_and_colors() {
    let img = image::RgbImage::from_fn(3, 2, |x, y| image::Rgb([x as u8, y as u8, 9]));
    let grid = to_grid(&DynamicImage::ImageRgb8(img)).expect("small enough");
    assert!(grid.is_well_formed());
    assert_eq!((grid.width, grid.height), (3, 2));
    assert_eq!(grid.data, vec![0, 0, 9, 1, 0, 9, 2, 0, 9, 0, 1, 9, 1, 1, 9, 2, 1, 9]);
    let gray = image::GrayImage::from_fn(2, 1, |x, _| image::Luma([100 + x as u8]));
    let grid = to_grid(&DynamicImage::ImageLuma8(gray)).expect("small enough");
    assert_eq!((grid.width, grid.height), (2, 1));
    assert_eq!(grid.data, vec![100, 100, 100, 101, 101, 101]);
    let none = to_grid(&DynamicImage::ImageRgb8(image::RgbImage::new(0, 0))).expect("empty");
    assert!(none.is_well_formed());
    assert!(none.data.is_empty());
}

#[test]
fn cut_and_converted_squares_feed_a_run() {
    let mut state = SelectBallInner::init();
    let img = image::RgbImage::from_fn(64, 70, |x, y| {
        let d = (x as i64 - 32) * (x as i64 - 32) + (y as i64 - 37) * (y as i64 - 37);
        if d <= 16 { image::Rgb([230, 230, 230]) } else { image::Rgb([40, 40, 40]) }
    });
    state.load("a".to_string(), &png_of(&DynamicImage::ImageRgb8(img))).expect("loads");
    let a = args([Some(wide_crop()), None, None, None]);
    let parts = state.cut_crops(&a);
    let blurred: Vec<Vec<RgbGrid>> = parts
        .iter()
        .map(|row| row.iter().map(|part| to_grid(part).expect("small enough")).collect())
        .collect();
    assert_eq!(state.run(&a, &blurred), Ok(()));
    // the disk sits at (32, 37) in the image, and the square starts at (2, 12)
    assert_eq!(state.lobes(0, 0), Some(Point2D { x: 30, y: 25 }));
}

#[test]
fn written_picture_decodes_to_its_pixels() {
    let data: Vec<u8> = (0..27).collect();
    let file = write_picture(3, 3, &data).expect("encodes");
    let img = image::load_from_memory(&file).expect("a PNG file");
    assert_eq!(img.dimensions(), (3, 3));
    assert_eq!(img.to_rgb8().into_raw(), data);
}

#[test]
fn loaded_image_is_written_back_unchanged() {
    let mut state = SelectBallInner::init();
    state.load("a".to_string(), &rgb_file(8, 6, 1)).expect("loads");
    state.load("b".to_string(), &rgb_file(5, 9, 2)).expect("loads");
    let file = state.register_and_save(1).expect("encodes");
    let img = image::load_from_memory(&file).expect("a PNG file");
    assert_eq!(img, state.dataset[1]);
    assert_eq!(img.dimensions(), (5, 9));
    let file = state.register_and_save(0).expect("encodes");
    assert_eq!(image::load_from_memory(&file).expect("a PNG file"), state.dataset[0]);
}

#[test]
fn malformed_crop_stops_the_run_before_anything_changes() {
    let mut state = SelectBallInner::init();
    state.load("a".to_string(), &rgb_file(64, 64, 1)).expect("loads");
    let good = args([Some(wide_crop()), None, None, None]);
    let mut blurred = no_grids();
    blurred[0] = vec![planted(30, 25)];
    assert_eq!(state.run(&good, &blurred), Ok(()));
    let flat = Crop { left: 10, top: 20, right: 50, bottom: 20 };
    let tiny = Crop { left: 0, top: 0, right: 1, bottom: 1 };
    let bad = args([Some(wide_crop()), None, Some(flat), Some(tiny)]);
    assert_eq!(bad.find_malformed(), Some(2));
    assert_eq!(state.run(&bad, &no_grids()), Err(RunError::MalformedCrop(2)));
    blurred[2] = vec![planted(30, 25)];
    blurred[3] = vec![planted(30, 25)];
    assert_eq!(state.run(&bad, &blurred), Err(RunError::MalformedCrop(2)));
    assert_eq!(state.lobes(0, 0), Some(Point2D { x: 30, y: 25 }));
    assert_eq!(state.light_rays.len(), 1);
    assert_eq!(state.image_ids().len(), 1);
    let last = args([None, None, None, Some(tiny)]);
    assert_eq!(state.run(&last, &blurred), Err(RunError::MalformedCrop(3)));
    assert_eq!(good.find_malformed(), None);
}

#[test]
fn run_without_images_finds_nothing() {
    let mut state = SelectBallInner::init();
    let a = args([Some(wide_crop()), None, None, Some(wide_crop())]);
    assert_eq!(state.run(&a, &no_grids()), Ok(()));
    assert!(state.channels.iter().all(|c| c.is_none()));
    assert!(state.light_rays.is_empty());
    assert_eq!(state.lobes(0, 0), None);
}

#[test]
fn run_finds_the_planted_highlight_in_each_frame() {
    let mut state = SelectBallInner::init();
    state.load("a".to_string(), &rgb_file(64, 70, 1)).expect("loads");
    state.load("b".to_string(), &rgb_file(64, 70, 2)).expect("loads");
    state.load("c".to_string(), &rgb_file(64, 70, 3)).expect("loads");
    let a = args([Some(wide_crop()), None, None, Some(wide_crop())]);
    let mut blurred = no_grids();
    blurred[0] = vec![planted(30, 25), planted(31, 25), planted(32, 26)];
    blurred[3] = vec![planted(20, 40), planted(20, 40), planted(20, 40)];
    assert_eq!(state.run(&a, &blurred), Ok(()));

    assert_eq!(state.lobes(0, 0), Some(Point2D { x: 30, y: 25 }));
    assert_eq!(state.lobes(1, 0), Some(Point2D { x: 31, y: 25 }));
    assert_eq!(state.lobes(2, 0), Some(Point2D { x: 32, y: 26 }));
    assert_eq!(state.lobes(1, 1), None);
    assert_eq!(state.lobes(1, 2), None);
    assert_eq!(state.lobes(2, 3), Some(Point2D { x: 20, y: 40 }));

    assert_eq!(state.light_rays.len(), 3);
    for (i, (x, y)) in [(30i64, 25i64), (31, 25), (32, 26)].iter().enumerate() {
        let rays = state.present_rays(i);
        assert_eq!(state.light_rays[i].len(), 2);
        assert_eq!(rays.len(), 2);
        assert_eq!((rays[0].offset_x, rays[0].offset_y), (x - 28, y - 28));
        assert_eq!((rays[0].origin_x, rays[0].origin_y), (x - 28 + 2, y - 28 + 12));
        assert_eq!(rays[0].radius_sq, 784);
        assert_eq!((rays[1].offset_x, rays[1].offset_y), (-8, 12));
        assert_eq!(rays[1].height_sq, 784 - 64 - 144);
    }

    let file = state.cropped_img_file(1, 0).expect("encodes");
    let img = image::load_from_memory(&file).expect("a PNG file");
    assert_eq!(img.dimensions(), (56, 56));
    assert_eq!(img.get_pixel(31, 25), image::Rgba([220, 220, 220, 255]));
    assert_eq!(img.get_pixel(28, 5), image::Rgba([50, 50, 50, 255]));
    assert_eq!(img.get_pixel(0, 0), image::Rgba([255, 255, 255, 255]));
    let file = state.cropped_img_file(1, 1).expect("encodes");
    assert_eq!(image::load_from_memory(&file).expect("a PNG file").dimensions(), (2, 2));
}

#[test]
fn frame_without_a_highlight_leaves_a_gap_among_the_rays() {
    let mut state = SelectBallInner::init();
    state.load("a".to_string(), &rgb_file(64, 70, 1)).expect("loads");
    state.load("b".to_string(), &rgb_file(64, 70, 2)).expect("loads");
    let a = args([Some(wide_crop()), Some(wide_crop()), None, None]);
    let dark = RgbGrid { width: 56, height: 56, data: vec![60u8; 3 * 56 * 56] };
    let mut blurred = no_grids();
    blurred[0] = vec![planted(30, 25), dark.clone()];
    blurred[1] = vec![dark, planted(40, 30)];
    assert_eq!(state.run(&a, &blurred), Ok(()));
    assert_eq!(state.lobes(1, 0), None);
    assert_eq!(state.lobes(0, 1), None);
    assert_eq!(state.lobes(1, 1), Some(Point2D { x: 40, y: 30 }));
    assert!(state.light_rays[0][0].is_some());
    assert!(state.light_rays[0][1].is_none());
    assert!(state.light_rays[1][0].is_none());
    assert!(state.light_rays[1][1].is_some());
    let first = state.present_rays(0);
    assert_eq!(first.len(), 1);
    assert_eq!((first[0].offset_x, first[0].offset_y), (2, -3));
    let second = state.present_rays(1);
    assert_eq!(second.len(), 1);
    assert_eq!((second[0].offset_x, second[0].offset_y), (12, 2));
}

#[test]
fn later_run_replaces_what_an_earlier_one_found() {
    let mut state = SelectBallInner::init();
    state.load("a".to_string(), &rgb_file(64, 70, 1)).expect("loads");
    let mut blurred = no_grids();
    blurred[0] = vec![planted(30, 25)];
    assert_eq!(state.run(&args([Some(wide_crop()), None, None, None]), &blurred), Ok(()));
    assert_eq!(state.lobes(0, 0), Some(Point2D { x: 30, y: 25 }));
    let mut blurred = no_grids();
    blurred[2] = vec![planted(22, 22)];
    assert_eq!(state.run(&args([None, None, Some(wide_crop()), None]), &blurred), Ok(()));
    assert_eq!(state.lobes(0, 0), None);
    assert_eq!(state.lobes(0, 2), Some(Point2D { x: 22, y: 22 }));
    assert_eq!(state.light_rays.len(), 1);
    assert_eq!(state.light_rays[0].len(), 1);
}

#[test]
fn channels_are_searched_each_on_its_own_crops() {
    let other = Crop { left: 0, top: 0, right: 4, bottom: 4 };
    let a = args([None, Some(wide_crop()), Some(other), None]);
    let mut small = RgbGrid { width: 5, height: 5, data: vec![10u8; 75] };
    small.data[3 * (2 * 5 + 3)] = 255;
    small.data[3 * (2 * 5 + 3) + 1] = 255;
    small.data[3 * (2 * 5 + 3) + 2] = 255;
    let mut blurred = no_grids();
    blurred[1] = vec![planted(30, 25)];
    blurred[2] = vec![small];
    let flat = Crop { left: 3, top: 3, right: 3, bottom: 9 };
    let refused = crop_and_register(&args([Some(flat), Some(wide_crop()), None, None]), &blurred);
    assert_eq!(refused.len(), 4);
    assert!(refused.iter().all(|c| c.is_none()));
    let found = crop_and_register(&a, &blurred);
    assert_eq!(found.len(), 4);
    assert!(found[0].is_none());
    assert!(found[3].is_none());
    assert_eq!(found[1].as_ref().expect("a crop").centers, vec![Some(Point2D { x: 30, y: 25 })]);
    let third = found[2].as_ref().expect("a crop");
    assert_eq!(third.centers, vec![Some(Point2D { x: 3, y: 2 })]);
    let ray = third.rays[0].expect("on the sphere");
    assert_eq!((ray.offset_x, ray.offset_y, ray.radius_sq, ray.height_sq), (1, 0, 4, 3));
}
