use select_ball::multires::{build_pyramid, Gray, InsufficientResolution};
use select_ball::registration::CanRegister;

fn gray<T: Copy>(width: usize, height: usize, data: &[T]) -> Gray<T> {
    Gray { width, height, data: data.to_vec() }
}

#[test]
fn widening_keeps_the_level() {
    assert_eq!(255u8.widen(), 255u16);
    assert_eq!(65535u16.widen(), 65535u32);
    assert_eq!(<u8 as CanRegister>::add_wide(510, 510), 1020);
    assert_eq!(<u16 as CanRegister>::add_wide(131070, 131070), 262140);
    assert_eq!(<u8 as CanRegister>::quarter(1020), 255);
    assert_eq!(<u8 as CanRegister>::quarter(7), 1);
    assert_eq!(<u16 as CanRegister>::quarter(262140), 65535);
}

#[test]
fn halving_takes_the_mean_of_each_block() {
    let img = gray(4, 4, &[
        10u8, 20, 1, 2,
        30, 40, 2, 2,
        255, 255, 0, 0,
        255, 255, 0, 3,
    ]);
    assert!(img.is_well_formed());
    assert_eq!(img.halve(), gray(2, 2, &[25u8, 1, 255, 0]));
}

#[test]
fn halving_leaves_out_an_odd_last_column_and_row() {
    let img = gray(5, 3, &[
        4u16, 8, 100, 200, 9,
        12, 16, 300, 400, 9,
        7, 7, 7, 7, 7,
    ]);
    assert_eq!(img.halve(), gray(2, 1, &[10u16, 250]));
}

#[test]
fn halving_the_highest_levels_does_not_overflow() {
    assert_eq!(gray(2, 2, &[255u8; 4]).halve(), gray(1, 1, &[255u8]));
    assert_eq!(gray(2, 2, &[65535u16; 4]).halve(), gray(1, 1, &[65535u16]));
}

#[test]
fn halving_a_single_row_leaves_nothing() {
    assert_eq!(gray(4, 1, &[1u8, 2, 3, 4]).halve(), gray(2, 0, &[]));
    assert_eq!(gray(1, 1, &[9u8]).halve(), gray(0, 0, &[]));
    assert_eq!(gray::<u8>(0, 0, &[]).halve(), gray(0, 0, &[]));
}

#[test]
fn pyramid_goes_from_the_image_to_its_coarsest_level() {
    let data: Vec<u8> = (0..64).collect();
    let img = gray(8, 8, &data);
    let pyramid = build_pyramid(&img, 4).expect("large enough");
    assert_eq!(pyramid.len(), 4);
    assert_eq!(pyramid[0], img);
    assert_eq!(pyramid[1], img.halve());
    assert_eq!(pyramid[2], img.halve().halve());
    assert_eq!(pyramid[3], img.halve().halve().halve());
    let sizes: Vec<(usize, usize)> = pyramid.iter().map(|l| (l.width, l.height)).collect();
    assert_eq!(sizes, vec![(8, 8), (4, 4), (2, 2), (1, 1)]);
    // rows 0 and 1 hold 0..8 and 8..16: the first block is 0, 1, 8, 9
    assert_eq!(pyramid[1].data[0], 4);
    assert_eq!(pyramid[1].data[5], (18 + 19 + 26 + 27) / 4);
}

#[test]
fn pyramid_is_the_same_each_time() {
    let data: Vec<u16> = (0..48).map(|v| v * 1000).collect();
    let img = gray(8, 6, &data);
    assert_eq!(build_pyramid(&img, 2), build_pyramid(&img, 2));
}

#[test]
fn too_many_levels_are_refused_with_the_number_there_is() {
    let img = gray(8, 8, &[7u8; 64]);
    assert_eq!(build_pyramid(&img, 5), Err(InsufficientResolution { available: 4 }));
    assert_eq!(build_pyramid(&img, 100), Err(InsufficientResolution { available: 4 }));
    let narrow = gray(16, 3, &[7u8; 48]);
    assert_eq!(build_pyramid(&narrow, 3), Err(InsufficientResolution { available: 2 }));
    assert_eq!(build_pyramid(&narrow, 2).expect("large enough").len(), 2);
}

#[test]
fn image_without_pixels_has_no_level() {
    let none = gray::<u8>(0, 0, &[]);
    assert_eq!(build_pyramid(&none, 1), Err(InsufficientResolution { available: 0 }));
    let flat = gray::<u16>(5, 0, &[]);
    assert_eq!(build_pyramid(&flat, 3), Err(InsufficientResolution { available: 0 }));
}

#[test]
fn pyramid_of_no_level_is_empty() {
    let img = gray(2, 2, &[1u8, 2, 3, 4]);
    assert_eq!(build_pyramid(&img, 0), Ok(Vec::new()));
    assert_eq!(build_pyramid(&gray::<u8>(0, 0, &[]), 0), Ok(Vec::new()));
}

#[test]
fn image_with_missing_levels_is_not_well_formed() {
    assert!(!gray(2, 2, &[1u8, 2, 3]).is_well_formed());
    assert!(!gray(2, 2, &[1u8, 2, 3, 4, 5]).is_well_formed());
    assert!(!gray::<u8>(usize::MAX, usize::MAX, &[]).is_well_formed());
    assert!(gray::<u8>(0, 5, &[]).is_well_formed());
}
