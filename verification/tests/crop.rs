use select_ball::crop::Crop;
use select_ball::numeric::isqrt;

fn crop(left: u32, top: u32, right: u32, bottom: u32) -> Crop {
    Crop { left, top, right, bottom }
}

#[test]
fn isqrt_rounds_down() {
    assert_eq!(isqrt(0), 0);
    assert_eq!(isqrt(1), 1);
    assert_eq!(isqrt(2), 1);
    assert_eq!(isqrt(3), 1);
    assert_eq!(isqrt(4), 2);
    assert_eq!(isqrt(15), 3);
    assert_eq!(isqrt(16), 4);
    assert_eq!(isqrt(17), 4);
    assert_eq!(isqrt(3200), 56);
    assert_eq!(isqrt(1_000_000_000_000), 1_000_000);
    assert_eq!(isqrt(999_999_999_999), 999_999);
}

#[test]
fn isqrt_of_the_largest_values() {
    assert_eq!(isqrt(u128::MAX), u64::MAX);
    let top = u64::MAX as u128;
    assert_eq!(isqrt(top * top), u64::MAX);
    assert_eq!(isqrt(top * top - 1), u64::MAX - 1);
}

#[test]
fn well_formed_crops_have_area_and_a_radius() {
    assert!(crop(10, 20, 50, 60).is_well_formed());
    assert!(crop(0, 0, 2, 1).is_well_formed());
    assert!(!crop(0, 0, 1, 1).is_well_formed());
    assert!(!crop(5, 0, 5, 10).is_well_formed());
    assert!(!crop(0, 7, 10, 7).is_well_formed());
    assert!(!crop(9, 0, 3, 10).is_well_formed());
    assert!(!crop(0, 9, 10, 3).is_well_formed());
}

#[test]
fn diagonal_and_radius_of_a_square_crop() {
    let c = crop(10, 20, 50, 60);
    assert_eq!(c.diagonal_squared(), 3200);
    assert_eq!(c.sphere_radius(), 28);
}

#[test]
fn radius_is_half_the_diagonal_rounded_down() {
    assert_eq!(crop(0, 0, 6, 8).sphere_radius(), 5);
    assert_eq!(crop(0, 0, 3, 4).sphere_radius(), 2);
    assert_eq!(crop(0, 0, 1, 1).sphere_radius(), 0);
    assert_eq!(crop(0, 0, u32::MAX, u32::MAX).sphere_radius(), 3_037_000_499);
}

#[test]
fn surrounding_square_rounds_each_edge_to_the_nearest_pixel() {
    assert_eq!(crop(10, 20, 50, 60).surrounding_square(), crop(2, 12, 58, 68));
    assert_eq!(crop(100, 100, 106, 108).surrounding_square(), crop(98, 99, 108, 109));
    assert_eq!(crop(100, 100, 103, 104).surrounding_square(), crop(99, 100, 104, 105));
}

#[test]
fn surrounding_square_stays_within_the_coordinates() {
    assert_eq!(crop(0, 0, 4, 4).surrounding_square(), crop(0, 0, 5, 5));
    let far = crop(u32::MAX - 4, u32::MAX - 4, u32::MAX, u32::MAX).surrounding_square();
    assert_eq!(far.right, u32::MAX);
    assert_eq!(far.bottom, u32::MAX);
    assert_eq!(far.left, u32::MAX - 5);
    assert_eq!(far.top, u32::MAX - 5);
}

#[test]
fn surrounding_square_of_a_single_point() {
    assert_eq!(crop(7, 9, 7, 9).surrounding_square(), crop(7, 9, 7, 9));
}
