use select_ball::lightsource::{light_dir, LightRay, PixelVector};

fn at(x: i32, y: i32) -> PixelVector {
    PixelVector { x, y }
}

#[test]
fn central_highlight_reflects_straight_back() {
    let ray = light_dir(25, at(40, 30), at(40, 30), at(100, 200)).expect("on the sphere");
    assert_eq!(ray.offset_x, 0);
    assert_eq!(ray.offset_y, 0);
    assert_eq!(ray.radius_sq, 625);
    assert_eq!(ray.height_sq, 625);
    assert_eq!(ray.x_factor(), 0);
    assert_eq!(ray.y_factor(), 0);
    assert_eq!(ray.z_scaled(), 625);
    assert_eq!(ray.origin_x, 100);
    assert_eq!(ray.origin_y, 200);
}

#[test]
fn off_center_highlight_has_exact_terms() {
    let ray = light_dir(5, at(13, 6), at(10, 10), at(7, 2)).expect("on the sphere");
    assert_eq!(
        ray,
        LightRay {
            offset_x: 3,
            offset_y: -4,
            radius_sq: 25,
            height_sq: 0,
            origin_x: 10,
            origin_y: -2,
        }
    );
    assert_eq!(ray.x_factor(), 6);
    assert_eq!(ray.y_factor(), -8);
    assert_eq!(ray.z_scaled(), -25);
}

#[test]
fn direction_terms_follow_the_reflection_formula() {
    let ray = light_dir(28, at(30, 25), at(28, 28), at(2, 12)).expect("on the sphere");
    assert_eq!(ray.offset_x, 2);
    assert_eq!(ray.offset_y, -3);
    assert_eq!(ray.radius_sq, 784);
    assert_eq!(ray.height_sq, 771);
    assert_eq!(ray.x_factor(), 4);
    assert_eq!(ray.y_factor(), -6);
    assert_eq!(ray.z_scaled(), 758);
    assert_eq!(ray.origin_x, 4);
    assert_eq!(ray.origin_y, 9);
}

#[test]
fn direction_has_unit_length() {
    for &(r, x, y) in &[(28, 2, -3), (5, 3, -4), (100, -60, 70), (1, 0, 1), (46341, 30000, -20000)] {
        let ray = light_dir(r, at(x, y), at(0, 0), at(0, 0)).expect("on the sphere");
        let fx = ray.x_factor() as i128;
        let fy = ray.y_factor() as i128;
        let z = ray.z_scaled() as i128;
        let h = ray.height_sq as i128;
        let r2 = ray.radius_sq as i128;
        assert_eq!((fx * fx + fy * fy) * h + z * z, r2 * r2);
        assert_eq!(fx * ray.offset_x as i128 + fy * ray.offset_y as i128 + z, r2);
    }
}

#[test]
fn highlight_on_the_rim_is_still_on_the_sphere() {
    let ray = light_dir(10, at(10, 0), at(0, 0), at(0, 0)).expect("on the rim");
    assert_eq!(ray.height_sq, 0);
    assert_eq!(ray.z_scaled(), -100);
}

#[test]
fn highlight_outside_the_silhouette_has_no_ray() {
    assert_eq!(light_dir(10, at(10, 1), at(0, 0), at(0, 0)), None);
    assert_eq!(light_dir(5, at(0, 0), at(4, 4), at(0, 0)), None);
}

#[test]
fn zero_radius_has_no_ray() {
    assert_eq!(light_dir(0, at(3, 3), at(3, 3), at(0, 0)), None);
}

#[test]
fn negative_radius_gives_the_ray_of_the_positive_one() {
    let a = light_dir(-12, at(5, 7), at(2, 3), at(9, 9));
    let b = light_dir(12, at(5, 7), at(2, 3), at(9, 9));
    assert!(a.is_some());
    assert_eq!(a, b);
}

#[test]
fn extreme_coordinates_do_not_overflow() {
    let ray = light_dir(i32::MIN, at(i32::MAX, 0), at(0, 0), at(i32::MIN, i32::MAX))
        .expect("within the radius");
    assert_eq!(ray.radius_sq, 1i64 << 62);
    assert_eq!(ray.offset_x, i32::MAX as i64);
    assert_eq!(ray.height_sq, (1i64 << 62) - (i32::MAX as i64) * (i32::MAX as i64));
    assert_eq!(ray.origin_x, -1);
    assert_eq!(light_dir(1, at(i32::MAX, i32::MAX), at(i32::MIN, i32::MIN), at(0, 0)), None);
}

#[test]
fn well_formed_rays_lie_on_a_sphere() {
    let ray = light_dir(28, at(30, 25), at(28, 28), at(2, 12)).expect("on the sphere");
    assert!(ray.is_well_formed());
    assert!(!LightRay { height_sq: ray.height_sq + 1, ..ray }.is_well_formed());
    assert!(!LightRay { offset_x: ray.offset_x + 1, ..ray }.is_well_formed());
    assert!(LightRay { origin_x: -7, origin_y: 99, ..ray }.is_well_formed());
    let flat = LightRay {
        offset_x: 0,
        offset_y: 0,
        radius_sq: 0,
        height_sq: 0,
        origin_x: 0,
        origin_y: 0,
    };
    assert!(!flat.is_well_formed());
    assert!(!LightRay { radius_sq: -4, height_sq: -4, ..flat }.is_well_formed());
    assert!(!LightRay { radius_sq: 4, height_sq: -5, offset_x: 3, ..flat }.is_well_formed());
    assert!(LightRay { radius_sq: 25, height_sq: 0, offset_x: -3, offset_y: 4, ..flat }
        .is_well_formed());
}

#[test]
fn rays_with_extreme_offsets_are_not_well_formed() {
    let far = LightRay {
        offset_x: i64::MIN,
        offset_y: i64::MAX,
        radius_sq: i64::MAX,
        height_sq: 0,
        origin_x: 0,
        origin_y: 0,
    };
    assert!(!far.is_well_formed());
    assert!(!LightRay { offset_x: 1 << 32, offset_y: 0, ..far }.is_well_formed());
    let wide = LightRay {
        offset_x: 3_037_000_499,
        offset_y: 0,
        radius_sq: 3_037_000_499 * 3_037_000_499,
        height_sq: 0,
        origin_x: 0,
        origin_y: 0,
    };
    assert!(wide.is_well_formed());
}
