use netsync::vector::{advance_coordinate, integer_sqrt, Quat, Vec2, Vec3, UNIT};

#[test]
fn integer_sqrt_of_small_numbers() {
    assert_eq!(integer_sqrt(0), 0);
    assert_eq!(integer_sqrt(1), 1);
    assert_eq!(integer_sqrt(2), 1);
    assert_eq!(integer_sqrt(3), 1);
    assert_eq!(integer_sqrt(4), 2);
    assert_eq!(integer_sqrt(999_999), 999);
    assert_eq!(integer_sqrt(1_000_000), 1000);
    assert_eq!(integer_sqrt(1_000_001), 1000);
}

#[test]
fn integer_sqrt_of_the_largest_number() {
    assert_eq!(integer_sqrt(u64::MAX), 4_294_967_295);
    assert_eq!(integer_sqrt(u64::MAX - 1), 4_294_967_295);
    assert_eq!(integer_sqrt(4_294_967_295 * 4_294_967_295 - 1), 4_294_967_294);
}

#[test]
fn unit_is_one_thousand() {
    assert_eq!(UNIT, 1000);
}

#[test]
fn normalize_diagonal() {
    let v = Vec2 { x: 1000, y: 1000 };
    assert_eq!(v.normalize_or_zero(), Vec2 { x: 707, y: 707 });
    let w = Vec2 { x: -1000, y: 1000 };
    assert_eq!(w.normalize_or_zero(), Vec2 { x: -707, y: 707 });
}

#[test]
fn normalize_axis_and_zero() {
    assert_eq!(Vec2 { x: -1000, y: 0 }.normalize_or_zero(), Vec2 { x: -1000, y: 0 });
    assert_eq!(Vec2 { x: 0, y: 0 }.normalize_or_zero(), Vec2 { x: 0, y: 0 });
    assert_eq!(Vec2 { x: 1, y: 0 }.normalize_or_zero(), Vec2 { x: 1000, y: 0 });
    assert_eq!(Vec2 { x: 3, y: 4 }.normalize_or_zero(), Vec2 { x: 600, y: 800 });
}

#[test]
fn clamp_leaves_short_vectors_alone() {
    assert_eq!(Vec2 { x: 300, y: 400 }.clamp_length_max(), Vec2 { x: 300, y: 400 });
    assert_eq!(Vec2 { x: 1000, y: 0 }.clamp_length_max(), Vec2 { x: 1000, y: 0 });
    assert_eq!(Vec2 { x: 0, y: -1000 }.clamp_length_max(), Vec2 { x: 0, y: -1000 });
    assert_eq!(Vec2 { x: 600, y: 800 }.clamp_length_max(), Vec2 { x: 600, y: 800 });
    assert_eq!(Vec2 { x: 0, y: 0 }.clamp_length_max(), Vec2 { x: 0, y: 0 });
}

#[test]
fn clamp_shortens_long_vectors() {
    assert_eq!(Vec2 { x: 3000, y: 4000 }.clamp_length_max(), Vec2 { x: 600, y: 800 });
    assert_eq!(Vec2 { x: -3000, y: -4000 }.clamp_length_max(), Vec2 { x: -600, y: -800 });
    assert_eq!(Vec2 { x: 1000, y: 1 }.clamp_length_max(), Vec2 { x: 999, y: 0 });
    assert_eq!(Vec2 { x: 1000, y: 1000 }.clamp_length_max(), Vec2 { x: 707, y: 707 });
}

#[test]
fn clamp_of_the_extreme_vector() {
    let v = Vec2 { x: i32::MIN, y: i32::MIN };
    assert_eq!(v.clamp_length_max(), Vec2 { x: -707, y: -707 });
    let w = Vec2 { x: i32::MAX, y: i32::MIN };
    let c = w.clamp_length_max();
    assert_eq!(c, Vec2 { x: 707, y: -707 });
}

#[test]
fn clamped_vectors_are_never_longer_than_one_unit() {
    let samples = [
        Vec2 { x: 1001, y: 0 },
        Vec2 { x: 123456, y: -654321 },
        Vec2 { x: i32::MAX, y: 1 },
        Vec2 { x: -7, y: 1000 },
        Vec2 { x: 999, y: 999 },
    ];
    for v in samples {
        let c = v.clamp_length_max();
        let s = (c.x as i64) * (c.x as i64) + (c.y as i64) * (c.y as i64);
        assert!(s <= 1_000_000);
        assert_eq!(c.clamp_length_max(), c);
    }
}

#[test]
fn is_zero_tells_the_zero_vector() {
    assert!(Vec2 { x: 0, y: 0 }.is_zero());
    assert!(!Vec2 { x: 0, y: 1 }.is_zero());
    assert!(!Vec2 { x: -1, y: 0 }.is_zero());
    assert_eq!(Vec2::new_zero(), Vec2 { x: 0, y: 0 });
}

#[test]
fn advance_coordinate_rounds_toward_zero() {
    assert_eq!(advance_coordinate(0, 1000, 1000, 16_000), 16_000);
    assert_eq!(advance_coordinate(0, -1000, 1000, 16_000), -16_000);
    assert_eq!(advance_coordinate(5, 707, 200, 16_667), 2361);
    assert_eq!(advance_coordinate(5, -707, 200, 16_667), -2351);
    assert_eq!(advance_coordinate(0, 1, 1, 999_999), 0);
    assert_eq!(advance_coordinate(0, -1, 1, 999_999), 0);
    assert_eq!(advance_coordinate(0, 1, 1, 1_000_000), 1);
}

#[test]
fn advance_coordinate_saturates() {
    assert_eq!(advance_coordinate(i32::MAX, 1000, 1000, 16_000), i32::MAX);
    assert_eq!(advance_coordinate(i32::MIN, -1000, 1000, 16_000), i32::MIN);
    assert_eq!(advance_coordinate(0, i32::MAX, i32::MAX, u32::MAX), i32::MAX);
    assert_eq!(advance_coordinate(0, i32::MIN, i32::MAX, u32::MAX), i32::MIN);
    assert_eq!(advance_coordinate(7, 1000, 1000, 0), 7);
}

#[test]
fn vec2_advance_moves_both_coordinates() {
    let v = Vec2 { x: 100, y: -100 };
    let d = Vec2 { x: 600, y: -800 };
    assert_eq!(v.advance(d, 1000, 1_000_000), Vec2 { x: 600_100, y: -800_100 });
}

#[test]
fn vec3_advance_keeps_height() {
    let p = Vec3 { x: 0, y: 0, z: 42 };
    let d = Vec2 { x: 1000, y: 0 };
    assert_eq!(p.advance(d, 200, 16_000), Vec3 { x: 3200, y: 0, z: 42 });
}

#[test]
fn lerp_half_goes_halfway() {
    let a = Vec3 { x: 0, y: 0, z: 0 };
    let b = Vec3 { x: 10, y: -10, z: 5 };
    assert_eq!(a.lerp_half(b), Vec3 { x: 5, y: -5, z: 2 });
    assert_eq!(b.lerp_half(a), Vec3 { x: 5, y: -5, z: 3 });
    let c = Vec3 { x: 1, y: 0, z: 0 };
    assert_eq!(c.lerp_half(a), Vec3 { x: 1, y: 0, z: 0 });
    assert_eq!(a.lerp_half(a), a);
}

#[test]
fn lerp_half_of_extremes_does_not_overflow() {
    let a = Vec3 { x: i32::MIN, y: i32::MAX, z: 0 };
    let b = Vec3 { x: i32::MAX, y: i32::MIN, z: 0 };
    assert_eq!(a.lerp_half(b), Vec3 { x: -1, y: 0, z: 0 });
}

#[test]
fn squared_distance_is_exact() {
    let a = Vec3 { x: 0, y: 0, z: 0 };
    let b = Vec3 { x: 3, y: 4, z: 12 };
    assert_eq!(a.squared_distance(b), 169);
    assert_eq!(b.squared_distance(a), 169);
    assert_eq!(a.squared_distance(a), 0);
    let lo = Vec3 { x: i32::MIN, y: i32::MIN, z: i32::MIN };
    let hi = Vec3 { x: i32::MAX, y: i32::MAX, z: i32::MAX };
    assert_eq!(lo.squared_distance(hi), 55_340_232_195_358_851_075u128);
}

#[test]
fn origin_and_identity() {
    assert_eq!(Vec3::new_origin(), Vec3 { x: 0, y: 0, z: 0 });
    assert_eq!(Quat::new_identity(), Quat { x: 0, y: 0, z: 0, w: 1000 });
}
