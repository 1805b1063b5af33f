use tinyrenderer::{Vec2, Vec3};

#[test]
fn convert_widens_each_component() {
    let v: Vec3<u8> = Vec3(1, 2, 3);
    let w: Vec3<u32> = v.convert();
    assert_eq!(w, Vec3(1u32, 2, 3));
    let p: Vec2<i16> = Vec2(-4, 5);
    let q: Vec2<i64> = p.convert();
    assert_eq!(q, Vec2(-4i64, 5));
}

#[test]
fn map_applies_to_each_component() {
    assert_eq!(Vec3(1, 2, 3).map(|c: i32| c * 10), Vec3(10, 20, 30));
    assert_eq!(Vec2(1u32, 2).map(|c| c as i64 - 2), Vec2(-1i64, 0));
    assert_eq!(Vec2(7u8, 9).map(|c| c > 8), Vec2(false, true));
}

#[test]
fn hadamard_multiplies_component_by_component() {
    assert_eq!(Vec3(1, 2, 3).hadamard(Vec3(4, 5, 6)), Vec3(4, 10, 18));
    assert_eq!(Vec2(-2i64, 3).hadamard(Vec2(5, -7)), Vec2(-10, -21));
}

#[test]
fn sums_and_differences() {
    assert_eq!(Vec3(1, 2, 3) + Vec3(10, 20, 30), Vec3(11, 22, 33));
    assert_eq!(Vec3(1, 2, 3) - Vec3(10, 20, 30), Vec3(-9, -18, -27));
    assert_eq!(Vec2(1u32, 2) + Vec2(3, 4), Vec2(4, 6));
    assert_eq!(Vec2(5u32, 6) - Vec2(3, 4), Vec2(2, 2));
}

#[test]
fn scaling_by_a_scalar() {
    assert_eq!(Vec3(1, 2, 3) * 4, Vec3(4, 8, 12));
    assert_eq!(Vec3(8, 9, -10) / 4, Vec3(2, 2, -2));
    assert_eq!(Vec2(3u32, 4) * 2, Vec2(6, 8));
    assert_eq!(Vec2(7u32, 8) / 2, Vec2(3, 4));
}

#[test]
fn conversions_from_and_into_arrays_and_tuples() {
    assert_eq!(Vec3::from([1, 2, 3]), Vec3(1, 2, 3));
    assert_eq!(Vec3::from((1, 2, 3)), Vec3(1, 2, 3));
    assert_eq!(Vec2::from([1, 2]), Vec2(1, 2));
    assert_eq!(Vec2::from((1, 2)), Vec2(1, 2));
    assert_eq!(Vec3(1, 2, 3).into_array(), [1, 2, 3]);
    assert_eq!(Vec3(1, 2, 3).into_tuple(), (1, 2, 3));
    assert_eq!(Vec2(1, 2).into_array(), [1, 2]);
    assert_eq!(Vec2(1, 2).into_tuple(), (1, 2));
    assert_eq!(Vec2::from(Vec3(7, 8, 9)), Vec2(7, 8));
}

#[test]
fn defaults_are_zero() {
    assert_eq!(Vec3::<u32>::default(), Vec3(0, 0, 0));
    assert_eq!(Vec2::<i64>::default(), Vec2(0, 0));
    let v: Vec3 = Default::default();
    assert_eq!(v, Vec3(0u32, 0, 0));
}

#[test]
fn vector_order_is_lexicographic() {
    assert!(Vec3(1, 9, 9) < Vec3(2, 0, 0));
    assert!(Vec3(1, 1, 9) < Vec3(1, 2, 0));
    assert!(Vec2(1, 9) < Vec2(2, 0));
    assert!(Vec2(1, 1) < Vec2(1, 2));
}
