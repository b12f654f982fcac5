use framework::error::{u32_to_decimal, RuntimeError};
use framework::mat4::Mat4x4;

#[test]
fn decimal_rendering() {
    assert_eq!(u32_to_decimal(0), "0");
    assert_eq!(u32_to_decimal(7), "7");
    assert_eq!(u32_to_decimal(907), "907");
    assert_eq!(u32_to_decimal(1000), "1000");
    assert_eq!(u32_to_decimal(u32::MAX), "4294967295");
}

#[test]
fn error_accessors() {
    let e = RuntimeError::new("renderer.rs", 12, 34, "boom".to_string());
    assert_eq!(e.what(), "boom");
    assert_eq!(e.debug_info(), "[renderer.rs::12::34]>>boom");
}

#[test]
fn identity_is_neutral_for_multiplication() {
    let t = Mat4x4::from_translation(3, -4, 5);
    assert_eq!(t.mul_matrix4x4(Mat4x4::identity()), t);
    assert_eq!(Mat4x4::identity().mul_matrix4x4(t), t);
}

#[test]
fn translations_compose_by_adding_offsets() {
    let a = Mat4x4::from_translation(1, 2, 3);
    let b = Mat4x4::from_translation(10, 20, 30);
    assert_eq!(a.mul_matrix4x4(b), Mat4x4::from_translation(11, 22, 33));
}

#[test]
fn multiplication_wraps_on_overflow() {
    let mut big = Mat4x4::identity();
    big.r1c1 = i64::MAX;
    let mut two = Mat4x4::identity();
    two.r1c1 = 2;
    let product = big.mul_matrix4x4(two);
    assert_eq!(product.r1c1, i64::MAX.wrapping_mul(2));
    assert_eq!(product.r2c2, 1);
}
