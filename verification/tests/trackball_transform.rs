use reel::calibration_config::MatrixCoefficients;
use reel::trackball_transform::{integer_sqrt, TrackballTransform};

#[test]
fn integer_sqrt_rounds_down() {
    assert_eq!(integer_sqrt(0), 0);
    assert_eq!(integer_sqrt(1), 1);
    assert_eq!(integer_sqrt(2), 1);
    assert_eq!(integer_sqrt(9), 3);
    assert_eq!(integer_sqrt(15), 3);
}

#[test]
fn applies_calibrated_matrix() {
    let mut transform = TrackballTransform::new();
    let (x, y) = transform.apply(1000, 0, MatrixCoefficients::default());
    let length_squared = i32::from(x) * i32::from(x) + i32::from(y) * i32::from(y);
    assert!((995_000..=1_005_000).contains(&length_squared));

    let (x, y) = transform.apply(0, 1000, MatrixCoefficients::default());
    let length_squared = i32::from(x) * i32::from(x) + i32::from(y) * i32::from(y);
    assert!((995_000..=1_005_000).contains(&length_squared));
}

#[test]
fn retains_fractional_motion() {
    let mut transform = TrackballTransform::new();
    assert_eq!(transform.apply(1, 0, MatrixCoefficients::default()), (0, 0));
    assert_eq!(transform.apply(1, 0, MatrixCoefficients::default()), (0, -1));
    assert_eq!(transform.apply(1, 0, MatrixCoefficients::default()), (0, -1));
    assert_eq!(transform.apply(1, 0, MatrixCoefficients::default()), (-1, -1));
}

#[test]
fn uses_truncation_toward_zero() {
    let mut transform = TrackballTransform::new();
    assert_eq!(transform.apply(1, 0, MatrixCoefficients::default()), (0, 0));
    assert_eq!(transform.apply(-1, 0, MatrixCoefficients::default()), (0, 0));
}

#[test]
fn clamps_to_i16() {
    let mut transform = TrackballTransform::new();
    let (x, y) = transform.apply(i16::MIN, i16::MAX, MatrixCoefficients::default());
    assert_eq!(x, i16::MAX);
    assert!(y < i16::MAX);
}

#[test]
fn integer_sqrt_of_large_values() {
    assert_eq!(integer_sqrt(u64::MAX), 4_294_967_295);
    assert_eq!(integer_sqrt(1 << 62), 1 << 31);
    assert_eq!(integer_sqrt((1 << 62) - 1), (1 << 31) - 1);
    assert_eq!(integer_sqrt(999_999_999_999), 999_999);
    assert_eq!(integer_sqrt(1_000_000_000_000), 1_000_000);
    for v in 0..2000u64 {
        let r = integer_sqrt(v);
        assert!(r * r <= v && v < (r + 1) * (r + 1));
    }
}

#[test]
fn zero_motion_stays_zero_and_keeps_fraction() {
    let mut transform = TrackballTransform::new();
    assert_eq!(transform.apply(1, 0, MatrixCoefficients::default()), (0, 0));
    assert_eq!(transform.apply(0, 0, MatrixCoefficients::default()), (0, 0));
    // the fraction carried by the first report is still there
    assert_eq!(transform.apply(1, 0, MatrixCoefficients::default()), (0, -1));
}

#[test]
fn identity_matrix_passes_motion_through() {
    let identity = MatrixCoefficients { m00: 1000, m01: 0, m10: 0, m11: 1000 };
    let mut transform = TrackballTransform::new();
    assert_eq!(transform.apply(3, -4, identity), (3, -4));
    assert_eq!(transform.apply(-120, 7, identity), (-120, 7));
}

#[test]
fn rotation_matrix_rotates() {
    let quarter_turn = MatrixCoefficients { m00: 0, m01: -1000, m10: 1000, m11: 0 };
    let mut transform = TrackballTransform::new();
    assert_eq!(transform.apply(10, 0, quarter_turn), (0, 10));
    assert_eq!(transform.apply(0, 10, quarter_turn), (-10, 0));
}
