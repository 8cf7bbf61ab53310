use reel::calibration_config::{
    apply_matrix, checksum, current_matrix, decode_blob, encode_blob, CalibrationConfigWatcher,
    MatrixCoefficients, MatrixStore, CALIBRATION_BLOB_SIZE,
};

fn matrix(m00: i32, m01: i32, m10: i32, m11: i32) -> MatrixCoefficients {
    MatrixCoefficients { m00, m01, m10, m11 }
}

#[test]
fn blob_round_trip() {
    let matrix = MatrixCoefficients::default();
    assert_eq!(decode_blob(&encode_blob(matrix)), Some(matrix));
}

#[test]
fn default_blob_matches_browser_wire_format() {
    assert_eq!(
        encode_blob(MatrixCoefficients::default()),
        [
            0x52, 0x4c, 0x43, 0x31, 0x01, 0x00, 0xe8, 0x03, 0xf7, 0xfe, 0xff, 0xff, 0x76, 0x04,
            0x00, 0x00, 0xc1, 0xfc, 0xff, 0xff, 0x32, 0x02, 0x00, 0x00, 0x8d, 0x69, 0x15, 0x6a,
        ]
    );
}

#[test]
fn rejects_corruption() {
    let mut blob = encode_blob(MatrixCoefficients::default());
    blob[10] ^= 0x80;
    assert_eq!(decode_blob(&blob), None);
}

#[test]
fn rejects_dangerous_matrix() {
    assert!(
        !MatrixCoefficients {
            m00: 0,
            m01: 0,
            m10: 0,
            m11: 0,
        }
        .is_safe()
    );
}

#[test]
fn default_matrix_values() {
    assert_eq!(MatrixCoefficients::default(), matrix(-265, 1142, -831, 562));
    assert!(MatrixCoefficients::default().is_safe());
}

#[test]
fn safety_limits_are_inclusive() {
    assert!(matrix(16_000, 0, 0, 16_000).is_safe());
    assert!(matrix(-16_000, 0, 0, -16_000).is_safe());
    assert!(!matrix(16_001, 0, 0, 16_000).is_safe());
    assert!(!matrix(1000, -16_001, 0, 1000).is_safe());
    assert!(!matrix(1000, 0, i32::MIN, 1000).is_safe());
    assert!(!matrix(1000, 0, 0, i32::MAX).is_safe());
    // determinant exactly 10 000 is accepted, 9 999 is not
    assert!(matrix(100, 0, 0, 100).is_safe());
    assert!(!matrix(99, 0, 0, 101).is_safe());
    assert!(matrix(0, 100, -100, 0).is_safe());
    assert!(!matrix(0, 99, -101, 0).is_safe());
}

#[test]
fn fnv1a_known_values() {
    assert_eq!(checksum(&[]), 0x811c_9dc5);
    assert_eq!(checksum(b"a"), 0xe40c_292c);
    assert_eq!(checksum(b"foobar"), 0xbf9c_f968);
}

#[test]
fn unsafe_matrix_record_is_refused() {
    let blob = encode_blob(matrix(20_000, 0, 0, 1000));
    assert_eq!(decode_blob(&blob), None);
    let singular = encode_blob(matrix(1000, 1000, 1000, 1000));
    assert_eq!(decode_blob(&singular), None);
}

#[test]
fn safe_matrices_round_trip() {
    for m in [
        matrix(1000, 0, 0, 1000),
        matrix(-16_000, 15_999, 12, -7),
        matrix(0, -1000, 1000, 0),
        matrix(333, -4444, 5555, -66),
    ] {
        assert!(m.is_safe());
        let blob = encode_blob(m);
        assert_eq!(decode_blob(&blob), Some(m));
        assert_eq!(encode_blob(decode_blob(&blob).unwrap()), blob);
    }
}

#[test]
fn every_single_byte_change_is_rejected() {
    let blob = encode_blob(matrix(-265, 1142, -831, 562));
    for position in 0..CALIBRATION_BLOB_SIZE {
        for flip in [0x01u8, 0x80, 0xff, 0x5a] {
            let mut corrupted = blob;
            corrupted[position] ^= flip;
            assert_eq!(decode_blob(&corrupted), None, "byte {position} ^ {flip:#x}");
        }
    }
}

#[test]
fn header_fields_are_checked() {
    let good = encode_blob(MatrixCoefficients::default());
    let mut wrong_version = good;
    wrong_version[4] = 2;
    assert_eq!(decode_blob(&wrong_version), None);
    let mut wrong_scale = good;
    wrong_scale[6] = 0x00;
    wrong_scale[7] = 0x00;
    assert_eq!(decode_blob(&wrong_scale), None);
    assert_eq!(decode_blob(&[0u8; CALIBRATION_BLOB_SIZE]), None);
}

#[test]
fn store_reads_back_what_was_applied() {
    let mut store = MatrixStore::new();
    assert_eq!(current_matrix(&store), MatrixCoefficients::default());
    let m = matrix(1000, 0, 0, 1000);
    apply_matrix(&mut store, m);
    assert_eq!(current_matrix(&store), m);
}

#[test]
fn watcher_initialize_repairs_invalid_record() {
    let mut store = MatrixStore::new();
    let mut watcher = CalibrationConfigWatcher::new();
    let write_back = watcher.initialize(&mut store, &[0u8; CALIBRATION_BLOB_SIZE]);
    assert_eq!(write_back, Some(encode_blob(MatrixCoefficients::default())));
    assert_eq!(current_matrix(&store), MatrixCoefficients::default());
}

#[test]
fn watcher_initialize_applies_valid_record() {
    let mut store = MatrixStore::new();
    let mut watcher = CalibrationConfigWatcher::new();
    let m = matrix(1000, 10, -20, 900);
    let write_back = watcher.initialize(&mut store, &encode_blob(m));
    assert_eq!(write_back, None);
    assert_eq!(current_matrix(&store), m);
}

#[test]
fn watcher_refresh_keeps_last_valid_matrix() {
    let mut store = MatrixStore::new();
    let mut watcher = CalibrationConfigWatcher::new();
    let first = matrix(1000, 0, 0, 1000);
    watcher.initialize(&mut store, &encode_blob(first));

    let mut corrupt = encode_blob(matrix(0, 1000, 1000, 0));
    corrupt[12] ^= 0x01;
    watcher.refresh(&mut store, &corrupt);
    assert_eq!(current_matrix(&store), first);

    watcher.refresh(&mut store, &encode_blob(matrix(0, 0, 0, 0)));
    assert_eq!(current_matrix(&store), first);

    let second = matrix(0, 1000, 1000, 0);
    watcher.refresh(&mut store, &encode_blob(second));
    assert_eq!(current_matrix(&store), second);
}
