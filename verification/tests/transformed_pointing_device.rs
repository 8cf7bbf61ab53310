use reel::calibration_config::{apply_matrix, MatrixCoefficients, MatrixStore};
use reel::transformed_pointing_device::{
    AttemptOutcome, InitStep, PointingReport, TransformingPointingDevice,
};

#[test]
fn report_timing_from_report_rate() {
    let device = TransformingPointingDevice::with_report_hz(7, 125);
    assert_eq!(device.report_interval(), 8000);
    assert_eq!(device.poll_interval(), 500);
    // a report rate above 2 kHz shortens polling to the report interval
    let fast = TransformingPointingDevice::with_report_hz(7, 4000);
    assert_eq!(fast.report_interval(), 250);
    assert_eq!(fast.poll_interval(), 250);
}

#[test]
fn init_succeeds_on_first_attempt() {
    let mut device = TransformingPointingDevice::with_report_hz(0, 125);
    assert!(!device.is_ready());
    assert_eq!(device.begin_init(), InitStep::Attempt);
    assert_eq!(device.finish_init_attempt(true), AttemptOutcome::Ready);
    assert!(device.is_ready());
    assert_eq!(device.begin_init(), InitStep::Ready);
}

#[test]
fn init_gives_up_after_three_failures() {
    let mut device = TransformingPointingDevice::with_report_hz(0, 125);
    assert_eq!(device.begin_init(), InitStep::Attempt);
    assert_eq!(device.finish_init_attempt(false), AttemptOutcome::RetryAfterDelay);
    assert_eq!(device.begin_init(), InitStep::Attempt);
    assert_eq!(device.finish_init_attempt(false), AttemptOutcome::RetryAfterDelay);
    assert_eq!(device.begin_init(), InitStep::Attempt);
    assert_eq!(device.finish_init_attempt(false), AttemptOutcome::Failed);
    assert_eq!(device.begin_init(), InitStep::Failed);
    assert!(!device.is_ready());
}

#[test]
fn no_report_without_motion() {
    let store = MatrixStore::new();
    let mut device = TransformingPointingDevice::with_report_hz(3, 125);
    assert!(!device.has_pending_motion());
    assert_eq!(device.take_report_event(&store), None);
}

#[test]
fn motion_is_accumulated_and_reported_once() {
    let mut store = MatrixStore::new();
    apply_matrix(&mut store, MatrixCoefficients { m00: 1000, m01: 0, m10: 0, m11: 1000 });
    let mut device = TransformingPointingDevice::with_report_hz(3, 125);
    device.add_motion(2, -1);
    device.add_motion(1, -3);
    assert!(device.has_pending_motion());
    assert_eq!(
        device.take_report_event(&store),
        Some(PointingReport { device_id: 3, x: 3, y: -4 })
    );
    assert!(!device.has_pending_motion());
    assert_eq!(device.take_report_event(&store), None);
}

#[test]
fn accumulated_motion_saturates() {
    let mut store = MatrixStore::new();
    apply_matrix(&mut store, MatrixCoefficients { m00: 1000, m01: 0, m10: 0, m11: 1000 });
    let mut device = TransformingPointingDevice::with_report_hz(1, 125);
    for _ in 0..10 {
        device.add_motion(i16::MAX, i16::MIN);
    }
    assert_eq!(
        device.take_report_event(&store),
        Some(PointingReport { device_id: 1, x: i16::MAX, y: i16::MIN })
    );
}

#[test]
fn report_uses_live_default_matrix() {
    let store = MatrixStore::new();
    let mut device = TransformingPointingDevice::with_report_hz(9, 125);
    device.add_motion(1000, 0);
    let report = device.take_report_event(&store).unwrap();
    let length_squared = i32::from(report.x) * i32::from(report.x) + i32::from(report.y) * i32::from(report.y);
    assert!((995_000..=1_005_000).contains(&length_squared));
    assert!(report.x < 0 && report.y < 0);
}

#[test]
fn report_pacing_waits() {
    let mut store = MatrixStore::new();
    apply_matrix(&mut store, MatrixCoefficients { m00: 1000, m01: 0, m10: 0, m11: 1000 });
    let mut device = TransformingPointingDevice::with_report_hz(1, 125);
    // the first wait starts both clocks; no motion means no report timer
    assert_eq!(device.next_waits(1000), (500, None));
    device.add_motion(1, 0);
    assert_eq!(device.next_waits(1200), (300, Some(7800)));
    device.poll_done(1500);
    assert_eq!(device.next_waits(1600), (400, Some(7400)));
    // overdue waits are zero
    assert_eq!(device.next_waits(20_000), (0, Some(0)));
    assert_eq!(
        device.report_timer_fired(&store, 9000),
        Some(PointingReport { device_id: 1, x: 1, y: 0 })
    );
    assert_eq!(device.next_waits(9100), (0, None));
    device.add_motion(0, 2);
    assert_eq!(device.next_waits(9100), (0, Some(7900)));
    device.poll_done(9100);
    assert_eq!(device.next_waits(9200), (400, Some(7800)));
}

#[test]
fn report_timer_without_motion_keeps_clock() {
    let store = MatrixStore::new();
    let mut device = TransformingPointingDevice::with_report_hz(1, 125);
    assert_eq!(device.next_waits(100), (500, None));
    assert_eq!(device.report_timer_fired(&store, 5000), None);
    device.add_motion(5, 5);
    // the report clock still counts from 100
    assert_eq!(device.next_waits(5000), (0, Some(3100)));
}
