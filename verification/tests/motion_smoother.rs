use reel::motion_smoother::MotionSmoother;

#[test]
fn smooths_small_motion_and_flushes_tail() {
    let mut smoother = MotionSmoother::new();
    let mut output = 0_i32;
    let first = smoother.apply(3, 0).0;
    output += i32::from(first);
    assert!(smoother.has_pending());
    for _ in 0..16 {
        output += i32::from(smoother.apply(0, 0).0);
        if !smoother.has_pending() {
            break;
        }
    }
    assert!(!smoother.has_pending());
    assert!((2..=3).contains(&output));
}

#[test]
fn bypasses_larger_motion_without_tail() {
    let mut smoother = MotionSmoother::new();
    assert_eq!(smoother.apply(8, 0), (8, 0));
    assert!(!smoother.has_pending());
}

#[test]
fn keeps_sustained_motion_near_the_input() {
    let mut smoother = MotionSmoother::new();
    let mut output = 0_i32;
    for _ in 0..8 {
        output += i32::from(smoother.apply(4, 0).0);
    }
    assert!(output >= 27);
    assert!(output <= 32);
}

#[test]
fn bypass_threshold_counts_both_axes() {
    let mut smoother = MotionSmoother::new();
    assert_eq!(smoother.apply(4, -4), (4, -4));
    assert!(!smoother.has_pending());
    assert_eq!(smoother.apply(i16::MIN, i16::MAX), (i16::MIN, i16::MAX));
    // seven counts in total are filtered
    let (x, y) = smoother.apply(4, -3);
    assert!(smoother.has_pending());
    assert_eq!((x, y), (3, -2));
}

#[test]
fn filtered_first_step_values() {
    let mut smoother = MotionSmoother::new();
    // level 3 * 3 * 256 / 4 = 576 -> 2 counts, 64 carried
    assert_eq!(smoother.apply(3, 0), (2, 0));
    // level 576 / 4 = 144, plus 64 carried -> 208 -> 0 counts
    assert_eq!(smoother.apply(0, 0), (0, 0));
    // level 36, plus 208 -> 244 -> 0
    assert_eq!(smoother.apply(0, 0), (0, 0));
    // level 9, plus 244 -> 253 -> 0
    assert_eq!(smoother.apply(0, 0), (0, 0));
    // level 2, plus 253 -> 255 -> 0
    assert_eq!(smoother.apply(0, 0), (0, 0));
    // level 0: fraction dropped
    assert_eq!(smoother.apply(0, 0), (0, 0));
    assert!(!smoother.has_pending());
}

#[test]
fn idle_reports_drain_within_six_steps() {
    let mut smoother = MotionSmoother::new();
    for _ in 0..50 {
        smoother.apply(7, 0);
    }
    for _ in 0..50 {
        smoother.apply(-3, 4);
    }
    assert!(smoother.has_pending());
    for _ in 0..6 {
        smoother.apply(0, 0);
    }
    assert!(!smoother.has_pending());
}

#[test]
fn default_smoother_is_empty() {
    let smoother = MotionSmoother::default();
    assert!(!smoother.has_pending());
}

#[test]
fn unit_motion_is_carried_through_fractions() {
    let mut smoother = MotionSmoother::new();
    let outputs: Vec<i16> = (0..4).map(|_| smoother.apply(1, 0).0).collect();
    assert_eq!(outputs, vec![0, 1, 1, 1]);
    assert_eq!(smoother.apply(-1, 0).0, 0);
}
