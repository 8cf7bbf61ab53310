use reel::motion_gain::MotionGain;

#[test]
fn applies_one_and_a_half_gain_with_remainders() {
    let mut gain = MotionGain::with_gain(384);
    let mut total = 0_i32;
    for _ in 0..256 {
        total += i32::from(gain.apply(1, 0).0);
    }
    assert!((383..=385).contains(&total));
}

#[test]
fn default_gain_is_unity() {
    let mut gain = MotionGain::new();
    assert_eq!(gain.apply(12, -7), (12, -7));
}

#[test]
fn one_and_a_half_gain_exact_sequence() {
    let mut gain = MotionGain::with_gain(384);
    assert_eq!(gain.apply(1, -1), (1, -1));
    assert_eq!(gain.apply(1, -1), (2, -2));
    assert_eq!(gain.apply(1, -1), (1, -1));
}

#[test]
fn half_gain_never_loses_motion() {
    let mut gain = MotionGain::with_gain(128);
    let mut total = 0_i32;
    for _ in 0..101 {
        total += i32::from(gain.apply(1, 0).0);
    }
    assert_eq!(total, 50);
    total += i32::from(gain.apply(1, 0).0);
    assert_eq!(total, 51);
}

#[test]
fn large_gain_saturates() {
    let mut gain = MotionGain::with_gain(256 * 4);
    assert_eq!(gain.apply(i16::MAX, i16::MIN), (i16::MAX, i16::MIN));
    assert_eq!(gain.apply(100, -100), (400, -400));
}

#[test]
fn unity_gain_keeps_extremes() {
    let mut gain = MotionGain::new();
    assert_eq!(gain.apply(i16::MIN, i16::MAX), (i16::MIN, i16::MAX));
    assert_eq!(gain.apply(0, 0), (0, 0));
}

#[test]
fn zeroed_gain_emits_nothing() {
    let mut gain = MotionGain::default();
    assert_eq!(gain.apply(100, -100), (0, 0));
}
