use reel::rotary_accumulator::DetentAccumulator;

#[test]
fn two_quadrature_counts_make_one_detent() {
    let mut accumulator = DetentAccumulator::new(2);

    assert_eq!(accumulator.push(1), 0);
    assert_eq!(accumulator.push(1), 1);
}

#[test]
fn negative_counts_preserve_direction() {
    let mut accumulator = DetentAccumulator::new(2);

    assert_eq!(accumulator.push(-1), 0);
    assert_eq!(accumulator.push(-1), -1);
}

#[test]
fn opposite_bounce_cancels_without_an_event() {
    let mut accumulator = DetentAccumulator::new(2);

    assert_eq!(accumulator.push(1), 0);
    assert_eq!(accumulator.push(-1), 0);
    assert_eq!(accumulator.push(1), 0);
    assert_eq!(accumulator.push(1), 1);
}

#[test]
fn burst_keeps_incomplete_detent_for_the_next_sample() {
    let mut accumulator = DetentAccumulator::new(2);

    assert_eq!(accumulator.push(5), 2);
    assert_eq!(accumulator.push(1), 1);
}

#[test]
fn one_count_per_detent_passes_counts_through() {
    let mut accumulator = DetentAccumulator::new(1);
    assert_eq!(accumulator.push(i16::MIN), i16::MIN);
    assert_eq!(accumulator.push(i16::MAX), i16::MAX);
    assert_eq!(accumulator.push(-3), -3);
}

#[test]
fn counts_are_conserved_over_a_run() {
    let mut accumulator = DetentAccumulator::new(4);
    let inputs = [3i16, -1, 7, 2, -9, -4, 1, 1, 1, 30];
    let mut detents = 0i32;
    for c in inputs {
        detents += i32::from(accumulator.push(c));
    }
    let total: i32 = inputs.iter().map(|&c| i32::from(c)).sum();
    // 31 counts: 7 whole detents, 3 counts still pending
    assert_eq!(total, 31);
    assert_eq!(detents, 7);
    assert_eq!(accumulator.push(1), 1);
}

#[test]
fn large_detent_size_with_extreme_counts() {
    let mut accumulator = DetentAccumulator::new(i16::MAX);
    assert_eq!(accumulator.push(i16::MAX - 1), 0);
    assert_eq!(accumulator.push(i16::MAX), 1);
    assert_eq!(accumulator.push(i16::MIN), 0);
    assert_eq!(accumulator.push(i16::MIN), -1);
}
