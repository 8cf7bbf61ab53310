use reel::rotary_state::{EncoderDirection, RotaryState};

#[test]
fn emits_once_for_every_stable_a_transition() {
    let mut state = RotaryState::new(false);

    assert_eq!(state.settle(false, true), Some(EncoderDirection::Clockwise));
    assert_eq!(state.settle(true, false), Some(EncoderDirection::Clockwise));
    assert_eq!(state.settle(false, true), Some(EncoderDirection::Clockwise));
    assert_eq!(state.settle(true, false), Some(EncoderDirection::Clockwise));
}

#[test]
fn rejects_bounce_that_returns_to_the_previous_state() {
    let mut state = RotaryState::new(false);

    assert_eq!(state.settle(true, false), None);
    assert_eq!(state.settle(false, true), Some(EncoderDirection::Clockwise));
}

#[test]
fn phase_b_selects_a_consistent_direction() {
    let mut clockwise = RotaryState::new(false);
    let mut counter_clockwise = RotaryState::new(false);

    assert_eq!(
        clockwise.settle(false, true),
        Some(EncoderDirection::Clockwise)
    );
    assert_eq!(
        counter_clockwise.settle(true, true),
        Some(EncoderDirection::CounterClockwise)
    );
}

#[test]
fn falling_a_with_low_b_is_counter_clockwise() {
    let mut state = RotaryState::new(true);
    assert_eq!(state.settle(false, false), Some(EncoderDirection::CounterClockwise));
    assert_eq!(state.settle(false, false), None);
}
