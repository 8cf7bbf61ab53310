use reel::rotary_decoder::{ClockedDetentDecoder, Detent, DEBOUNCE_SAMPLES};

const STABLE: usize = DEBOUNCE_SAMPLES as usize;

struct Harness {
    decoder: ClockedDetentDecoder,
    clockwise: u32,
    counterclockwise: u32,
}

impl Harness {
    fn new(a: bool, b: bool) -> Self {
        Self {
            decoder: ClockedDetentDecoder::new(a, b),
            clockwise: 0,
            counterclockwise: 0,
        }
    }

    /// Feed the same raw sample `count` times.
    fn hold(&mut self, (a, b): (bool, bool), count: usize) {
        for _ in 0..count {
            match self.decoder.update(a, b) {
                Some(Detent::Clockwise) => self.clockwise += 1,
                Some(Detent::CounterClockwise) => self.counterclockwise += 1,
                None => {}
            }
        }
    }

    /// Alternate between two raw samples, `period` samples each, `flips`
    /// times: bounce or chatter, always shorter than the debounce window.
    fn flap(&mut self, first: (bool, bool), second: (bool, bool), period: usize, flips: usize) {
        assert!(period < STABLE);
        for flip in 0..flips {
            let state = if flip % 2 == 0 { first } else { second };
            self.hold(state, period);
        }
    }

    fn assert_events(&mut self, clockwise: u32, counterclockwise: u32) {
        assert_eq!(
            (self.clockwise, self.counterclockwise),
            (clockwise, counterclockwise)
        );
        self.clockwise = 0;
        self.counterclockwise = 0;
    }
}

const S11: (bool, bool) = (true, true);
const S01: (bool, bool) = (false, true);
const S00: (bool, bool) = (false, false);
const S10: (bool, bool) = (true, false);

/// One measured-style CW click starting from a settled (1,1) rest: bouncy A
/// edge mid-travel, then the snap where both phases jitter together and B
/// comes out flipped.
fn cw_click_from_11(harness: &mut Harness) {
    harness.flap(S01, S11, 3, 5);
    harness.hold(S01, 200);
    harness.flap(S00, S11, 2, 6);
    harness.hold(S00, 200);
}

fn cw_click_from_00(harness: &mut Harness) {
    harness.flap(S10, S00, 3, 5);
    harness.hold(S10, 200);
    harness.flap(S11, S00, 2, 6);
    harness.hold(S11, 200);
}

/// One CCW click starting from a settled (0,0) rest: B crawls across its
/// threshold at departure, then A edges mid-travel.
fn ccw_click_from_00(harness: &mut Harness) {
    harness.hold(S01, STABLE + 5);
    harness.hold(S00, 3);
    harness.hold(S01, 200);
    harness.flap(S11, S01, 3, 5);
    harness.hold(S11, 200);
}

fn ccw_click_from_11(harness: &mut Harness) {
    harness.hold(S10, STABLE + 5);
    harness.hold(S11, 3);
    harness.hold(S10, 200);
    harness.flap(S00, S10, 3, 5);
    harness.hold(S00, 200);
}

#[test]
fn cw_clicks_emit_exactly_once_per_click() {
    let mut harness = Harness::new(true, true);
    cw_click_from_11(&mut harness);
    harness.assert_events(1, 0);
    cw_click_from_00(&mut harness);
    harness.assert_events(1, 0);
}

#[test]
fn ccw_clicks_emit_exactly_once_per_click() {
    let mut harness = Harness::new(false, false);
    ccw_click_from_00(&mut harness);
    harness.assert_events(0, 1);
    ccw_click_from_11(&mut harness);
    harness.assert_events(0, 1);
}

#[test]
fn eighteen_clicks_per_revolution_in_each_direction() {
    let mut harness = Harness::new(true, true);
    for _ in 0..9 {
        cw_click_from_11(&mut harness);
        cw_click_from_00(&mut harness);
    }
    harness.assert_events(18, 0);
    for _ in 0..9 {
        ccw_click_from_11(&mut harness);
        ccw_click_from_00(&mut harness);
    }
    harness.assert_events(0, 18);
}

#[test]
fn direction_reversal_is_immediate_and_correct() {
    let mut harness = Harness::new(true, true);
    cw_click_from_11(&mut harness);
    harness.assert_events(1, 0);
    ccw_click_from_00(&mut harness);
    harness.assert_events(0, 1);
    cw_click_from_11(&mut harness);
    harness.assert_events(1, 0);
}

#[test]
fn rest_chatter_on_b_never_emits() {
    let mut harness = Harness::new(false, false);
    harness.flap(S01, S00, 2, 100);
    for _ in 0..10 {
        harness.hold(S01, STABLE + 10);
        harness.hold(S00, STABLE + 10);
    }
    harness.assert_events(0, 0);
}

#[test]
fn short_glitches_on_a_are_ignored() {
    let mut harness = Harness::new(true, true);
    harness.flap(S01, S11, 4, 20);
    harness.hold(S11, 200);
    harness.assert_events(0, 0);
}

#[test]
fn snap_doubles_alone_never_emit() {
    let mut harness = Harness::new(false, true);
    harness.flap(S00, S11, 2, 8);
    harness.hold(S00, 200);
    harness.assert_events(0, 0);
}

#[test]
fn fast_rotation_still_counts_every_click() {
    let mut harness = Harness::new(true, true);
    for _ in 0..9 {
        harness.hold(S01, STABLE * 2);
        harness.hold(S00, STABLE * 2);
        harness.hold(S10, STABLE * 2);
        harness.hold(S11, STABLE * 2);
    }
    harness.assert_events(18, 0);
}

#[test]
fn detent_fires_on_the_sixteenth_sample() {
    let mut decoder = ClockedDetentDecoder::new(true, true);
    for _ in 0..STABLE - 1 {
        assert_eq!(decoder.update(false, true), None);
    }
    assert_eq!(decoder.update(false, true), Some(Detent::Clockwise));
    for _ in 0..100 {
        assert_eq!(decoder.update(false, true), None);
    }
}

#[test]
fn glitch_of_fifteen_samples_is_ignored() {
    let mut decoder = ClockedDetentDecoder::new(false, false);
    for _ in 0..STABLE - 1 {
        assert_eq!(decoder.update(true, false), None);
    }
    for _ in 0..300 {
        assert_eq!(decoder.update(false, true), None);
    }
}

#[test]
fn simultaneous_settle_uses_pre_edge_b() {
    // A and B change together and settle together: direction comes from the
    // old B level (false), so a rising A is clockwise.
    let mut decoder = ClockedDetentDecoder::new(false, false);
    let mut events = Vec::new();
    for _ in 0..STABLE {
        if let Some(d) = decoder.update(true, true) {
            events.push(d);
        }
    }
    assert_eq!(events, vec![Detent::Clockwise]);
    // the next A edge sees B's new level (true): a falling A is clockwise too
    for _ in 0..STABLE {
        if let Some(d) = decoder.update(false, true) {
            events.push(d);
        }
    }
    assert_eq!(events, vec![Detent::Clockwise, Detent::Clockwise]);
}
