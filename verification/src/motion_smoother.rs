//! An adaptive low-pass filter for relative pointing reports.
//!
//! The state is kept in fixed point so sub-count motion is not discarded.
//! When the sensor stops reporting, the caller flushes the pending state at the
//! normal report rate instead of leaving it in the filter indefinitely.
//! Larger motion bypasses the filter to avoid adding cursor latency.

use vstd::prelude::*;
use crate::fixed_point::{tdiv, trem, lemma_trem_bounds};

verus! {

pub const FILTER_SCALE: i32 = 256;

pub const FILTER_INPUT_WEIGHT: i32 = 3;

pub const FILTER_DENOMINATOR: i32 = 4;

/// Reports whose |x| + |y| reaches this bypass the filter.
pub const BYPASS_MOTION_THRESHOLD: u32 = 8;

/// The filter's state as plain values: per axis the filtered level, in 1/256
/// counts, and the fraction of a count not yet emitted.
pub struct SmootherView {
    pub x_state: i32,
    pub y_state: i32,
    pub x_remainder: i32,
    pub y_remainder: i32,
}

pub open spec fn magnitude(v: int) -> int {
    if v < 0 {
        -v
    } else {
        v
    }
}

/// The filter's invariant: levels within what inputs below the bypass
/// threshold can build up, fractions below one count.
pub open spec fn smoother_wf(v: SmootherView) -> bool {
    &&& -1792 <= v.x_state <= 1792
    &&& -1792 <= v.y_state <= 1792
    &&& -256 < v.x_remainder < 256
    &&& -256 < v.y_remainder < 256
}

/// One axis of one filtered report: the new level, the new carried fraction
/// and the emitted count.  The level moves three quarters of the way to the
/// input; a level of zero clears the fraction and emits nothing.
pub open spec fn filter_axis_step(state: int, remainder: int, input: int) -> (int, int, int) {
    let level = tdiv(state + FILTER_INPUT_WEIGHT * (input * FILTER_SCALE), FILTER_DENOMINATOR as int);
    if level == 0 {
        (0, 0, 0)
    } else {
        let n = level + remainder;
        (level, trem(n, FILTER_SCALE as int), tdiv(n, FILTER_SCALE as int))
    }
}

/// One report through the filter: the new state and the emitted motion.
pub open spec fn smoother_step(v: SmootherView, x: i16, y: i16) -> (SmootherView, (int, int)) {
    if magnitude(x as int) + magnitude(y as int) >= BYPASS_MOTION_THRESHOLD {
        (SmootherView { x_state: 0, y_state: 0, x_remainder: 0, y_remainder: 0 }, (x as int, y as int))
    } else {
        let (xs, xr, xo) = filter_axis_step(v.x_state as int, v.x_remainder as int, x as int);
        let (ys, yr, yo) = filter_axis_step(v.y_state as int, v.y_remainder as int, y as int);
        (SmootherView { x_state: xs as i32, y_state: ys as i32, x_remainder: xr as i32, y_remainder: yr as i32 }, (xo, yo))
    }
}

/// The state after `n` reports without motion.
pub open spec fn smoother_idle(v: SmootherView, n: nat) -> SmootherView
    decreases n,
{
    if n == 0 {
        v
    } else {
        smoother_step(smoother_idle(v, (n - 1) as nat), 0, 0).0
    }
}

pub struct MotionSmoother {
    x_state: i32,
    y_state: i32,
    x_remainder: i32,
    y_remainder: i32,
}

impl View for MotionSmoother {
    type V = SmootherView;

    closed spec fn view(&self) -> SmootherView {
        SmootherView {
            x_state: self.x_state,
            y_state: self.y_state,
            x_remainder: self.x_remainder,
            y_remainder: self.y_remainder,
        }
    }
}

impl MotionSmoother {
    #[verifier::type_invariant]
    spec fn state_in_range(self) -> bool {
        smoother_wf(self@)
    }

    pub fn new() -> (s: Self)
        ensures
            s@ == (SmootherView { x_state: 0, y_state: 0, x_remainder: 0, y_remainder: 0 }),
    {
        MotionSmoother { x_state: 0, y_state: 0, x_remainder: 0, y_remainder: 0 }
    }

    /// Whether motion is still held in the filter.
    pub fn has_pending(&self) -> (r: bool)
        ensures
            r == (self@.x_state != 0 || self@.y_state != 0),
    {
        self.x_state != 0 || self.y_state != 0
    }

    /// Filters one report.  Motion with |x| + |y| of at least
    /// [`BYPASS_MOTION_THRESHOLD`] is passed through unchanged and clears the
    /// filter; smaller motion goes through [`filter_axis_step`] per axis.
    pub fn apply(&mut self, x: i16, y: i16) -> (r: (i16, i16))
        ensures
            (final(self)@, (r.0 as int, r.1 as int)) == smoother_step(old(self)@, x, y),
            smoother_wf(final(self)@),
            magnitude(x as int) + magnitude(y as int) < BYPASS_MOTION_THRESHOLD ==> -7 <= r.0 <= 7 && -7 <= r.1
                <= 7,
            magnitude(x as int) + magnitude(y as int) >= BYPASS_MOTION_THRESHOLD ==> r == (x, y) && final(self)@
                == (SmootherView { x_state: 0, y_state: 0, x_remainder: 0, y_remainder: 0 }),
    {
        proof {
            use_type_invariant(&*self);
        }
        let motion = (magnitude_i16(x) as u32).saturating_add(magnitude_i16(y) as u32);
        if motion >= BYPASS_MOTION_THRESHOLD {
            self.reset();
            return (x, y);
        }
        let mut x_state = self.x_state;
        let mut x_remainder = self.x_remainder;
        let mut y_state = self.y_state;
        let mut y_remainder = self.y_remainder;
        let x = filter_axis(&mut x_state, &mut x_remainder, x as i32);
        let y = filter_axis(&mut y_state, &mut y_remainder, y as i32);
        self.set_state(x_state, y_state, x_remainder, y_remainder);
        (x, y)
    }

    fn set_state(&mut self, x_state: i32, y_state: i32, x_remainder: i32, y_remainder: i32)
        requires
            smoother_wf(SmootherView { x_state, y_state, x_remainder, y_remainder }),
        ensures
            final(self)@ == (SmootherView { x_state, y_state, x_remainder, y_remainder }),
    {
        *self = MotionSmoother { x_state, y_state, x_remainder, y_remainder };
    }

    /// Drops everything held in the filter.
    fn reset(&mut self)
        ensures
            final(self)@ == (SmootherView { x_state: 0, y_state: 0, x_remainder: 0, y_remainder: 0 }),
    {
        *self = MotionSmoother { x_state: 0, y_state: 0, x_remainder: 0, y_remainder: 0 };
    }
}

impl Default for MotionSmoother {
    fn default() -> (s: Self)
        ensures
            s@ == (SmootherView { x_state: 0, y_state: 0, x_remainder: 0, y_remainder: 0 }),
    {
        MotionSmoother::new()
    }
}

fn magnitude_i16(v: i16) -> (r: u16)
    ensures
        r == magnitude(v as int),
{
    if v < 0 {
        (-(v as i32)) as u16
    } else {
        v as u16
    }
}

/// One axis of the filter; see [`filter_axis_step`].
fn filter_axis(state: &mut i32, remainder: &mut i32, input: i32) -> (r: i16)
    requires
        -1792 <= *old(state) <= 1792,
        -256 < *old(remainder) < 256,
        -7 <= input <= 7,
    ensures
        (*final(state) as int, *final(remainder) as int, r as int) == filter_axis_step(
            *old(state) as int,
            *old(remainder) as int,
            input as int,
        ),
        -1792 <= *final(state) <= 1792,
        -256 < *final(remainder) < 256,
        -7 <= r <= 7,
{
    let target = input * FILTER_SCALE;
    *state = (*state + FILTER_INPUT_WEIGHT * target) / FILTER_DENOMINATOR;
    if *state == 0 {
        *remainder = 0;
        return 0;
    }
    let numerator = *state + *remainder;
    let output = numerator / FILTER_SCALE;
    proof {
        lemma_trem_bounds(numerator as int, 256);
    }
    *remainder = numerator - output * FILTER_SCALE;
    output as i16
}

/// Without motion the filter drains: from any valid state, after six or more
/// reports of `(0, 0)` nothing is pending, and a further `(0, 0)` report
/// emits `(0, 0)` and keeps it so.
pub proof fn lemma_idle_reports_flush(v: SmootherView, n: nat)
    requires
        smoother_wf(v),
        n >= 6,
    ensures
        smoother_idle(v, n).x_state == 0,
        smoother_idle(v, n).y_state == 0,
        smoother_step(smoother_idle(v, n), 0, 0).1 == (0int, 0int),
        smoother_step(smoother_idle(v, n), 0, 0).0.x_state == 0,
        smoother_step(smoother_idle(v, n), 0, 0).0.y_state == 0,
    decreases n,
{
    if n == 6 {
        lemma_idle_decay(v, 6);
    } else {
        lemma_idle_reports_flush(v, (n - 1) as nat);
    }
}

proof fn lemma_idle_decay(v: SmootherView, n: nat)
    requires
        smoother_wf(v),
        n <= 6,
    ensures
        smoother_wf(smoother_idle(v, n)),
        magnitude(smoother_idle(v, n).x_state as int) <= idle_bound(n),
        magnitude(smoother_idle(v, n).y_state as int) <= idle_bound(n),
    decreases n,
{
    if n > 0 {
        lemma_idle_decay(v, (n - 1) as nat);
        let u = smoother_idle(v, (n - 1) as nat);
        lemma_trem_bounds(tdiv(u.x_state as int, 4) + u.x_remainder, 256);
        lemma_trem_bounds(tdiv(u.y_state as int, 4) + u.y_remainder, 256);
    }
}

/// Largest level left after `n` idle reports: 1792, 448, 112, 28, 7, 1, 0.
pub open spec fn idle_bound(n: nat) -> int {
    if n == 0 {
        1792
    } else if n == 1 {
        448
    } else if n == 2 {
        112
    } else if n == 3 {
        28
    } else if n == 4 {
        7
    } else if n == 5 {
        1
    } else {
        0
    }
}

/// One axis over a run of filtered reports: total counts emitted, total
/// filter level passed through, the final level and the final fraction.
pub open spec fn filter_axis_run(state: int, remainder: int, inputs: Seq<int>) -> (int, int, int, int)
    decreases inputs.len(),
{
    if inputs.len() == 0 {
        (0, 0, state, remainder)
    } else {
        let (emitted, levels, s, r) = filter_axis_run(state, remainder, inputs.drop_last());
        let (s2, r2, out) = filter_axis_step(s, r, inputs.last());
        (emitted + out, levels + s2, s2, r2)
    }
}

/// Whether the filter level stays non-zero through every report of a run.
pub open spec fn levels_stay_nonzero(state: int, remainder: int, inputs: Seq<int>) -> bool
    decreases inputs.len(),
{
    if inputs.len() == 0 {
        true
    } else {
        let (_, _, s, r) = filter_axis_run(state, remainder, inputs.drop_last());
        levels_stay_nonzero(state, remainder, inputs.drop_last()) && filter_axis_step(s, r, inputs.last()).0 != 0
    }
}

/// Sub-count motion is carried, not discarded, while the filter holds
/// motion: over a run of reports in which the filter level never drops to
/// zero, the counts emitted times 256 plus the fraction carried equal the
/// levels passed through plus the fraction carried at the start.  (When the
/// level reaches zero the fraction is cleared.)
pub proof fn lemma_filter_carries_fraction(state: int, remainder: int, inputs: Seq<int>)
    requires
        levels_stay_nonzero(state, remainder, inputs),
    ensures
        ({
            let (emitted, levels, _, rem) = filter_axis_run(state, remainder, inputs);
            FILTER_SCALE * emitted + rem == levels + remainder
        }),
    decreases inputs.len(),
{
    if inputs.len() > 0 {
        lemma_filter_carries_fraction(state, remainder, inputs.drop_last());
        let (_, _, s, r) = filter_axis_run(state, remainder, inputs.drop_last());
        let level = filter_axis_step(s, r, inputs.last()).0;
        lemma_trem_bounds(level + r, 256);
    }
}

/// Large motion passes through unchanged and empties the filter, whatever it
/// held: the state afterwards is that of a new smoother (no level, no carried
/// fraction), so every later report is treated as by a fresh smoother.
pub proof fn lemma_bypass_empties_filter(v: SmootherView, x: i16, y: i16, next_x: i16, next_y: i16)
    requires
        magnitude(x as int) + magnitude(y as int) >= BYPASS_MOTION_THRESHOLD,
    ensures
        smoother_step(v, x, y).1 == (x as int, y as int),
        smoother_step(v, x, y).0 == (SmootherView { x_state: 0, y_state: 0, x_remainder: 0, y_remainder: 0 }),
        smoother_step(smoother_step(v, x, y).0, next_x, next_y) == smoother_step(
            SmootherView { x_state: 0, y_state: 0, x_remainder: 0, y_remainder: 0 },
            next_x,
            next_y,
        ),
{
}

} // verus!
