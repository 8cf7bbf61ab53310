//! Decisions of the trackball pointing device: the report timing derived from
//! the report rate, the sensor initialisation retries, and the accumulation of
//! sensor motion into transformed reports.  The caller owns the sensor and the
//! clock, performs the waits and reads, and hands the results in.

use vstd::prelude::*;
use embassy_time::Duration;
use crate::calibration_config::{MatrixStore, current_matrix};
use crate::fixed_point::clamp_i16;
use crate::trackball_transform::{TrackballTransform, transform_step, lemma_safe_matrix_fits};

verus! {

/// Sensor initialisation attempts before the device gives up.
pub const MAX_INIT_RETRIES: u8 = 3;

/// Poll interval used when the report rate allows it, in microseconds.
pub const DEFAULT_POLL_INTERVAL_US: u64 = 500;

// ---------------------------------------------------------------------------
// Report timing
// ---------------------------------------------------------------------------

/// Ticks of `embassy_time::Duration::from_hz(hz)`.
pub uninterp spec fn hz_ticks(hz: u64) -> u64;

/// Ticks of `embassy_time::Duration::from_micros(micros)`.
pub uninterp spec fn micros_ticks(micros: u64) -> u64;

/// `embassy_time::Duration::from_hz(hz)`, read back with `as_ticks`.
/// embassy-time divides by `hz`, so `hz` must be positive; it gives one tick
/// when `hz` reaches the tick rate and the rounded tick rate over `hz`
/// otherwise, so never zero.
#[verifier::external_body]
fn ticks_for_hz(hz: u64) -> (ticks: u64)
    requires
        hz > 0,
    ensures
        ticks == hz_ticks(hz),
        ticks >= 1,
{
    Duration::from_hz(hz).as_ticks()
}

/// `embassy_time::Duration::from_micros(micros)`, read back with `as_ticks`.
/// embassy-time multiplies `micros` by the tick rate over a common divisor; the
/// bound keeps that product far from overflow.
#[verifier::external_body]
fn ticks_for_micros(micros: u64) -> (ticks: u64)
    requires
        micros <= 1_000_000,
    ensures
        ticks == micros_ticks(micros),
{
    Duration::from_micros(micros).as_ticks()
}

// ---------------------------------------------------------------------------
// Sensor initialisation
// ---------------------------------------------------------------------------

#[derive(Clone, Copy, Debug, PartialEq, Eq, Structural)]
pub enum InitState {
    Pending,
    /// Attempting, after this many failed attempts.
    Initializing(u8),
    Ready,
    Failed,
}

/// What an initialisation request has to do now.
#[derive(Clone, Copy, Debug, PartialEq, Eq, Structural)]
pub enum InitStep {
    /// The sensor is ready.
    Ready,
    /// The sensor failed for good.
    Failed,
    /// Call the sensor's `init` and report the result.
    Attempt,
}

/// What a finished initialisation attempt leads to.
#[derive(Clone, Copy, Debug, PartialEq, Eq, Structural)]
pub enum AttemptOutcome {
    Ready,
    Failed,
    /// Wait 100 ms; the next request attempts again.
    RetryAfterDelay,
}

/// The state after a failed attempt made after `failures` failed attempts.
pub open spec fn after_failure(failures: u8) -> InitState {
    if failures + 1 >= MAX_INIT_RETRIES {
        InitState::Failed
    } else {
        InitState::Initializing((failures + 1) as u8)
    }
}

/// The initialisation state after `n` failed attempts in a row from the first attempt.
pub open spec fn after_failures(n: nat) -> InitState
    decreases n,
{
    if n == 0 {
        InitState::Initializing(0)
    } else {
        match after_failures((n - 1) as nat) {
            InitState::Initializing(k) => after_failure(k),
            other => other,
        }
    }
}

// ---------------------------------------------------------------------------
// The device
// ---------------------------------------------------------------------------

/// One relative pointing report.
#[derive(Clone, Copy, Debug, PartialEq, Eq, Structural)]
pub struct PointingReport {
    pub device_id: u8,
    pub x: i16,
    pub y: i16,
}

/// `a + b` saturated to the range of `i32`.
pub open spec fn saturating_sum(a: int, b: int) -> int {
    if a + b > i32::MAX {
        i32::MAX as int
    } else if a + b < i32::MIN {
        i32::MIN as int
    } else {
        a + b
    }
}

/// Ticks since `since` at time `now`; the clock never runs backwards, so an
/// earlier `now` counts as no time.
pub open spec fn elapsed_ticks(since: u64, now: u64) -> int {
    if now >= since {
        now - since
    } else {
        0
    }
}

/// Ticks left of `interval` counted from `since`, at time `now`; zero once it has passed.
pub open spec fn remaining_ticks(interval: u64, since: u64, now: u64) -> u64 {
    if elapsed_ticks(since, now) >= interval {
        0
    } else {
        (interval - elapsed_ticks(since, now)) as u64
    }
}

pub struct TransformingPointingDevice {
    init_state: InitState,
    poll_interval_ticks: u64,
    id: u8,
    report_interval_ticks: u64,
    last_poll: Option<u64>,
    last_report: Option<u64>,
    accumulated_x: i32,
    accumulated_y: i32,
    transform: TrackballTransform,
}

/// Same intervals and device id.
pub open spec fn keeps_setup(a: TransformingPointingDevice, b: TransformingPointingDevice) -> bool {
    &&& b.poll_interval_ticks() == a.poll_interval_ticks()
    &&& b.report_interval_ticks() == a.report_interval_ticks()
    &&& b.device_id() == a.device_id()
}

/// Same last-poll and last-report times.
pub open spec fn keeps_timing(a: TransformingPointingDevice, b: TransformingPointingDevice) -> bool {
    &&& b.last_poll() == a.last_poll()
    &&& b.last_report() == a.last_report()
}

/// Same gathered motion and carried fractions.
pub open spec fn keeps_motion(a: TransformingPointingDevice, b: TransformingPointingDevice) -> bool {
    &&& b.accumulated() == a.accumulated()
    &&& b.transform_remainders() == a.transform_remainders()
}

impl TransformingPointingDevice {
    pub closed spec fn init_state(self) -> InitState {
        self.init_state
    }

    pub closed spec fn poll_interval_ticks(self) -> u64 {
        self.poll_interval_ticks
    }

    pub closed spec fn report_interval_ticks(self) -> u64 {
        self.report_interval_ticks
    }

    pub closed spec fn device_id(self) -> u8 {
        self.id
    }

    /// When the sensor was last polled, in ticks; `None` before the first wait.
    pub closed spec fn last_poll(self) -> Option<u64> {
        self.last_poll
    }

    /// When the last report went out, in ticks; `None` before the first wait.
    pub closed spec fn last_report(self) -> Option<u64> {
        self.last_report
    }

    /// Sensor motion gathered since the last report.
    pub closed spec fn accumulated(self) -> (int, int) {
        (self.accumulated_x as int, self.accumulated_y as int)
    }

    /// Fractions carried by the direction transform.
    pub closed spec fn transform_remainders(self) -> (int, int) {
        self.transform.remainders()
    }

    /// A device reporting `report_hz` times a second that polls the sensor
    /// every 500 us, or at the report interval when that is shorter.
    pub fn with_report_hz(id: u8, report_hz: u16) -> (d: Self)
        requires
            report_hz > 0,
        ensures
            d.report_interval_ticks() == hz_ticks(report_hz as u64),
            d.poll_interval_ticks() == if micros_ticks(DEFAULT_POLL_INTERVAL_US) <= hz_ticks(report_hz as u64) {
                micros_ticks(DEFAULT_POLL_INTERVAL_US)
            } else {
                hz_ticks(report_hz as u64)
            },
            d.device_id() == id,
            d.init_state() == InitState::Pending,
            d.last_poll() is None,
            d.last_report() is None,
            d.accumulated() == (0int, 0int),
            d.transform_remainders() == (0int, 0int),
    {
        let report_interval_ticks = ticks_for_hz(report_hz as u64);
        let default_poll_ticks = ticks_for_micros(DEFAULT_POLL_INTERVAL_US);
        let poll_interval_ticks = if default_poll_ticks <= report_interval_ticks {
            default_poll_ticks
        } else {
            report_interval_ticks
        };
        TransformingPointingDevice {
            init_state: InitState::Pending,
            poll_interval_ticks,
            id,
            report_interval_ticks,
            last_poll: None,
            last_report: None,
            accumulated_x: 0,
            accumulated_y: 0,
            transform: TrackballTransform::new(),
        }
    }

    /// Sensor poll interval, in ticks of the time driver.
    pub fn poll_interval(&self) -> (ticks: u64)
        ensures
            ticks == self.poll_interval_ticks(),
    {
        self.poll_interval_ticks
    }

    /// Report interval, in ticks of the time driver.
    pub fn report_interval(&self) -> (ticks: u64)
        ensures
            ticks == self.report_interval_ticks(),
    {
        self.report_interval_ticks
    }

    /// Whether the sensor is initialised.
    pub fn is_ready(&self) -> (r: bool)
        ensures
            r == (self.init_state() == InitState::Ready),
    {
        match self.init_state {
            InitState::Ready => true,
            _ => false,
        }
    }

    /// Starts an initialisation request: a ready or failed sensor answers at
    /// once; otherwise an attempt is due (the first one moves `Pending` to
    /// `Initializing(0)`).
    pub fn begin_init(&mut self) -> (step: InitStep)
        ensures
            (final(self).init_state(), step) == init_begin(old(self).init_state()),
            old(self).init_state() == InitState::Ready ==> step == InitStep::Ready && final(self).init_state()
                == InitState::Ready,
            old(self).init_state() == InitState::Failed ==> step == InitStep::Failed && final(self).init_state()
                == InitState::Failed,
            old(self).init_state() is Pending ==> step == InitStep::Attempt && final(self).init_state()
                == InitState::Initializing(0),
            old(self).init_state() is Initializing ==> step == InitStep::Attempt && final(self).init_state()
                == old(self).init_state(),
            keeps_setup(*old(self), *final(self)),
            keeps_timing(*old(self), *final(self)),
            keeps_motion(*old(self), *final(self)),
    {
        match self.init_state {
            InitState::Ready => InitStep::Ready,
            InitState::Failed => InitStep::Failed,
            InitState::Pending => {
                self.init_state = InitState::Initializing(0);
                InitStep::Attempt
            },
            InitState::Initializing(_) => InitStep::Attempt,
        }
    }

    /// Records the result of the attempt that [`Self::begin_init`] asked
    /// for: success makes the sensor ready; the third failure in a row makes
    /// it fail for good; an earlier failure asks for a retry after a delay.
    pub fn finish_init_attempt(&mut self, succeeded: bool) -> (outcome: AttemptOutcome)
        requires
            old(self).init_state() is Initializing,
        ensures
            (final(self).init_state(), outcome) == init_finish(old(self).init_state()->Initializing_0, succeeded),
            succeeded ==> outcome == AttemptOutcome::Ready && final(self).init_state() == InitState::Ready,
            !succeeded ==> outcome != AttemptOutcome::Ready && final(self).init_state() != InitState::Ready,
            !succeeded && old(self).init_state()->Initializing_0 + 1 >= MAX_INIT_RETRIES ==> outcome
                == AttemptOutcome::Failed && final(self).init_state() == InitState::Failed,
            !succeeded && old(self).init_state()->Initializing_0 + 1 < MAX_INIT_RETRIES ==> outcome
                == AttemptOutcome::RetryAfterDelay && final(self).init_state() == InitState::Initializing(
                (old(self).init_state()->Initializing_0 + 1) as u8,
            ),
            keeps_setup(*old(self), *final(self)),
            keeps_timing(*old(self), *final(self)),
            keeps_motion(*old(self), *final(self)),
    {
        let retry_count = match self.init_state {
            InitState::Initializing(k) => k,
            _ => 0,
        };
        if succeeded {
            self.init_state = InitState::Ready;
            return AttemptOutcome::Ready;
        }
        if retry_count as u16 + 1 >= MAX_INIT_RETRIES as u16 {
            self.init_state = InitState::Failed;
            return AttemptOutcome::Failed;
        }
        self.init_state = InitState::Initializing(retry_count + 1);
        AttemptOutcome::RetryAfterDelay
    }

    /// Adds one sensor reading to the motion gathered for the next report,
    /// saturating each axis at the range of `i32`.
    pub fn add_motion(&mut self, dx: i16, dy: i16)
        ensures
            final(self).accumulated() == (
                saturating_sum(old(self).accumulated().0, dx as int),
                saturating_sum(old(self).accumulated().1, dy as int),
            ),
            final(self).transform_remainders() == old(self).transform_remainders(),
            final(self).init_state() == old(self).init_state(),
            keeps_setup(*old(self), *final(self)),
            keeps_timing(*old(self), *final(self)),
    {
        self.accumulated_x = saturating_add_i32(self.accumulated_x, dx as i32);
        self.accumulated_y = saturating_add_i32(self.accumulated_y, dy as i32);
    }

    /// Whether motion is waiting to be reported.
    pub fn has_pending_motion(&self) -> (r: bool)
        ensures
            r == (self.accumulated() != (0int, 0int)),
    {
        self.accumulated_x != 0 || self.accumulated_y != 0
    }

    /// Turns the gathered motion into a report: nothing when there is none;
    /// otherwise the gathered motion, saturated to `i16`, goes through the
    /// direction transform with the live matrix and the gathered motion is
    /// cleared.
    pub fn take_report_event(&mut self, store: &MatrixStore) -> (event: Option<PointingReport>)
        ensures
            report_taken(*old(self), *final(self), store.live(), event),
            keeps_timing(*old(self), *final(self)),
            (event is None) == (old(self).accumulated() == (0int, 0int)),
            event is Some ==> final(self).accumulated() == (0int, 0int) && event->Some_0.device_id == old(
                self,
            ).device_id(),
            event is None ==> final(self).accumulated() == old(self).accumulated(),
    {
        if self.accumulated_x == 0 && self.accumulated_y == 0 {
            return None;
        }
        let raw_x = crate::fixed_point::saturate_i32_to_i16(self.accumulated_x);
        let raw_y = crate::fixed_point::saturate_i32_to_i16(self.accumulated_y);
        self.accumulated_x = 0;
        self.accumulated_y = 0;
        let matrix = current_matrix(store);
        proof {
            lemma_safe_matrix_fits(raw_x, raw_y, matrix);
        }
        let (x, y) = self.transform.apply(raw_x, raw_y, matrix);
        Some(PointingReport { device_id: self.id, x, y })
    }

    /// The waits before the next poll and, while motion is pending, before
    /// the next report, at time `now`.  The first call starts both clocks at
    /// `now`.  Each wait is its interval minus the time since the last poll or
    /// report, and zero once that has passed.
    pub fn next_waits(&mut self, now: u64) -> (waits: (u64, Option<u64>))
        ensures
            final(self).last_poll() == Some(
                match old(self).last_poll() {
                    Some(t) => t,
                    None => now,
                },
            ),
            final(self).last_report() == Some(
                match old(self).last_report() {
                    Some(t) => t,
                    None => now,
                },
            ),
            waits.0 == remaining_ticks(old(self).poll_interval_ticks(), final(self).last_poll()->Some_0, now),
            waits.1 == if old(self).accumulated() != (0int, 0int) {
                Some(remaining_ticks(old(self).report_interval_ticks(), final(self).last_report()->Some_0, now))
            } else {
                None::<u64>
            },
            final(self).init_state() == old(self).init_state(),
            keeps_setup(*old(self), *final(self)),
            keeps_motion(*old(self), *final(self)),
    {
        let last_poll = match self.last_poll {
            Some(t) => t,
            None => now,
        };
        let last_report = match self.last_report {
            Some(t) => t,
            None => now,
        };
        self.last_poll = Some(last_poll);
        self.last_report = Some(last_report);
        let poll_wait = remaining(self.poll_interval_ticks, last_poll, now);
        let report_wait = if self.accumulated_x != 0 || self.accumulated_y != 0 {
            Some(remaining(self.report_interval_ticks, last_report, now))
        } else {
            None
        };
        (poll_wait, report_wait)
    }

    /// Records that a poll finished at time `now`.
    pub fn poll_done(&mut self, now: u64)
        ensures
            final(self).last_poll() == Some(now),
            final(self).last_report() == old(self).last_report(),
            final(self).init_state() == old(self).init_state(),
            keeps_setup(*old(self), *final(self)),
            keeps_motion(*old(self), *final(self)),
    {
        self.last_poll = Some(now);
    }

    /// The report timer fired at time `now`: the gathered motion becomes a
    /// report as [`Self::take_report_event`] makes it, and a report sent
    /// restarts the report clock at `now`; without motion nothing changes.
    pub fn report_timer_fired(&mut self, store: &MatrixStore, now: u64) -> (event: Option<PointingReport>)
        ensures
            report_taken(*old(self), *final(self), store.live(), event),
            (event is None) == (old(self).accumulated() == (0int, 0int)),
            event is Some ==> final(self).accumulated() == (0int, 0int) && event->Some_0.device_id == old(
                self,
            ).device_id(),
            final(self).last_poll() == old(self).last_poll(),
            event is Some ==> final(self).last_report() == Some(now),
            event is None ==> final(self).last_report() == old(self).last_report(),
    {
        let event = self.take_report_event(store);
        if event.is_some() {
            self.last_report = Some(now);
        }
        event
    }
}

/// What taking a report does: with no motion, no report and nothing changes
/// but the timing; with motion, the gathered motion saturated to `i16` goes
/// through [`transform_step`] with matrix `m` and is cleared.
pub open spec fn report_taken(
    before: TransformingPointingDevice,
    after: TransformingPointingDevice,
    m: crate::calibration_config::MatrixCoefficients,
    event: Option<PointingReport>,
) -> bool {
    &&& after.init_state() == before.init_state()
    &&& keeps_setup(before, after)
    &&& if before.accumulated() == (0int, 0int) {
        &&& event is None
        &&& keeps_motion(before, after)
    } else {
        let raw_x = clamp_i16(before.accumulated().0);
        let raw_y = clamp_i16(before.accumulated().1);
        let (rems, (x, y)) = transform_step(before.transform_remainders(), raw_x as int, raw_y as int, m);
        &&& event == Some(PointingReport { device_id: before.device_id(), x, y })
        &&& after.accumulated() == (0int, 0int)
        &&& after.transform_remainders() == rems
    }
}

/// The state and answer of an initialisation request before any attempt.
pub open spec fn init_begin(s: InitState) -> (InitState, InitStep) {
    match s {
        InitState::Ready => (InitState::Ready, InitStep::Ready),
        InitState::Failed => (InitState::Failed, InitStep::Failed),
        InitState::Pending => (InitState::Initializing(0), InitStep::Attempt),
        InitState::Initializing(k) => (InitState::Initializing(k), InitStep::Attempt),
    }
}

/// The state and outcome after an attempt made after `failures` failed attempts.
pub open spec fn init_finish(failures: u8, succeeded: bool) -> (InitState, AttemptOutcome) {
    if succeeded {
        (InitState::Ready, AttemptOutcome::Ready)
    } else if after_failure(failures) == InitState::Failed {
        (InitState::Failed, AttemptOutcome::Failed)
    } else {
        (after_failure(failures), AttemptOutcome::RetryAfterDelay)
    }
}

fn remaining(interval: u64, since: u64, now: u64) -> (r: u64)
    ensures
        r == remaining_ticks(interval, since, now),
{
    let elapsed = if now >= since {
        now - since
    } else {
        0
    };
    if elapsed >= interval {
        0
    } else {
        interval - elapsed
    }
}

fn saturating_add_i32(a: i32, b: i32) -> (r: i32)
    ensures
        r == saturating_sum(a as int, b as int),
{
    let sum = a as i64 + b as i64;
    if sum > i32::MAX as i64 {
        i32::MAX
    } else if sum < i32::MIN as i64 {
        i32::MIN
    } else {
        sum as i32
    }
}

// ---------------------------------------------------------------------------
// Laws
// ---------------------------------------------------------------------------

/// The sensor gets at most [`MAX_INIT_RETRIES`] attempts: after fewer failures
/// in a row it is still being initialised, after that many it has failed.
pub proof fn lemma_init_gives_up_after_max_retries(n: nat)
    ensures
        n < MAX_INIT_RETRIES ==> after_failures(n) == InitState::Initializing(n as u8),
        n >= MAX_INIT_RETRIES ==> after_failures(n) == InitState::Failed,
    decreases n,
{
    if n > 0 {
        lemma_init_gives_up_after_max_retries((n - 1) as nat);
    }
}

/// One initialisation request (what `try_init` does) from state `s`, where
/// `succeeded` is what the sensor's `init` would answer: the new state,
/// whether the sensor was asked, and whether the request reports ready.
pub open spec fn init_request(s: InitState, succeeded: bool) -> (InitState, bool, bool) {
    let (s1, step) = init_begin(s);
    match step {
        InitStep::Ready => (s1, false, true),
        InitStep::Failed => (s1, false, false),
        InitStep::Attempt => {
            let (s2, outcome) = init_finish(s1->Initializing_0, succeeded);
            (s2, true, outcome == AttemptOutcome::Ready)
        },
    }
}

/// A run of initialisation requests: the final state and how many times the
/// sensor was asked.
pub open spec fn init_requests(s: InitState, answers: Seq<bool>) -> (InitState, nat)
    decreases answers.len(),
{
    if answers.len() == 0 {
        (s, 0)
    } else {
        let (s1, asked, _) = init_request(s, answers[0]);
        let (s2, n) = init_requests(s1, answers.drop_first());
        (s2, n + if asked { 1nat } else { 0nat })
    }
}

/// Sensor attempts still allowed from an initialisation state.
pub open spec fn attempts_left(s: InitState) -> nat {
    match s {
        InitState::Pending => MAX_INIT_RETRIES as nat,
        InitState::Initializing(k) => if k < MAX_INIT_RETRIES { (MAX_INIT_RETRIES - k) as nat } else { 0 },
        InitState::Ready => 0,
        InitState::Failed => 0,
    }
}

/// Over any run of initialisation requests the sensor is asked at most
/// [`MAX_INIT_RETRIES`] times; a request reports ready exactly when the state
/// after it is `Ready`; `Ready` and `Failed` are final and ask the sensor no more.
pub proof fn lemma_init_requests_are_bounded(s: InitState, answers: Seq<bool>)
    requires
        s matches InitState::Initializing(k) ==> k < MAX_INIT_RETRIES,
    ensures
        init_requests(s, answers).1 <= attempts_left(s),
        s == InitState::Pending ==> init_requests(s, answers).1 <= MAX_INIT_RETRIES,
        s == InitState::Ready ==> init_requests(s, answers) == (InitState::Ready, 0nat),
        s == InitState::Failed ==> init_requests(s, answers) == (InitState::Failed, 0nat),
        forall|ok: bool| #[trigger] init_request(s, ok).2 == (init_request(s, ok).0 == InitState::Ready),
    decreases answers.len(),
{
    if answers.len() > 0 {
        let (s1, asked, _) = init_request(s, answers[0]);
        assert(s1 matches InitState::Initializing(k) ==> k < MAX_INIT_RETRIES);
        assert(attempts_left(s1) + (if asked { 1nat } else { 0nat }) <= attempts_left(s));
        lemma_init_requests_are_bounded(s1, answers.drop_first());
    }
}

/// Reports are paced: when the report wait returned at time `t0` (no earlier
/// than the last report) has passed, at least one report interval has passed
/// since the last report, so the report sent then comes no sooner.
pub proof fn lemma_reports_are_paced(d: TransformingPointingDevice, t0: u64, now: u64)
    requires
        d.last_report() is Some,
        t0 >= d.last_report()->Some_0,
        now >= t0 + remaining_ticks(d.report_interval_ticks(), d.last_report()->Some_0, t0),
    ensures
        now >= d.last_report()->Some_0 + d.report_interval_ticks(),
{
}

/// A report is made exactly when motion was gathered: no motion gives no
/// report and keeps everything gathered; any motion, on either axis, gives a
/// report from this device and clears what was gathered.
pub proof fn lemma_report_exactly_when_motion(
    before: TransformingPointingDevice,
    after: TransformingPointingDevice,
    m: crate::calibration_config::MatrixCoefficients,
    event: Option<PointingReport>,
)
    requires
        report_taken(before, after, m, event),
    ensures
        (event is None) <==> (before.accumulated().0 == 0 && before.accumulated().1 == 0),
        event is Some ==> after.accumulated() == (0int, 0int) && event->Some_0.device_id == before.device_id(),
        event is None ==> after.accumulated() == before.accumulated(),
        after.device_id() == before.device_id(),
        after.report_interval_ticks() == before.report_interval_ticks(),
        after.poll_interval_ticks() == before.poll_interval_ticks(),
{
}

/// A successful sensor attempt always makes the sensor ready, whatever
/// failed before it; a failed one never does, and the attempt after two
/// failures gives up for good.
pub proof fn lemma_success_makes_ready(failures: u8)
    ensures
        init_finish(failures, true) == (InitState::Ready, AttemptOutcome::Ready),
        init_finish(failures, false).0 != InitState::Ready,
        init_finish(failures, false).1 != AttemptOutcome::Ready,
        failures + 1 >= MAX_INIT_RETRIES ==> init_finish(failures, false) == (
            InitState::Failed,
            AttemptOutcome::Failed,
        ),
        failures + 1 < MAX_INIT_RETRIES ==> init_finish(failures, false) == (
            InitState::Initializing((failures + 1) as u8),
            AttemptOutcome::RetryAfterDelay,
        ),
        init_request(InitState::Pending, true) == (InitState::Ready, true, true),
        init_request(InitState::Initializing(failures), true) == (InitState::Ready, true, true),
{
}

} // verus!
