//! Independent sensitivity control: scales motion by `numerator / 256`,
//! carrying the fraction of a count from report to report.

use vstd::prelude::*;
use crate::fixed_point::{tdiv, trem, clamp_i16, lemma_trem_bounds, saturate_i64_to_i16};

verus! {

/// Fixed-point scale of the gain numerator.
pub const GAIN_SCALE: i32 = 256;

/// The default gain numerator: unity.
pub const TRACKBALL_GAIN_NUMERATOR: i32 = 256;

/// One axis of one report: the emitted count before saturation and the
/// fraction carried on, in 1/256 counts.
pub open spec fn gain_step(numerator: int, remainder: int, v: int) -> (int, int) {
    let n = v * numerator + remainder;
    (tdiv(n, GAIN_SCALE as int), trem(n, GAIN_SCALE as int))
}

/// One axis over a sequence of reports: the counts emitted before saturation,
/// in order, and the fraction carried at the end.
pub open spec fn gain_feed(numerator: int, remainder: int, inputs: Seq<i16>) -> (Seq<int>, int)
    decreases inputs.len(),
{
    if inputs.len() == 0 {
        (Seq::empty(), remainder)
    } else {
        let (outs, rem) = gain_feed(numerator, remainder, inputs.drop_last());
        let (q, r) = gain_step(numerator, rem, inputs.last() as int);
        (outs.push(q), r)
    }
}

pub open spec fn sum_of(s: Seq<int>) -> int
    decreases s.len(),
{
    if s.len() == 0 {
        0
    } else {
        sum_of(s.drop_last()) + s.last()
    }
}

pub open spec fn sum_of_counts(s: Seq<i16>) -> int
    decreases s.len(),
{
    if s.len() == 0 {
        0
    } else {
        sum_of_counts(s.drop_last()) + s.last()
    }
}

pub struct MotionGain {
    numerator: i32,
    x_remainder: i64,
    y_remainder: i64,
}

impl MotionGain {
    #[verifier::type_invariant]
    spec fn fraction_below_one_count(self) -> bool {
        -256 < self.x_remainder < 256 && -256 < self.y_remainder < 256
    }

    /// The gain, in 1/256.
    pub closed spec fn numerator(self) -> int {
        self.numerator as int
    }

    /// The carried fractions of the x and y axes, in 1/256 counts.
    pub closed spec fn remainders(self) -> (int, int) {
        (self.x_remainder as int, self.y_remainder as int)
    }

    /// Unity gain.
    pub fn new() -> (g: Self)
        ensures
            g.numerator() == TRACKBALL_GAIN_NUMERATOR,
            g.remainders() == (0int, 0int),
    {
        Self::with_gain(TRACKBALL_GAIN_NUMERATOR)
    }

    /// A gain of `numerator / 256`.
    pub fn with_gain(numerator: i32) -> (g: Self)
        ensures
            g.numerator() == numerator,
            g.remainders() == (0int, 0int),
    {
        MotionGain { numerator, x_remainder: 0, y_remainder: 0 }
    }

    /// Scales one report: each axis times the gain plus its carried fraction,
    /// truncated toward zero and saturated to `i16`; the dropped fraction is carried.
    pub fn apply(&mut self, x: i16, y: i16) -> (r: (i16, i16))
        ensures
            final(self).numerator() == old(self).numerator(),
            ({
                let (qx, rx) = gain_step(old(self).numerator(), old(self).remainders().0, x as int);
                let (qy, ry) = gain_step(old(self).numerator(), old(self).remainders().1, y as int);
                &&& r == (clamp_i16(qx), clamp_i16(qy))
                &&& final(self).remainders() == (rx, ry)
            }),
            -256 < final(self).remainders().0 < 256,
            -256 < final(self).remainders().1 < 256,
            ({
                let nx = x * old(self).numerator() + old(self).remainders().0;
                let ny = y * old(self).numerator() + old(self).remainders().1;
                &&& -8_388_608 <= nx <= 8_388_607 ==> 256 * r.0 + final(self).remainders().0 == nx
                &&& -8_388_608 <= ny <= 8_388_607 ==> 256 * r.1 + final(self).remainders().1 == ny
                &&& nx >= 0 ==> final(self).remainders().0 >= 0 && r.0 >= 0
                &&& nx <= 0 ==> final(self).remainders().0 <= 0 && r.0 <= 0
                &&& ny >= 0 ==> final(self).remainders().1 >= 0 && r.1 >= 0
                &&& ny <= 0 ==> final(self).remainders().1 <= 0 && r.1 <= 0
            }),
    {
        proof {
            use_type_invariant(&*self);
            lemma_scaled_fits(x as int, self.numerator as int);
            lemma_scaled_fits(y as int, self.numerator as int);
        }
        let x_numerator = x as i64 * self.numerator as i64 + self.x_remainder;
        let y_numerator = y as i64 * self.numerator as i64 + self.y_remainder;
        let x = x_numerator / GAIN_SCALE as i64;
        let y = y_numerator / GAIN_SCALE as i64;
        proof {
            lemma_trem_bounds(x_numerator as int, 256);
            lemma_trem_bounds(y_numerator as int, 256);
        }
        self.x_remainder = x_numerator - x * GAIN_SCALE as i64;
        self.y_remainder = y_numerator - y * GAIN_SCALE as i64;

        (saturate_i64_to_i16(x), saturate_i64_to_i16(y))
    }
}

impl Default for MotionGain {
    /// A zero gain, as a zeroed value.
    fn default() -> (g: Self)
        ensures
            g.numerator() == 0,
            g.remainders() == (0int, 0int),
    {
        MotionGain { numerator: 0, x_remainder: 0, y_remainder: 0 }
    }
}

proof fn lemma_scaled_fits(v: int, numerator: int)
    requires
        -32768 <= v <= 32767,
        i32::MIN <= numerator <= i32::MAX,
    ensures
        -0x4000_0000_0000 <= v * numerator <= 0x4000_0000_0000,
{
    assert(-0x4000_0000_0000 <= v * numerator <= 0x4000_0000_0000) by (nonlinear_arith)
        requires
            -32768 <= v <= 32768,
            -0x8000_0000 <= numerator <= 0x8000_0000,
    ;
}

/// Unity gain (`numerator == 256`) passes every count through unchanged and
/// carries nothing.
pub proof fn lemma_unity_gain_is_identity(v: int)
    ensures
        gain_step(TRACKBALL_GAIN_NUMERATOR as int, 0, v) == (v, 0int),
{
    assert(v * 256 + 0 == 256 * v);
    if v >= 0 {
        assert((256 * v) / 256 == v);
    } else {
        assert((256 * (-v)) / 256 == -v);
        assert(-(v * 256) == 256 * (-v));
    }
}

/// No fractional motion is lost: over any run of reports on one axis, the
/// counts emitted (before saturation) times 256 plus the fraction still
/// carried equal the gain times the input counts plus the fraction carried
/// at the start.  The carried fraction stays below one count, so from a fresh
/// gain the emitted motion never drifts a whole count from gain times input.
pub proof fn lemma_gain_conserves_motion(numerator: int, remainder: int, inputs: Seq<i16>)
    ensures
        ({
            let (outs, rem) = gain_feed(numerator, remainder, inputs);
            &&& outs.len() == inputs.len()
            &&& GAIN_SCALE * sum_of(outs) + rem == numerator * sum_of_counts(inputs) + remainder
            &&& -256 < remainder < 256 ==> -256 < rem < 256
            &&& remainder == 0 ==> -256 < GAIN_SCALE * sum_of(outs) - numerator * sum_of_counts(inputs) < 256
        }),
    decreases inputs.len(),
{
    if inputs.len() > 0 {
        lemma_gain_conserves_motion(numerator, remainder, inputs.drop_last());
        let (outs, rem) = gain_feed(numerator, remainder, inputs.drop_last());
        let v = inputs.last() as int;
        lemma_trem_bounds(v * numerator + rem, GAIN_SCALE as int);
        assert(outs.push(tdiv(v * numerator + rem, 256)).drop_last() =~= outs);
        assert(numerator * sum_of_counts(inputs) == numerator * sum_of_counts(inputs.drop_last())
            + v * numerator) by (nonlinear_arith)
            requires
                sum_of_counts(inputs) == sum_of_counts(inputs.drop_last()) + v,
        ;
        assert(GAIN_SCALE * sum_of(outs.push(tdiv(v * numerator + rem, 256))) == GAIN_SCALE * sum_of(outs)
            + 256 * tdiv(v * numerator + rem, 256)) by (nonlinear_arith)
            requires
                sum_of(outs.push(tdiv(v * numerator + rem, 256))) == sum_of(outs) + tdiv(v * numerator + rem, 256),
        ;
    }
}

} // verus!
