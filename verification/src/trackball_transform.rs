//! Fixed-point direction transform for the trackball: the raw motion vector is
//! multiplied by the calibrated matrix, rescaled back to the raw vector's
//! length, and emitted in whole counts while the fraction is carried over.

use vstd::prelude::*;
use vstd::arithmetic::power2::{pow2, lemma_pow2_adds, lemma_pow2_strictly_increases, lemma_pow2_unfold};
use vstd::bits::{lemma_u64_shl_is_mul, lemma_u64_pow2_no_overflow};
use vstd::std_specs::bits::{u64_leading_zeros, axiom_u64_leading_zeros};
use crate::calibration_config::{MatrixCoefficients, matrix_is_safe};
use crate::fixed_point::{tdiv, clamp_i16, lemma_trem_bounds, saturate_i128_to_i16};

verus! {

/// Fixed-point scale of the matrix coefficients.
pub const MATRIX_SCALE: i64 = 1000;

const NORMALIZATION_SCALE: u64 = 1000;

// ---------------------------------------------------------------------------
// Integer square root
// ---------------------------------------------------------------------------

/// The largest `r` with `r * r <= v`.
pub open spec fn floor_sqrt(v: nat) -> nat
    decreases v,
{
    if v == 0 {
        0
    } else {
        let r = floor_sqrt((v - 1) as nat);
        if (r + 1) * (r + 1) <= v {
            r + 1
        } else {
            r
        }
    }
}

/// `floor_sqrt(v)` squared does not exceed `v`, and its successor squared does.
pub proof fn lemma_floor_sqrt(v: nat)
    ensures
        floor_sqrt(v) * floor_sqrt(v) <= v,
        v < (floor_sqrt(v) + 1) * (floor_sqrt(v) + 1),
    decreases v,
{
    if v > 0 {
        lemma_floor_sqrt((v - 1) as nat);
        let r = floor_sqrt((v - 1) as nat);
        if (r + 1) * (r + 1) <= v {
            assert(floor_sqrt(v) == r + 1);
            assert(v == (r + 1) * (r + 1));
            assert((r + 1) * (r + 1) < (r + 2) * (r + 2)) by (nonlinear_arith);
            assert(v < (floor_sqrt(v) + 1) * (floor_sqrt(v) + 1));
        } else {
            assert(floor_sqrt(v) == r);
            assert(v < (floor_sqrt(v) + 1) * (floor_sqrt(v) + 1));
        }
    } else {
        assert(floor_sqrt(v) == 0);
        assert(v < (floor_sqrt(v) + 1) * (floor_sqrt(v) + 1)) by (nonlinear_arith)
            requires
                floor_sqrt(v) == 0,
                v == 0,
        ;
    }
}

/// Any `r` with `r * r <= v < (r + 1) * (r + 1)` is `floor_sqrt(v)`.
pub proof fn lemma_floor_sqrt_unique(v: nat, r: nat)
    requires
        r * r <= v,
        v < (r + 1) * (r + 1),
    ensures
        r == floor_sqrt(v),
{
    lemma_floor_sqrt(v);
    let s = floor_sqrt(v);
    if r < s {
        assert((r + 1) * (r + 1) <= s * s) by (nonlinear_arith)
            requires
                r + 1 <= s,
        ;
    } else if s < r {
        assert((s + 1) * (s + 1) <= r * r) by (nonlinear_arith)
            requires
                s + 1 <= r,
        ;
    }
}

/// A value is below two to the power of its bit length.
proof fn lemma_below_bit_length(v: u64)
    requires
        v > 0,
    ensures
        0 <= u64_leading_zeros(v) < 64,
        v < pow2((64 - u64_leading_zeros(v)) as nat),
    decreases v,
{
    axiom_u64_leading_zeros(v);
    reveal(u64_leading_zeros);
    let h = v / 2;
    if h == 0 {
        assert(u64_leading_zeros(0) == 64);
        assert(u64_leading_zeros(v) == 63);
        lemma_pow2_unfold(1);
        vstd::arithmetic::power2::lemma2_to64();
    } else {
        lemma_below_bit_length(h);
        let k = (64 - u64_leading_zeros(h)) as nat;
        assert(u64_leading_zeros(v) == u64_leading_zeros(h) - 1);
        lemma_pow2_unfold(k + 1);
    }
}

/// One Newton step never undershoots the floor square root.
proof fn lemma_newton_step_stays_above(v: int, e: int, r: int)
    requires
        e >= 1,
        r >= 1,
        r * r <= v,
        v < (r + 1) * (r + 1),
    ensures
        (e + v / e) / 2 >= r,
{
    let q = v / e;
    vstd::arithmetic::div_mod::lemma_fundamental_div_mod(v, e);
    vstd::arithmetic::div_mod::lemma_mod_bound(v, e);
    assert(v < (q + 1) * e) by (nonlinear_arith)
        requires
            v == e * q + v % e,
            v % e < e,
    ;
    if (e + q) / 2 < r {
        assert(e + q + 1 <= 2 * r);
        assert(4 * (e * (q + 1)) <= (e + q + 1) * (e + q + 1)) by (nonlinear_arith);
        assert((e + q + 1) * (e + q + 1) <= 4 * (r * r)) by (nonlinear_arith)
            requires
                0 <= e + q + 1 <= 2 * r,
        ;
        assert((q + 1) * e == e * (q + 1)) by (nonlinear_arith);
    }
}

/// Facts about the Newton iteration at an estimate that is not below the root.
proof fn lemma_newton_step_facts(v: int, e: int, r: int)
    requires
        v >= 1,
        e >= r,
        r >= 1,
        r * r <= v,
        v < (r + 1) * (r + 1),
    ensures
        v / e <= r + 2,
        e > r ==> (e + v / e) / 2 < e,
{
    let q = v / e;
    vstd::arithmetic::div_mod::lemma_fundamental_div_mod(v, e);
    vstd::arithmetic::div_mod::lemma_mod_bound(v, e);
    assert(e * q <= v);
    assert(q <= r + 2) by (nonlinear_arith)
        requires
            e * q <= v,
            v < (r + 1) * (r + 1),
            e >= r,
            r >= 1,
            q >= 0,
    ;
    if e > r {
        assert(e * e > v) by (nonlinear_arith)
            requires
                e >= r + 1,
                v < (r + 1) * (r + 1),
                r >= 1,
        ;
        assert(q < e) by (nonlinear_arith)
            requires
                e * q <= v,
                v < e * e,
                e >= 1,
        ;
    }
}

/// Integer square root by Newton's iteration, rounded down.
pub fn integer_sqrt(value: u64) -> (r: u64)
    ensures
        r == floor_sqrt(value as nat),
{
    if value == 0 {
        return 0;
    }
    let ghost root = floor_sqrt(value as nat);
    proof {
        lemma_floor_sqrt(value as nat);
        lemma_below_bit_length(value);
    }

    let bit_length: u32 = 64 - value.leading_zeros();
    let shift: u64 = ((bit_length + 1) / 2) as u64;
    let mut estimate: u64;
    proof {
        lemma_u64_pow2_no_overflow(shift as nat);
    }
    estimate = 1u64 << shift;
    proof {
        lemma_u64_shl_is_mul(1u64, shift);
        let b = bit_length as nat;
        let k = shift as nat;
        lemma_pow2_adds(k, k);
        if b < k + k {
            lemma_pow2_strictly_increases(b, k + k);
        }
        assert(estimate * estimate == pow2(k + k));
        assert(estimate * estimate > value);
        assert(root < estimate) by (nonlinear_arith)
            requires
                root * root <= value,
                value < estimate * estimate,
        ;
        assert(k <= 32);
        if k < 32 {
            lemma_pow2_strictly_increases(k, 32);
        }
        vstd::arithmetic::power2::lemma2_to64();
        assert(root >= 1) by (nonlinear_arith)
            requires
                value < (root + 1) * (root + 1),
                value >= 1,
        ;
        assert(root < 0x1_0000_0000) by (nonlinear_arith)
            requires
                root * root <= value,
                value <= u64::MAX,
        ;
    }

    loop
        invariant
            value >= 1,
            root == floor_sqrt(value as nat),
            root * root <= value,
            value < (root + 1) * (root + 1),
            1 <= root < 0x1_0000_0000,
            root <= estimate <= 0x1_0000_0000,
        decreases estimate,
    {
        proof {
            lemma_newton_step_facts(value as int, estimate as int, root as int);
            lemma_newton_step_stays_above(value as int, estimate as int, root as int);
        }
        let next = (estimate + value / estimate) / 2;
        if next >= estimate {
            return estimate;
        }
        estimate = next;
    }
}

// ---------------------------------------------------------------------------
// Direction transform
// ---------------------------------------------------------------------------

/// The raw vector multiplied by the matrix, still in thousandths.
pub open spec fn matrix_product(raw_x: int, raw_y: int, m: MatrixCoefficients) -> (int, int) {
    (raw_x * m.m00 + raw_y * m.m01, raw_x * m.m10 + raw_y * m.m11)
}

/// The squared length of the matrix product fits in a `u64`, as the length
/// computation needs.
pub open spec fn transform_fits(raw_x: int, raw_y: int, m: MatrixCoefficients) -> bool {
    let (nx, ny) = matrix_product(raw_x, raw_y, m);
    nx * nx + ny * ny <= u64::MAX
}

/// Length of the raw vector, in thousandths of a count, rounded down.
pub open spec fn raw_length(raw_x: int, raw_y: int) -> nat {
    floor_sqrt(((raw_x * raw_x + raw_y * raw_y) * 1_000_000) as nat)
}

/// Length of the matrix product, rounded down.
pub open spec fn transformed_length(raw_x: int, raw_y: int, m: MatrixCoefficients) -> nat {
    let (nx, ny) = matrix_product(raw_x, raw_y, m);
    floor_sqrt((nx * nx + ny * ny) as nat)
}

/// One axis of the product rescaled to the raw length, in thousandths.
pub open spec fn rescaled(n: int, raw_len: int, t_len: int) -> int {
    tdiv(n * raw_len, t_len)
}

/// One report through the transform, given the carried fractions: the new
/// fractions and the output.  When either length is zero the output is
/// `(0, 0)` and the fractions are kept; otherwise each axis is the rescaled
/// product plus its fraction, truncated toward zero to whole counts and
/// saturated to `i16`, and what truncation dropped is carried on.
pub open spec fn transform_step(remainders: (int, int), raw_x: int, raw_y: int, m: MatrixCoefficients) -> (
    (int, int),
    (i16, i16),
) {
    let (nx, ny) = matrix_product(raw_x, raw_y, m);
    let raw_len = raw_length(raw_x, raw_y) as int;
    let t_len = transformed_length(raw_x, raw_y, m) as int;
    let ox = rescaled(nx, raw_len, t_len) + remainders.0;
    let oy = rescaled(ny, raw_len, t_len) + remainders.1;
    if raw_len == 0 || t_len == 0 {
        (remainders, (0i16, 0i16))
    } else {
        (
            (ox - MATRIX_SCALE * tdiv(ox, MATRIX_SCALE as int), oy - MATRIX_SCALE * tdiv(oy, MATRIX_SCALE as int)),
            (clamp_i16(tdiv(ox, MATRIX_SCALE as int)), clamp_i16(tdiv(oy, MATRIX_SCALE as int))),
        )
    }
}

/// Trackball direction transform with the per-axis fraction carried between reports.
pub struct TrackballTransform {
    output_x_remainder: i64,
    output_y_remainder: i64,
}

impl TrackballTransform {
    #[verifier::type_invariant]
    spec fn remainders_below_one_count(self) -> bool {
        -1000 < self.output_x_remainder < 1000 && -1000 < self.output_y_remainder < 1000
    }

    /// The carried fractions of the x and y axes, in thousandths of a count.
    pub closed spec fn remainders(self) -> (int, int) {
        (self.output_x_remainder as int, self.output_y_remainder as int)
    }

    pub fn new() -> (t: Self)
        ensures
            t.remainders() == (0int, 0int),
    {
        TrackballTransform { output_x_remainder: 0, output_y_remainder: 0 }
    }

    /// Transforms one report; see [`transform_step`].
    pub fn apply(&mut self, raw_x: i16, raw_y: i16, matrix: MatrixCoefficients) -> (r: (i16, i16))
        requires
            transform_fits(raw_x as int, raw_y as int, matrix),
        ensures
            (final(self).remainders(), r) == transform_step(old(self).remainders(), raw_x as int, raw_y as int, matrix),
            -1000 < final(self).remainders().0 < 1000,
            -1000 < final(self).remainders().1 < 1000,
            raw_x == 0 && raw_y == 0 ==> r == (0i16, 0i16) && final(self).remainders() == old(self).remainders(),
    {
        proof {
            use_type_invariant(&*self);
        }
        let ghost (nx, ny) = matrix_product(raw_x as int, raw_y as int, matrix);
        let rx64 = raw_x as i64;
        let ry64 = raw_y as i64;
        let m00 = matrix.m00 as i64;
        let m01 = matrix.m01 as i64;
        let m10 = matrix.m10 as i64;
        let m11 = matrix.m11 as i64;
        proof {
            lemma_small_product(rx64 as int, m00 as int);
            lemma_small_product(ry64 as int, m01 as int);
            lemma_small_product(rx64 as int, m10 as int);
            lemma_small_product(ry64 as int, m11 as int);
        }
        let output_x_numerator: i64 = rx64 * m00 + ry64 * m01;
        let output_y_numerator: i64 = rx64 * m10 + ry64 * m11;

        proof {
            assert(rx64 * rx64 <= 0x4000_0000) by (nonlinear_arith)
                requires
                    -32768 <= rx64 <= 32767,
            ;
            assert(ry64 * ry64 <= 0x4000_0000) by (nonlinear_arith)
                requires
                    -32768 <= ry64 <= 32767,
            ;
            assert(rx64 * rx64 >= 0) by (nonlinear_arith);
            assert(ry64 * ry64 >= 0) by (nonlinear_arith);
        }
        let squared: i64 = rx64 * rx64 + ry64 * ry64;
        let raw_length = integer_sqrt(squared as u64 * NORMALIZATION_SCALE * NORMALIZATION_SCALE);
        proof {
            if raw_x == 0 && raw_y == 0 {
                assert(rx64 == 0 && ry64 == 0);
                assert(rx64 * rx64 == 0 && ry64 * ry64 == 0) by (nonlinear_arith)
                    requires
                        rx64 == 0,
                        ry64 == 0,
                ;
                assert(squared == 0);
                assert(floor_sqrt(0) == 0);
                assert(raw_length == 0);
            }
        }

        let ax = unsigned_magnitude(output_x_numerator);
        let ay = unsigned_magnitude(output_y_numerator);
        proof {
            assert(ax * ax == nx * nx) by (nonlinear_arith)
                requires
                    ax == nx || ax == -nx,
            ;
            assert(ay * ay == ny * ny) by (nonlinear_arith)
                requires
                    ay == ny || ay == -ny,
            ;
            assert(ax * ax >= 0 && ay * ay >= 0) by (nonlinear_arith);
        }
        let transformed_length = integer_sqrt(ax * ax + ay * ay);

        if raw_length == 0 || transformed_length == 0 {
            return (0, 0);
        }

        proof {
            lemma_floor_sqrt(((rx64 * rx64 + ry64 * ry64) * 1_000_000) as nat);
            assert(raw_length <= 0x1_0000_0000) by (nonlinear_arith)
                requires
                    raw_length * raw_length <= 0x8000_0000 * 1_000_000,
            ;
            lemma_wide_product(output_x_numerator as int, raw_length as int);
            lemma_wide_product(output_y_numerator as int, raw_length as int);
        }
        let normalized_x_numerator = output_x_numerator as i128 * raw_length as i128
            / transformed_length as i128;
        let normalized_y_numerator = output_y_numerator as i128 * raw_length as i128
            / transformed_length as i128;
        proof {
            lemma_tdiv_shrinks(output_x_numerator as int * raw_length as int, transformed_length as int);
            lemma_tdiv_shrinks(output_y_numerator as int * raw_length as int, transformed_length as int);
        }

        let output_x_numerator = normalized_x_numerator + self.output_x_remainder as i128;
        let output_y_numerator = normalized_y_numerator + self.output_y_remainder as i128;
        let output_x = output_x_numerator / 1000;
        let output_y = output_y_numerator / 1000;
        proof {
            lemma_trem_bounds(output_x_numerator as int, 1000);
            lemma_trem_bounds(output_y_numerator as int, 1000);
        }

        self.output_x_remainder = (output_x_numerator - output_x * 1000) as i64;
        self.output_y_remainder = (output_y_numerator - output_y * 1000) as i64;

        (saturate_i128_to_i16(output_x), saturate_i128_to_i16(output_y))
    }
}

impl Default for TrackballTransform {
    fn default() -> (t: Self)
        ensures
            t.remainders() == (0int, 0int),
    {
        TrackballTransform::new()
    }
}

/// A safe matrix can transform any raw report: the squared length of the
/// product always fits the length computation.
pub proof fn lemma_safe_matrix_fits(raw_x: i16, raw_y: i16, m: MatrixCoefficients)
    requires
        matrix_is_safe(m),
    ensures
        transform_fits(raw_x as int, raw_y as int, m),
{
    let (nx, ny) = matrix_product(raw_x as int, raw_y as int, m);
    assert(-524_288_000 <= raw_x * m.m00 <= 524_288_000) by (nonlinear_arith)
        requires
            -32768 <= raw_x <= 32767,
            -16000 <= m.m00 <= 16000,
    ;
    assert(-524_288_000 <= raw_y * m.m01 <= 524_288_000) by (nonlinear_arith)
        requires
            -32768 <= raw_y <= 32767,
            -16000 <= m.m01 <= 16000,
    ;
    assert(-524_288_000 <= raw_x * m.m10 <= 524_288_000) by (nonlinear_arith)
        requires
            -32768 <= raw_x <= 32767,
            -16000 <= m.m10 <= 16000,
    ;
    assert(-524_288_000 <= raw_y * m.m11 <= 524_288_000) by (nonlinear_arith)
        requires
            -32768 <= raw_y <= 32767,
            -16000 <= m.m11 <= 16000,
    ;
    assert(nx * nx <= 1_048_576_000 * 1_048_576_000) by (nonlinear_arith)
        requires
            -1_048_576_000 <= nx <= 1_048_576_000,
    ;
    assert(ny * ny <= 1_048_576_000 * 1_048_576_000) by (nonlinear_arith)
        requires
            -1_048_576_000 <= ny <= 1_048_576_000,
    ;
}

/// A raw count times a coefficient stays within 2^46 in magnitude.
proof fn lemma_small_product(raw: int, m: int)
    requires
        -32768 <= raw <= 32767,
        i32::MIN <= m <= i32::MAX,
    ensures
        -0x4000_0000_0000 <= raw * m <= 0x4000_0000_0000,
{
    assert(-0x4000_0000_0000 <= raw * m <= 0x4000_0000_0000) by (nonlinear_arith)
        requires
            -32768 <= raw <= 32768,
            -0x8000_0000 <= m <= 0x8000_0000,
    ;
}

/// A product numerator times a raw length stays within 2^81 in magnitude.
proof fn lemma_wide_product(n: int, len: int)
    requires
        -0x8000_0000_0000 <= n <= 0x8000_0000_0000,
        0 <= len <= 0x1_0000_0000,
    ensures
        -0x2_0000_0000_0000_0000_0000 <= n * len <= 0x2_0000_0000_0000_0000_0000,
{
    assert(-0x2_0000_0000_0000_0000_0000 <= n * len <= 0x2_0000_0000_0000_0000_0000) by (nonlinear_arith)
        requires
            -0x8000_0000_0000 <= n <= 0x8000_0000_0000,
            0 <= len <= 0x1_0000_0000,
    ;
}

/// Truncating division by a positive divisor does not grow the magnitude.
proof fn lemma_tdiv_shrinks(a: int, b: int)
    requires
        b >= 1,
    ensures
        -a <= tdiv(a, b) <= a || a <= tdiv(a, b) <= -a,
{
    if a >= 0 {
        vstd::arithmetic::div_mod::lemma_div_is_ordered_by_denominator(a, 1, b);
    } else {
        vstd::arithmetic::div_mod::lemma_div_is_ordered_by_denominator(-a, 1, b);
    }
}

/// The magnitude of a signed value as an unsigned one.
fn unsigned_magnitude(v: i64) -> (r: u64)
    requires
        v > i64::MIN,
    ensures
        r == (if v < 0 { -(v as int) } else { v as int }),
{
    if v < 0 {
        (-v) as u64
    } else {
        v as u64
    }
}

/// The motion one report asks for, per axis in thousandths of a count: the
/// rescaled product, or nothing when either length is zero.
pub open spec fn requested_motion(raw_x: int, raw_y: int, m: MatrixCoefficients) -> (int, int) {
    let (nx, ny) = matrix_product(raw_x, raw_y, m);
    let raw_len = raw_length(raw_x, raw_y) as int;
    let t_len = transformed_length(raw_x, raw_y, m) as int;
    if raw_len == 0 || t_len == 0 {
        (0, 0)
    } else {
        (rescaled(nx, raw_len, t_len), rescaled(ny, raw_len, t_len))
    }
}

/// The whole counts of one report before saturation to `i16`.
pub open spec fn emitted_counts(remainders: (int, int), raw_x: int, raw_y: int, m: MatrixCoefficients) -> (int, int) {
    let (mx, my) = requested_motion(raw_x, raw_y, m);
    let raw_len = raw_length(raw_x, raw_y) as int;
    let t_len = transformed_length(raw_x, raw_y, m) as int;
    if raw_len == 0 || t_len == 0 {
        (0, 0)
    } else {
        (tdiv(mx + remainders.0, MATRIX_SCALE as int), tdiv(my + remainders.1, MATRIX_SCALE as int))
    }
}

/// A run of reports through the transform, each with the matrix live at the
/// time: per axis the total counts emitted before saturation, the total
/// motion asked for, and the fractions carried at the end.
pub open spec fn transform_run(remainders: (int, int), reports: Seq<(i16, i16, MatrixCoefficients)>) -> (
    (int, int),
    (int, int),
    (int, int),
)
    decreases reports.len(),
{
    if reports.len() == 0 {
        ((0, 0), (0, 0), remainders)
    } else {
        let (emitted, requested, rems) = transform_run(remainders, reports.drop_last());
        let r = reports.last();
        let (ex, ey) = emitted_counts(rems, r.0 as int, r.1 as int, r.2);
        let (mx, my) = requested_motion(r.0 as int, r.1 as int, r.2);
        let (next, _) = transform_step(rems, r.0 as int, r.1 as int, r.2);
        ((emitted.0 + ex, emitted.1 + ey), (requested.0 + mx, requested.1 + my), next)
    }
}

/// No fractional motion is lost, even when the matrix changes between
/// reports: over any run of reports, the counts emitted (before saturation)
/// times 1000 plus the fractions still carried equal the motion asked for
/// plus the fractions carried at the start, per axis.  The carried fractions
/// stay below one count, so from a fresh transform the emitted motion never
/// drifts a whole count from the motion asked for.
pub proof fn lemma_transform_conserves_motion(
    remainders: (int, int),
    reports: Seq<(i16, i16, MatrixCoefficients)>,
)
    requires
        -1000 < remainders.0 < 1000,
        -1000 < remainders.1 < 1000,
    ensures
        ({
            let (emitted, requested, rems) = transform_run(remainders, reports);
            &&& MATRIX_SCALE * emitted.0 + rems.0 == requested.0 + remainders.0
            &&& MATRIX_SCALE * emitted.1 + rems.1 == requested.1 + remainders.1
            &&& -1000 < rems.0 < 1000
            &&& -1000 < rems.1 < 1000
            &&& remainders == (0int, 0int) ==> -1000 < MATRIX_SCALE * emitted.0 - requested.0 < 1000
                && -1000 < MATRIX_SCALE * emitted.1 - requested.1 < 1000
        }),
    decreases reports.len(),
{
    if reports.len() > 0 {
        lemma_transform_conserves_motion(remainders, reports.drop_last());
        let (_, _, rems) = transform_run(remainders, reports.drop_last());
        let r = reports.last();
        let (mx, my) = requested_motion(r.0 as int, r.1 as int, r.2);
        lemma_trem_bounds(mx + rems.0, 1000);
        lemma_trem_bounds(my + rems.1, 1000);
    }
}

pub open spec fn magnitude(v: int) -> int {
    if v < 0 {
        -v
    } else {
        v
    }
}

proof fn lemma_rescaled_axis(n: int, raw: int, t: int)
    requires
        t > 0,
        raw >= 0,
    ensures
        magnitude(rescaled(n, raw, t)) * t <= magnitude(n) * raw,
        magnitude(n) * raw < (magnitude(rescaled(n, raw, t)) + 1) * t,
        n >= 0 ==> rescaled(n, raw, t) >= 0,
        n <= 0 ==> rescaled(n, raw, t) <= 0,
{
    let b = magnitude(n) * raw;
    assert(b >= 0) by (nonlinear_arith)
        requires
            raw >= 0,
            b == magnitude(n) * raw,
            magnitude(n) >= 0,
    ;
    assert(magnitude(n * raw) == b) by (nonlinear_arith)
        requires
            raw >= 0,
            b == magnitude(n) * raw,
            magnitude(n) == (if n < 0 { -n } else { n }),
            magnitude(n * raw) == (if n * raw < 0 { -(n * raw) } else { n * raw }),
    ;
    let q = b / t;
    vstd::arithmetic::div_mod::lemma_fundamental_div_mod(b, t);
    vstd::arithmetic::div_mod::lemma_mod_bound(b, t);
    vstd::arithmetic::div_mod::lemma_div_pos_is_pos(b, t);
    assert(q * t <= b < (q + 1) * t) by (nonlinear_arith)
        requires
            b == t * q + b % t,
            0 <= b % t < t,
    ;
    if n * raw >= 0 {
        assert(rescaled(n, raw, t) == q);
    } else {
        assert(rescaled(n, raw, t) == -q);
    }
    if n > 0 && raw > 0 {
        assert(n * raw > 0) by (nonlinear_arith)
            requires
                n > 0,
                raw > 0,
        ;
    }
    if n < 0 && raw > 0 {
        assert(n * raw < 0) by (nonlinear_arith)
            requires
                n < 0,
                raw > 0,
        ;
    }
    if raw == 0 {
        assert(n * raw == 0);
    }
    if n <= 0 {
        assert(n * raw <= 0) by (nonlinear_arith)
            requires
                n <= 0,
                raw >= 0,
        ;
    }
    if n >= 0 {
        assert(n * raw >= 0) by (nonlinear_arith)
            requires
                n >= 0,
                raw >= 0,
        ;
    }
    if b == 0 {
        assert(q == 0);
    }
}

proof fn lemma_square_bounds(a: int, b: int, t: int)
    requires
        t > 0,
        a >= 0,
        a * t <= b,
        b < (a + 1) * t,
    ensures
        (a * a) * (t * t) <= b * b,
        b * b < ((a + 1) * (a + 1)) * (t * t),
{
    assert((a * a) * (t * t) == (a * t) * (a * t)) by (nonlinear_arith);
    assert(((a + 1) * (a + 1)) * (t * t) == ((a + 1) * t) * ((a + 1) * t)) by (nonlinear_arith);
    assert((a * t) * (a * t) <= b * b) by (nonlinear_arith)
        requires
            0 <= a * t <= b,
    ;
    assert(b * b < ((a + 1) * t) * ((a + 1) * t)) by (nonlinear_arith)
        requires
            0 <= b < (a + 1) * t,
    ;
}

/// Length normalization: the rescaled vector keeps the direction of the
/// matrix product (each axis keeps its sign) and has the raw vector's length
/// up to truncation, per axis in thousandths of a count: its squared length
/// times `t_len^2` stays below `raw_len^2 * (t_len + 1)^2`, and adding one
/// to each axis magnitude exceeds `raw_len`.
pub proof fn lemma_rescaled_length_matches_raw(raw_x: int, raw_y: int, m: MatrixCoefficients)
    requires
        raw_length(raw_x, raw_y) > 0,
        transformed_length(raw_x, raw_y, m) > 0,
    ensures
        ({
            let (nx, ny) = matrix_product(raw_x, raw_y, m);
            let raw_len = raw_length(raw_x, raw_y) as int;
            let t_len = transformed_length(raw_x, raw_y, m) as int;
            let (rx, ry) = requested_motion(raw_x, raw_y, m);
            &&& nx >= 0 ==> rx >= 0
            &&& nx <= 0 ==> rx <= 0
            &&& ny >= 0 ==> ry >= 0
            &&& ny <= 0 ==> ry <= 0
            &&& (rx * rx + ry * ry) * (t_len * t_len) < (raw_len * raw_len) * ((t_len + 1) * (t_len + 1))
            &&& (magnitude(rx) + 1) * (magnitude(rx) + 1) + (magnitude(ry) + 1) * (magnitude(ry) + 1) > raw_len
                * raw_len
        }),
{
    let (nx, ny) = matrix_product(raw_x, raw_y, m);
    let raw_len = raw_length(raw_x, raw_y) as int;
    let t = transformed_length(raw_x, raw_y, m) as int;
    let (rx, ry) = requested_motion(raw_x, raw_y, m);
    let big_n = nx * nx + ny * ny;
    assert(big_n >= 0) by (nonlinear_arith)
        requires
            big_n == nx * nx + ny * ny,
    ;
    lemma_floor_sqrt(big_n as nat);
    assert(t * t <= big_n < (t + 1) * (t + 1));
    lemma_rescaled_axis(nx, raw_len, t);
    lemma_rescaled_axis(ny, raw_len, t);
    let ax = magnitude(rx);
    let ay = magnitude(ry);
    let bx = magnitude(nx) * raw_len;
    let by_ = magnitude(ny) * raw_len;
    lemma_square_bounds(ax, bx, t);
    lemma_square_bounds(ay, by_, t);
    assert(magnitude(nx) * magnitude(nx) == nx * nx) by (nonlinear_arith)
        requires
            magnitude(nx) == (if nx < 0 { -nx } else { nx }),
    ;
    assert(magnitude(ny) * magnitude(ny) == ny * ny) by (nonlinear_arith)
        requires
            magnitude(ny) == (if ny < 0 { -ny } else { ny }),
    ;
    assert(bx * bx + by_ * by_ == (raw_len * raw_len) * big_n) by (nonlinear_arith)
        requires
            bx == magnitude(nx) * raw_len,
            by_ == magnitude(ny) * raw_len,
            magnitude(nx) * magnitude(nx) == nx * nx,
            magnitude(ny) * magnitude(ny) == ny * ny,
            big_n == nx * nx + ny * ny,
    {
    }
    assert(rx * rx == ax * ax && ry * ry == ay * ay) by (nonlinear_arith)
        requires
            ax == magnitude(rx),
            ay == magnitude(ry),
            magnitude(rx) == (if rx < 0 { -rx } else { rx }),
            magnitude(ry) == (if ry < 0 { -ry } else { ry }),
    ;
    assert(raw_len * raw_len > 0) by (nonlinear_arith)
        requires
            raw_len > 0,
    ;
    assert((raw_len * raw_len) * big_n < (raw_len * raw_len) * ((t + 1) * (t + 1))) by (nonlinear_arith)
        requires
            raw_len * raw_len > 0,
            big_n < (t + 1) * (t + 1),
    ;
    assert((raw_len * raw_len) * (t * t) <= (raw_len * raw_len) * big_n) by (nonlinear_arith)
        requires
            raw_len * raw_len > 0,
            t * t <= big_n,
    ;
    assert((rx * rx + ry * ry) * (t * t) < (raw_len * raw_len) * ((t + 1) * (t + 1))) by (nonlinear_arith)
        requires
            rx * rx == ax * ax,
            ry * ry == ay * ay,
            (ax * ax) * (t * t) <= bx * bx,
            (ay * ay) * (t * t) <= by_ * by_,
            bx * bx + by_ * by_ == (raw_len * raw_len) * big_n,
            (raw_len * raw_len) * big_n < (raw_len * raw_len) * ((t + 1) * (t + 1)),
    ;
    let lower = (ax + 1) * (ax + 1) + (ay + 1) * (ay + 1);
    assert(lower * (t * t) > (raw_len * raw_len) * (t * t)) by (nonlinear_arith)
        requires
            bx * bx < ((ax + 1) * (ax + 1)) * (t * t),
            by_ * by_ < ((ay + 1) * (ay + 1)) * (t * t),
            lower == (ax + 1) * (ax + 1) + (ay + 1) * (ay + 1),
            bx * bx + by_ * by_ == (raw_len * raw_len) * big_n,
            (raw_len * raw_len) * (t * t) <= (raw_len * raw_len) * big_n,
    ;
    assert(lower > raw_len * raw_len) by (nonlinear_arith)
        requires
            lower * (t * t) > (raw_len * raw_len) * (t * t),
            t > 0,
    ;
}

} // verus!
