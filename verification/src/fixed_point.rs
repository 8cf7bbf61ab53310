//! Integer helpers shared by the motion pipelines: division that truncates
//! toward zero (as Rust's `/` does on signed integers) and saturation to `i16`.

use vstd::prelude::*;

verus! {

/// Quotient rounded toward zero, for a positive divisor.
pub open spec fn tdiv(a: int, b: int) -> int {
    if a >= 0 {
        a / b
    } else {
        -((-a) / b)
    }
}

/// What is left of `a` after taking out `b * tdiv(a, b)`; it has the sign of `a`.
pub open spec fn trem(a: int, b: int) -> int {
    a - b * tdiv(a, b)
}

/// `v` saturated to the range of `i16`.
pub open spec fn clamp_i16(v: int) -> i16 {
    if v < i16::MIN {
        i16::MIN
    } else if v > i16::MAX {
        i16::MAX
    } else {
        v as i16
    }
}

/// The remainder left by truncating division is smaller than the divisor and
/// never has the opposite sign of the dividend.
pub proof fn lemma_trem_bounds(a: int, b: int)
    requires
        b > 0,
    ensures
        -b < trem(a, b) < b,
        a >= 0 ==> 0 <= trem(a, b),
        a <= 0 ==> trem(a, b) <= 0,
        tdiv(a, b) * b + trem(a, b) == a,
        trem(a, b) == (if a >= 0 { a % b } else { -((-a) % b) }),
{
    if a >= 0 {
        vstd::arithmetic::div_mod::lemma_fundamental_div_mod(a, b);
        vstd::arithmetic::div_mod::lemma_mod_bound(a, b);
        assert(tdiv(a, b) == a / b);
        assert(trem(a, b) == a % b);
    } else {
        let n = -a;
        let q = n / b;
        vstd::arithmetic::div_mod::lemma_fundamental_div_mod(n, b);
        vstd::arithmetic::div_mod::lemma_mod_bound(n, b);
        assert(tdiv(a, b) == -q);
        assert(b * tdiv(a, b) == -(b * q)) by (nonlinear_arith)
            requires
                tdiv(a, b) == -q,
        ;
        assert(trem(a, b) == -(n % b));
    }
    assert(tdiv(a, b) * b == b * tdiv(a, b)) by (nonlinear_arith);
}

/// Saturates an `i128` to `i16`.
pub fn saturate_i128_to_i16(v: i128) -> (r: i16)
    ensures
        r == clamp_i16(v as int),
{
    if v < i16::MIN as i128 {
        i16::MIN
    } else if v > i16::MAX as i128 {
        i16::MAX
    } else {
        v as i16
    }
}

/// Saturates an `i64` to `i16`.
pub fn saturate_i64_to_i16(v: i64) -> (r: i16)
    ensures
        r == clamp_i16(v as int),
{
    if v < i16::MIN as i64 {
        i16::MIN
    } else if v > i16::MAX as i64 {
        i16::MAX
    } else {
        v as i16
    }
}

/// Saturates an `i32` to `i16`.
pub fn saturate_i32_to_i16(v: i32) -> (r: i16)
    ensures
        r == clamp_i16(v as int),
{
    if v < i16::MIN as i32 {
        i16::MIN
    } else if v > i16::MAX as i32 {
        i16::MAX
    } else {
        v as i16
    }
}

} // verus!
