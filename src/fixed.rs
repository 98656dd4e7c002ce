use vstd::prelude::*;

verus! {

/// Units per whole in the fixed-point reading of an `i64`: six decimals.
pub const SCALE: i64 = 1_000_000;

/// `x` limited to the range of `i64`.
pub open spec fn clamp(x: int) -> int {
    if x < i64::MIN {
        i64::MIN as int
    } else if x > i64::MAX {
        i64::MAX as int
    } else {
        x
    }
}

/// Division rounding toward zero, for a positive divisor.
pub open spec fn tdiv(p: int, d: int) -> int {
    if p >= 0 {
        p / d
    } else {
        -((-p) / d)
    }
}

/// Saturating sum.
pub open spec fn sat_add(a: int, b: int) -> int {
    clamp(a + b)
}

/// Saturating difference.
pub open spec fn sat_sub(a: int, b: int) -> int {
    clamp(a - b)
}

/// Fixed-point product: the exact product scaled back, rounded toward zero, saturated.
pub open spec fn fx_mul(a: int, b: int) -> int {
    clamp(tdiv(a * b, SCALE as int))
}

/// Exact fixed-point product: the product scaled back, rounded toward zero.
pub open spec fn fx(a: int, b: int) -> int {
    tdiv(a * b, SCALE as int)
}

/// Clamps an `i128` to the range of `i64`.
pub fn clamp_i128(x: i128) -> (r: i64)
    ensures
        r == clamp(x as int),
{
    if x < i64::MIN as i128 {
        i64::MIN
    } else if x > i64::MAX as i128 {
        i64::MAX
    } else {
        x as i64
    }
}

/// Saturating sum of two `i64`.
pub fn add_sat(a: i64, b: i64) -> (r: i64)
    ensures
        r == sat_add(a as int, b as int),
{
    clamp_i128(a as i128 + b as i128)
}

/// Saturating difference of two `i64`.
pub fn sub_sat(a: i64, b: i64) -> (r: i64)
    ensures
        r == sat_sub(a as int, b as int),
{
    clamp_i128(a as i128 - b as i128)
}

/// Division of an `i128` by a positive `u64`, rounding toward zero.
pub fn div_trunc(p: i128, d: u64) -> (r: i128)
    requires
        d > 0,
        p > i128::MIN,
    ensures
        r == tdiv(p as int, d as int),
        -(p as int) <= r <= p || p <= r <= -(p as int),
{
    if p >= 0 {
        let q: u128 = p as u128 / d as u128;
        assert(q <= p) by (nonlinear_arith)
            requires q == (p as int) / (d as int), p >= 0, d > 0;
        q as i128
    } else {
        let q: u128 = (-p) as u128 / d as u128;
        assert(q <= -(p as int)) by (nonlinear_arith)
            requires q == (-(p as int)) / (d as int), p < 0, d > 0;
        -(q as i128)
    }
}

/// Fixed-point product of two `i64`.
pub fn mul_fixed(a: i64, b: i64) -> (r: i64)
    ensures
        r == fx_mul(a as int, b as int),
{
    let ai = a as i128;
    let bi = b as i128;
    assert(-0x4000_0000_0000_0000_0000_0000_0000_0000int <= ai * bi <= 0x4000_0000_0000_0000_0000_0000_0000_0000int)
        by (nonlinear_arith)
        requires
            -0x8000_0000_0000_0000int <= ai <= 0x8000_0000_0000_0000int,
            -0x8000_0000_0000_0000int <= bi <= 0x8000_0000_0000_0000int;
    let p: i128 = ai * bi;
    clamp_i128(div_trunc(p, SCALE as u64))
}

/// Exact fixed-point product of two `i64`; `None` where it leaves `i64`.
pub fn mul_fixed_checked(a: i64, b: i64) -> (r: Option<i64>)
    ensures
        r is Some <==> crate::vector::fits_i64(fx(a as int, b as int)),
        r is Some ==> r->Some_0 == fx(a as int, b as int),
{
    let ai = a as i128;
    let bi = b as i128;
    assert(-0x4000_0000_0000_0000_0000_0000_0000_0000int <= ai * bi <= 0x4000_0000_0000_0000_0000_0000_0000_0000int)
        by (nonlinear_arith)
        requires
            -0x8000_0000_0000_0000int <= ai <= 0x8000_0000_0000_0000int,
            -0x8000_0000_0000_0000int <= bi <= 0x8000_0000_0000_0000int;
    let q = div_trunc(ai * bi, SCALE as u64);
    if q < i64::MIN as i128 || q > i64::MAX as i128 {
        None
    } else {
        Some(q as i64)
    }
}

} // verus!
