//! Fixed-point scalars.
//!
//! Every quantity of the engine (a coordinate, a length, a ratio, a time
//! step) is a signed 64-bit integer that counts millionths of a unit.
//! Arithmetic saturates at the ends of the `i64` range instead of wrapping.
use vstd::prelude::*;

verus! {

/// Raw value of the scalar one.
pub const SCALE: i64 = 1_000_000;

/// Raw value of one half.
pub const HALF: i64 = 500_000;

/// Raw value of two.
pub const TWO: i64 = 2_000_000;

/// The smallest positive scalar; guards divisions by a vanishing distance.
pub const EPSILON: i64 = 1;

/// The nearest `i64` to the integer `v`.
pub open spec fn sat(v: int) -> i64 {
    if v < i64::MIN as int {
        i64::MIN
    } else if v > i64::MAX as int {
        i64::MAX
    } else {
        v as i64
    }
}

/// Quotient of `n` by a positive `d`, rounded toward zero.
pub open spec fn trunc_div(n: int, d: int) -> int {
    if n >= 0 {
        n / d
    } else {
        -((-n) / d)
    }
}

pub open spec fn spec_sat_add(a: i64, b: i64) -> i64 {
    sat(a as int + b as int)
}

pub open spec fn spec_sat_sub(a: i64, b: i64) -> i64 {
    sat(a as int - b as int)
}

/// Fixed-point product: the exact product of the raw values, divided by
/// `SCALE` toward zero, then saturated.
pub open spec fn spec_fx_mul(a: i64, b: i64) -> i64 {
    sat(trunc_div(a as int * b as int, SCALE as int))
}

/// Fixed-point quotient by a positive divisor, rounded toward zero, then
/// saturated.
pub open spec fn spec_fx_div(a: i64, b: i64) -> i64 {
    sat(trunc_div(a as int * SCALE as int, b as int))
}

pub open spec fn spec_fx_max(a: i64, b: i64) -> i64 {
    if a >= b {
        a
    } else {
        b
    }
}

/// `r` is the integer square root of `n`, rounded down.
pub open spec fn is_floor_sqrt(n: int, r: int) -> bool {
    r >= 0 && r * r <= n && n < (r + 1) * (r + 1)
}

/// The integer square root of `n`, rounded down.
pub open spec fn floor_sqrt(n: int) -> int {
    choose|r: int| is_floor_sqrt(n, r)
}

/// A number has at most one floor square root.
pub proof fn lemma_floor_sqrt_unique(n: int, r: int, s: int)
    requires
        is_floor_sqrt(n, r),
        is_floor_sqrt(n, s),
    ensures
        r == s,
{
    if r < s {
        assert((r + 1) * (r + 1) <= s * s) by (nonlinear_arith)
            requires
                0 <= r + 1 <= s,
        ;
    } else if s < r {
        assert((s + 1) * (s + 1) <= r * r) by (nonlinear_arith)
            requires
                0 <= s + 1 <= r,
        ;
    }
}

fn clamp_wide(v: i128) -> (r: i64)
    ensures
        r == sat(v as int),
{
    if v < i64::MIN as i128 {
        i64::MIN
    } else if v > i64::MAX as i128 {
        i64::MAX
    } else {
        v as i64
    }
}

#[verifier::when_used_as_spec(spec_sat_add)]
pub fn sat_add(a: i64, b: i64) -> (r: i64)
    ensures
        r == spec_sat_add(a, b),
{
    clamp_wide(a as i128 + b as i128)
}

#[verifier::when_used_as_spec(spec_sat_sub)]
pub fn sat_sub(a: i64, b: i64) -> (r: i64)
    ensures
        r == spec_sat_sub(a, b),
{
    clamp_wide(a as i128 - b as i128)
}

#[verifier::when_used_as_spec(spec_fx_mul)]
pub fn fx_mul(a: i64, b: i64) -> (r: i64)
    ensures
        r == spec_fx_mul(a, b),
{
    assert(-0x4000_0000_0000_0000_0000_0000_0000_0000 <= (a as int) * (b as int)
        <= 0x4000_0000_0000_0000_0000_0000_0000_0000) by (nonlinear_arith)
        requires
            -0x8000_0000_0000_0000 <= a as int <= 0x8000_0000_0000_0000,
            -0x8000_0000_0000_0000 <= b as int <= 0x8000_0000_0000_0000,
    ;
    let p: i128 = (a as i128) * (b as i128);
    let q: i128 = if p >= 0 {
        p / (SCALE as i128)
    } else {
        -((-p) / (SCALE as i128))
    };
    clamp_wide(q)
}

#[verifier::when_used_as_spec(spec_fx_div)]
pub fn fx_div(a: i64, b: i64) -> (r: i64)
    requires
        b > 0,
    ensures
        r == spec_fx_div(a, b),
{
    let n: i128 = (a as i128) * 1_000_000;
    let d: i128 = b as i128;
    assert(n as int == (a as int) * (SCALE as int));
    let q: i128 = if n >= 0 {
        assert(0 <= (n as int) / (d as int) <= n as int) by (nonlinear_arith)
            requires
                n >= 0,
                d > 0,
        ;
        n / d
    } else {
        assert(0 <= (-(n as int)) / (d as int) <= -(n as int)) by (nonlinear_arith)
            requires
                n < 0,
                d > 0,
        ;
        -((-n) / d)
    };
    clamp_wide(q)
}

#[verifier::when_used_as_spec(spec_fx_max)]
pub fn fx_max(a: i64, b: i64) -> (r: i64)
    ensures
        r == spec_fx_max(a, b),
{
    if a >= b {
        a
    } else {
        b
    }
}

/// Square of the raw value, exact.
pub open spec fn spec_square(v: i64) -> int {
    (v as int) * (v as int)
}

pub fn square(v: i64) -> (r: u128)
    ensures
        r as int == spec_square(v),
        r <= 0x4000_0000_0000_0000_0000_0000_0000_0000,
{
    assert(0 <= (v as int) * (v as int) <= 0x4000_0000_0000_0000_0000_0000_0000_0000)
        by (nonlinear_arith)
        requires
            -0x8000_0000_0000_0000 <= v as int <= 0x8000_0000_0000_0000,
    ;
    let w: i128 = v as i128;
    let p: i128 = w * w;
    p as u128
}

/// Integer square root, rounded down.
pub fn isqrt(n: u128) -> (r: u128)
    ensures
        r as int == floor_sqrt(n as int),
        is_floor_sqrt(n as int, r as int),
{
    let mut lo: u128 = 0;
    let mut hi: u128 = 0x1_0000_0000_0000_0000;
    assert((hi as int) * (hi as int) > n as int) by (nonlinear_arith)
        requires
            hi == 0x1_0000_0000_0000_0000,
            n <= 0xffff_ffff_ffff_ffff_ffff_ffff_ffff_ffff,
    ;
    while hi - lo > 1
        invariant
            lo < hi <= 0x1_0000_0000_0000_0000,
            (lo as int) * (lo as int) <= n as int,
            (n as int) < (hi as int) * (hi as int),
        decreases hi - lo,
    {
        let mid: u128 = lo + (hi - lo) / 2;
        assert((mid as int) * (mid as int) <= 0xffff_ffff_ffff_ffff_ffff_ffff_ffff_ffff)
            by (nonlinear_arith)
            requires
                0 <= mid as int <= 0xffff_ffff_ffff_ffff,
        ;
        if mid * mid <= n {
            lo = mid;
        } else {
            hi = mid;
        }
    }
    proof {
        assert(is_floor_sqrt(n as int, lo as int));
        lemma_floor_sqrt_unique(n as int, lo as int, floor_sqrt(n as int));
    }
    lo
}

} // verus!
