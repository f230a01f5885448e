//! Saturating fixed-point arithmetic on `i64`, with `SCALE` units per one.
use vstd::prelude::*;

verus! {

/// Number of raw units that stand for the number one.
pub const SCALE: i64 = 65536;

/// Saturates an integer to the range of `i64`.
pub open spec fn clamp(x: int) -> int {
    if x > i64::MAX as int {
        i64::MAX as int
    } else if x < i64::MIN as int {
        i64::MIN as int
    } else {
        x
    }
}

pub open spec fn abs(x: int) -> int {
    if x < 0 { -x } else { x }
}

/// Saturating sum.
pub open spec fn fx_add(a: int, b: int) -> int {
    clamp(a + b)
}

/// Saturating difference.
pub open spec fn fx_sub(a: int, b: int) -> int {
    clamp(a - b)
}

/// Saturating product, rounded toward zero.
pub open spec fn fx_mul(a: int, b: int) -> int {
    let q = (abs(a) * abs(b)) / (SCALE as int);
    if (a < 0) != (b < 0) { clamp(-q) } else { clamp(q) }
}

/// `b` raised to the natural power `n`, by repeated products.
pub open spec fn fx_pow(b: int, n: nat) -> int
    decreases n,
{
    if n == 0 { SCALE as int } else { fx_mul(fx_pow(b, (n - 1) as nat), b) }
}

/// The hyperbolic tangent by its Padé approximant of degree (7, 6),
/// `x (135135 + 17325 x² + 378 x⁴ + x⁶) / (135135 + 62370 x² + 3150 x⁴ + 28 x⁶)`,
/// held at one where it reaches one and from eight on; within 1e-4 of tanh.
pub open spec fn fx_tanh(a: int) -> int {
    let s = SCALE as int;
    let m = abs(a);
    let t = if m >= 8 * s {
        s
    } else {
        let q = (m * m) / s;
        let p = 135135 * (s * s * s) + 17325 * (s * s) * q + 378 * s * (q * q) + q * (q * q);
        let d = 135135 * (s * s * s) + 62370 * (s * s) * q + 3150 * s * (q * q) + 28 * (q * (q * q));
        let r = (m * p) / d;
        if r > s { s } else { r }
    };
    if a < 0 { -t } else { t }
}

pub fn clamp_wide(x: i128) -> (r: i64)
    ensures
        r == clamp(x as int),
{
    if x > i64::MAX as i128 {
        i64::MAX
    } else if x < i64::MIN as i128 {
        i64::MIN
    } else {
        x as i64
    }
}

pub fn fadd(a: i64, b: i64) -> (r: i64)
    ensures
        r == fx_add(a as int, b as int),
{
    clamp_wide(a as i128 + b as i128)
}

pub fn fsub(a: i64, b: i64) -> (r: i64)
    ensures
        r == fx_sub(a as int, b as int),
{
    clamp_wide(a as i128 - b as i128)
}

fn magnitude(a: i64) -> (r: u128)
    ensures
        r as int == abs(a as int),
        r <= 0x8000_0000_0000_0000,
{
    if a < 0 {
        (-(a as i128)) as u128
    } else {
        a as u128
    }
}

pub fn fmul(a: i64, b: i64) -> (r: i64)
    ensures
        r == fx_mul(a as int, b as int),
{
    let ma = magnitude(a);
    let mb = magnitude(b);
    proof {
        assert(ma * mb <= 0x8000_0000_0000_0000 * 0x8000_0000_0000_0000) by (nonlinear_arith)
            requires ma <= 0x8000_0000_0000_0000, mb <= 0x8000_0000_0000_0000;
    }
    let q: u128 = (ma * mb) / (SCALE as u128);
    proof {
        assert(q <= ma * mb) by (nonlinear_arith)
            requires q == (ma * mb) / 65536;
    }
    if (a < 0) != (b < 0) {
        clamp_wide(-(q as i128))
    } else {
        clamp_wide(q as i128)
    }
}

pub fn fpow(b: i64, n: u32) -> (r: i64)
    ensures
        r == fx_pow(b as int, n as nat),
{
    let mut acc: i64 = SCALE;
    let mut i: u32 = 0;
    while i < n
        invariant
            i <= n,
            acc == fx_pow(b as int, i as nat),
        decreases n - i,
    {
        acc = fmul(acc, b);
        i = i + 1;
    }
    acc
}

pub fn ftanh(a: i64) -> (r: i64)
    ensures
        r == fx_tanh(a as int),
{
    let m = magnitude(a);
    let s: u128 = 65536;
    let t: u128;
    if m >= 8 * s {
        t = s;
    } else {
        proof {
            assert(m * m < 0x80000 * 0x80000) by (nonlinear_arith)
                requires m < 0x80000;
        }
        let q: u128 = (m * m) / s;
        proof {
            assert(q * q < 0x400000 * 0x400000) by (nonlinear_arith)
                requires q < 0x400000;
            assert(q * (q * q) < 0x400000 * (0x400000 * 0x400000)) by (nonlinear_arith)
                requires q < 0x400000, q * q < 0x400000 * 0x400000;
            assert(17325 * (s * s) * q <= 17325 * (s * s) * 0x400000) by (nonlinear_arith)
                requires q < 0x400000;
            assert(62370 * (s * s) * q <= 62370 * (s * s) * 0x400000) by (nonlinear_arith)
                requires q < 0x400000;
        }
        let p: u128 = 135135 * (s * s * s) + 17325 * (s * s) * q + 378 * s * (q * q) + q * (q * q);
        let d: u128 = 135135 * (s * s * s) + 62370 * (s * s) * q + 3150 * s * (q * q) + 28 * (q * (
        q * q));
        proof {
            assert(p < 0x100_0000_0000_0000_0000);
            assert(m * p < 0x80000 * 0x100_0000_0000_0000_0000) by (nonlinear_arith)
                requires m < 0x80000, p < 0x100_0000_0000_0000_0000;
        }
        let r: u128 = (m * p) / d;
        t = if r > s { s } else { r };
    }
    assert(t <= 65536);
    if a < 0 {
        -(t as i64)
    } else {
        t as i64
    }
}

} // verus!
