//! Fixed-point arithmetic.
//!
//! Every real quantity of the simulation (resources, efficiencies, alleles,
//! probabilities) is held as a signed count of millionths. Products and
//! quotients are taken exactly in a wider integer and rounded down; a result
//! that leaves the 64-bit range is pinned to the nearest bound.

use vstd::prelude::*;

verus! {

/// One whole unit, in millionths.
pub const UNIT: i64 = 1_000_000;

/// The value of `x` pinned to the 64-bit range.
pub open spec fn saturate(x: int) -> i64 {
    if x > i64::MAX {
        i64::MAX
    } else if x < i64::MIN {
        i64::MIN
    } else {
        x as i64
    }
}

/// The quotient of `n` by `d` rounded towards minus infinity, and zero where
/// `d` is zero.
pub open spec fn quotient(n: int, d: int) -> int {
    if d > 0 {
        n / d
    } else if d < 0 {
        (-n) / (-d)
    } else {
        0
    }
}

/// The fixed-point product of two quantities, before saturation.
pub open spec fn product(a: int, b: int) -> int {
    (a * b) / (UNIT as int)
}

/// The mean of two quantities, rounded down.
pub open spec fn mean(a: int, b: int) -> int {
    (a + b) / 2
}

/// `value` moved into the closed interval from `low` to `high`.
pub open spec fn clamp(value: int, low: int, high: int) -> int {
    if value < low {
        low
    } else if value > high {
        high
    } else {
        value
    }
}

/// Whether `r` is the largest integer whose square does not exceed `n`.
pub open spec fn is_root(n: int, r: int) -> bool {
    0 <= r && r * r <= n < (r + 1) * (r + 1)
}

/// A wide value pinned to the 64-bit range.
pub fn clip(x: i128) -> (r: i64)
    ensures
        r == saturate(x as int),
{
    if x > i64::MAX as i128 {
        i64::MAX
    } else if x < i64::MIN as i128 {
        i64::MIN
    } else {
        x as i64
    }
}

/// The sum of two quantities, saturated.
pub fn sat_add(a: i64, b: i64) -> (r: i64)
    ensures
        r == saturate(a + b),
{
    clip(a as i128 + b as i128)
}

/// The difference of two quantities, saturated.
pub fn sat_sub(a: i64, b: i64) -> (r: i64)
    ensures
        r == saturate(a - b),
{
    clip(a as i128 - b as i128)
}

/// Division rounded towards minus infinity by a positive divisor.
pub fn floor_div(n: i128, d: i128) -> (q: i128)
    requires
        d > 0,
    ensures
        q == n / d,
{
    if n >= 0 {
        n / d
    } else {
        let m: i128 = -(n + 1);
        let t: i128 = m / d;
        assert(n / d == -(m / d) - 1) by (nonlinear_arith)
            requires
                d > 0,
                n < 0,
                m == -(n + 1),
        ;
        -t - 1
    }
}

/// Division rounded towards minus infinity by any divisor; zero by zero.
pub fn divide(n: i128, d: i128) -> (q: i128)
    requires
        n > i128::MIN,
    ensures
        q == quotient(n as int, d as int),
{
    if d > 0 {
        floor_div(n, d)
    } else if d < 0 {
        if d == i128::MIN {
            // |n| < |d|, so the quotient is 0 or -1
            assert((-n) / (-d) == (if n <= 0 { 0int } else { -1int })) by (nonlinear_arith)
                requires
                    d == i128::MIN,
                    i128::MIN < n <= i128::MAX,
            ;
            if n <= 0 {
                0
            } else {
                -1
            }
        } else {
            floor_div(-n, -d)
        }
    } else {
        0
    }
}

/// The fixed-point product `a * b`, rounded down and saturated.
pub fn scaled(a: i64, b: i64) -> (r: i64)
    ensures
        r == saturate(product(a as int, b as int)),
{
    assert(-0x4000_0000_0000_0000_0000_0000_0000_0000 <= a * b
        <= 0x4000_0000_0000_0000_0000_0000_0000_0000) by (nonlinear_arith)
        requires
            -0x8000_0000_0000_0000 <= a <= 0x7fff_ffff_ffff_ffff,
            -0x8000_0000_0000_0000 <= b <= 0x7fff_ffff_ffff_ffff,
    ;
    let p: i128 = (a as i128) * (b as i128);
    clip(floor_div(p, UNIT as i128))
}

/// The mean of two quantities, rounded down.
pub fn halfway(a: i64, b: i64) -> (r: i64)
    ensures
        r == mean(a as int, b as int),
{
    let q: i128 = floor_div(a as i128 + b as i128, 2);
    q as i64
}

/// `value` moved into the interval from `low` to `high`.
pub fn clamped(value: i128, low: i64, high: i64) -> (r: i64)
    requires
        low <= high,
    ensures
        r == clamp(value as int, low as int, high as int),
{
    if value < low as i128 {
        low
    } else if value > high as i128 {
        high
    } else {
        value as i64
    }
}

/// The integer square root, by bisection.
pub fn root(n: u64) -> (r: u64)
    requires
        n <= 0x1_0000_0000_0000,
    ensures
        is_root(n as int, r as int),
{
    let mut low: u64 = 0;
    let mut high: u64 = 0x100_0001;
    assert(0x100_0001 * 0x100_0001 > 0x1_0000_0000_0000) by (nonlinear_arith);
    while high - low > 1
        invariant
            low < high <= 0x100_0001,
            low * low <= n,
            n < high * high,
        decreases high - low,
    {
        let mid: u64 = low + (high - low) / 2;
        assert(mid * mid <= 0x100_0001 * 0x100_0001) by (nonlinear_arith)
            requires
                0 <= mid <= 0x100_0001,
        ;
        if mid * mid <= n {
            low = mid;
        } else {
            high = mid;
        }
    }
    low
}

} // verus!
