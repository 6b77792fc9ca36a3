//! The fan curve: conversion between the controller's 0..=255 duty values and
//! fan speeds, and the rules a curve has to follow before it is written.

use vstd::prelude::*;

verus! {

/// `n / d` rounded to the nearest integer, halfway cases away from zero
/// (what `f32::round` does to the quotient).
pub open spec fn round_div(n: int, d: int) -> int
    recommends
        d != 0,
{
    if d < 0 {
        round_div_pos(-n, -d)
    } else {
        round_div_pos(n, d)
    }
}

pub open spec fn round_div_pos(n: int, d: int) -> int {
    if n >= 0 {
        (2 * n + d) / (2 * d)
    } else {
        -((2 * (-n) + d) / (2 * d))
    }
}

/// The fan speed a duty value stands for: `pwm * max_rpm / 255`, rounded to
/// the nearest 100 rpm.
pub open spec fn rpm_of(pwm: int, max_rpm: int) -> int {
    round_div(pwm * max_rpm, 25500) * 100
}

pub open spec fn clamp(v: int, lo: int, hi: int) -> int {
    if v < lo {
        lo
    } else if v > hi {
        hi
    } else {
        v
    }
}

/// The duty value for a fan speed: `rpm * 255 / max_rpm` rounded, kept in
/// 0..=255.  A zero maximum makes every positive speed full duty and every
/// other speed zero, as the division by zero in floating point does.
pub open spec fn pwm_of(rpm: int, max_rpm: int) -> int {
    if max_rpm == 0 {
        if rpm > 0 {
            255
        } else {
            0
        }
    } else {
        clamp(round_div(rpm * 255, max_rpm), 0, 255)
    }
}

pub fn round_div_exec(n: i128, d: i128) -> (r: i128)
    requires
        d != 0,
        -0x4000_0000_0000_0000 <= n <= 0x4000_0000_0000_0000,
        -0x1_0000_0000 <= d <= 0x1_0000_0000,
    ensures
        r == round_div(n as int, d as int),
{
    let (nn, dd) = if d < 0 {
        (0 - n, 0 - d)
    } else {
        (n, d)
    };
    if nn >= 0 {
        (2 * nn + dd) / (2 * dd)
    } else {
        0 - ((2 * (0 - nn) + dd) / (2 * dd))
    }
}

proof fn lemma_round_div_bounds(n: int, d: int)
    requires
        d > 0,
    ensures
        -d < 2 * (n - round_div(n, d) * d) <= d || -d <= 2 * (n - round_div(n, d) * d) < d,
        n >= 0 ==> round_div(n, d) >= 0,
{
    let r = round_div(n, d);
    if n >= 0 {
        let q = (2 * n + d) / (2 * d);
        assert(q * (2 * d) <= 2 * n + d < q * (2 * d) + 2 * d) by (nonlinear_arith)
            requires
                q == (2 * n + d) / (2 * d),
                d > 0,
                n >= 0,
        ;
        assert(q >= 0) by (nonlinear_arith)
            requires
                q == (2 * n + d) / (2 * d),
                d > 0,
                n >= 0,
        ;
        assert(2 * (n - q * d) == 2 * n - q * (2 * d)) by (nonlinear_arith);
    } else {
        let m = -n;
        let q = (2 * m + d) / (2 * d);
        assert(q * (2 * d) <= 2 * m + d < q * (2 * d) + 2 * d) by (nonlinear_arith)
            requires
                q == (2 * m + d) / (2 * d),
                d > 0,
                m >= 0,
        ;
        assert(q >= 0) by (nonlinear_arith)
            requires
                q == (2 * m + d) / (2 * d),
                d > 0,
                m >= 0,
        ;
        assert(r == -q);
        assert(2 * (n - r * d) == -(2 * m - q * (2 * d))) by (nonlinear_arith)
            requires
                r == -q,
                n == -m,
        ;
    }
}

proof fn lemma_round_div_unique(n: int, d: int, k: int)
    requires
        d > 0,
        -d < 2 * (n - k * d) < d,
    ensures
        round_div(n, d) == k,
{
    if n >= 0 {
        assert(k * (2 * d) <= 2 * n + d < k * (2 * d) + 2 * d) by (nonlinear_arith)
            requires
                -d < 2 * (n - k * d) < d,
        ;
        assert((2 * n + d) / (2 * d) == k) by (nonlinear_arith)
            requires
                k * (2 * d) <= 2 * n + d < k * (2 * d) + 2 * d,
                d > 0,
        ;
    } else {
        let m = -n;
        let j = -k;
        assert(j * (2 * d) <= 2 * m + d < j * (2 * d) + 2 * d) by (nonlinear_arith)
            requires
                -d < 2 * (n - k * d) < d,
                m == -n,
                j == -k,
        ;
        assert((2 * m + d) / (2 * d) == j) by (nonlinear_arith)
            requires
                j * (2 * d) <= 2 * m + d < j * (2 * d) + 2 * d,
                d > 0,
        ;
    }
}

/// Fan speed for a duty value, rounded to 100 rpm.
///
/// Computed exactly on integers; for every duty value and fan maximum the
/// hardware reports, the product stays far below 2^24, where this agrees
/// with rounding the single-precision quotient.
pub fn pwm_to_rpm(pwm: i32, max_rpm: i32) -> (rpm: i32)
    requires
        i32::MIN <= rpm_of(pwm as int, max_rpm as int) <= i32::MAX,
    ensures
        rpm == rpm_of(pwm as int, max_rpm as int),
        rpm % 100 == 0,
{
    let p = (pwm as i64) * (max_rpm as i64);
    assert(-0x4000_0000_0000_0000 <= p <= 0x4000_0000_0000_0000) by (nonlinear_arith)
        requires
            p == (pwm as int) * (max_rpm as int),
            i32::MIN <= pwm <= i32::MAX,
            i32::MIN <= max_rpm <= i32::MAX,
    ;
    let q = round_div_exec(p as i128, 25500);
    (q * 100) as i32
}

/// Duty value (0..=255) for a fan speed.
pub fn rpm_to_pwm(rpm: i32, max_rpm: i32) -> (pwm: i32)
    ensures
        pwm == pwm_of(rpm as int, max_rpm as int),
        0 <= pwm <= 255,
{
    if max_rpm == 0 {
        return if rpm > 0 {
            255
        } else {
            0
        };
    }
    let q = round_div_exec((rpm as i128) * 255, max_rpm as i128);
    if q < 0 {
        0
    } else if q > 255 {
        255
    } else {
        q as i32
    }
}

/// Converting a fan speed to a duty value and back gives the same speed, for
/// every speed in whole hundreds up to the fan's maximum, as long as one
/// duty step (`max_rpm / 255`) is less than 100 rpm.
pub proof fn lemma_rpm_roundtrip(rpm: int, max_rpm: int)
    requires
        0 < max_rpm < 25500,
        0 <= rpm <= max_rpm,
        rpm % 100 == 0,
    ensures
        rpm_of(pwm_of(rpm, max_rpm), max_rpm) == rpm,
{
    let q = rpm * 255;
    let p = round_div(q, max_rpm);
    lemma_round_div_bounds(q, max_rpm);
    assert(0 <= q <= 255 * max_rpm) by (nonlinear_arith)
        requires
            q == rpm * 255,
            0 <= rpm <= max_rpm,
    ;
    // the rounded quotient stays within 0..=255, so clamping changes nothing
    assert(p <= 255) by (nonlinear_arith)
        requires
            -max_rpm <= 2 * (q - p * max_rpm) <= max_rpm,
            q <= 255 * max_rpm,
            max_rpm > 0,
    ;
    assert(pwm_of(rpm, max_rpm) == p);
    let k = rpm / 100;
    let e = p * max_rpm - q;
    assert(p * max_rpm == 25500 * k + e) by (nonlinear_arith)
        requires
            e == p * max_rpm - q,
            q == rpm * 255,
            rpm == 100 * k,
    ;
    assert(-25500 < 2 * (p * max_rpm - k * 25500) < 25500) by (nonlinear_arith)
        requires
            p * max_rpm == 25500 * k + e,
            -max_rpm <= 2 * (q - p * max_rpm) <= max_rpm,
            e == p * max_rpm - q,
            max_rpm < 25500,
    ;
    lemma_round_div_unique(p * max_rpm, 25500, k);
}


/// The rounded quotient is no larger in magnitude than the dividend.
pub proof fn lemma_round_div_magnitude(n: int, d: int)
    requires
        d >= 1,
    ensures
        n >= 0 ==> 0 <= round_div(n, d) <= n + 1,
        n < 0 ==> n - 1 <= round_div(n, d) <= 0,
{
    if n >= 0 {
        assert(0 <= (2 * n + d) / (2 * d) <= n + 1) by (nonlinear_arith)
            requires
                n >= 0,
                d >= 1,
        ;
    } else {
        assert(0 <= (2 * (-n) + d) / (2 * d) <= -n + 1) by (nonlinear_arith)
            requires
                -n >= 0,
                d >= 1,
        ;
    }
}

} // verus!
