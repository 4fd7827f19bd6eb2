//! Shared numeric primitives: linear interpolation of fixed-point
//! coordinates over a time interval, and angular difference with
//! field-of-view membership.  Angles are in millionths of a degree.

use vstd::prelude::*;
use crate::fixed::floor_div;
use crate::SCALED_LIMIT;

verus! {

/// Linear interpolation of `v0` at `t0` and `v1` at `t1`, evaluated at `t`,
/// with the fraction applied in integer arithmetic rounded toward zero.
pub open spec fn lerp(v0: int, v1: int, t0: int, t: int, t1: int) -> int {
    let num = (t - t0) * (v1 - v0);
    if num >= 0 {
        v0 + num / (t1 - t0)
    } else {
        v0 - (-num) / (t1 - t0)
    }
}

/// At the left end of the interval, interpolation returns the left value
/// unchanged.
pub proof fn lemma_lerp_at_left(v0: int, v1: int, t0: int, t1: int)
    requires
        t0 < t1,
    ensures
        lerp(v0, v1, t0, t0, t1) == v0,
{
    assert((t0 - t0) * (v1 - v0) == 0);
}

/// Interpolate between two fixed-point values over a time interval.
pub fn lerp_e6(v0: i64, v1: i64, t0: i64, t: i64, t1: i64) -> (r: i64)
    requires
        t0 <= t < t1,
        -SCALED_LIMIT < v0 < SCALED_LIMIT,
        -SCALED_LIMIT < v1 < SCALED_LIMIT,
    ensures
        r == lerp(v0 as int, v1 as int, t0 as int, t as int, t1 as int),
        -SCALED_LIMIT < r < SCALED_LIMIT,
{
    let ghost a = t as int - t0 as int;
    let ghost b = v1 as int - v0 as int;
    let ghost dtg = t1 as int - t0 as int;
    proof {
        assert(0 <= a < dtg);
        assert(a <= 18_446_744_073_709_551_615);
        assert(-2_000_000_000_000_000_000 <= b <= 2_000_000_000_000_000_000);
        assert(-40_000_000_000_000_000_000_000_000_000_000_000_000 <= a * b
            <= 40_000_000_000_000_000_000_000_000_000_000_000_000) by (nonlinear_arith)
            requires
                0 <= a <= 18_446_744_073_709_551_615,
                -2_000_000_000_000_000_000 <= b <= 2_000_000_000_000_000_000,
        ;
    }
    let dt: i128 = (t1 as i128) - (t0 as i128);
    let num: i128 = ((t as i128) - (t0 as i128)) * ((v1 as i128) - (v0 as i128));
    if num >= 0 {
        proof {
            vstd::arithmetic::div_mod::lemma_fundamental_div_mod(num as int, dtg);
            vstd::arithmetic::div_mod::lemma_mod_bound(num as int, dtg);
        }
        let ghost q = (num as int) / dtg;
        let ghost m = (num as int) % dtg;
        proof {
            assert(q >= 0) by (nonlinear_arith)
                requires
                    dtg >= 1,
                    num as int >= 0,
                    num as int == dtg * q + m,
                    0 <= m < dtg,
            ;
            if b >= 0 {
                assert(num as int <= dtg * b) by (nonlinear_arith)
                    requires
                        0 <= a < dtg,
                        0 <= b,
                        num as int == a * b,
                ;
                assert(q <= b) by (nonlinear_arith)
                    requires
                        dtg >= 1,
                        num as int == dtg * q + m,
                        0 <= m,
                        num as int <= dtg * b,
                        q >= 0,
                ;
            } else {
                assert(num as int <= 0) by (nonlinear_arith)
                    requires
                        0 <= a,
                        b < 0,
                        num as int == a * b,
                ;
                assert(q == 0) by (nonlinear_arith)
                    requires
                        dtg >= 1,
                        num as int == 0,
                        num as int == dtg * q + m,
                        0 <= m < dtg,
                        q >= 0,
                ;
            }
        }
        let qe = match num.checked_div_euclid(dt) {
            Some(qe) => qe,
            None => vstd::pervasive::unreached(),
        };
        v0 + (qe as i64)
    } else {
        let neg: i128 = -num;
        proof {
            assert(b < 0 && a > 0) by (nonlinear_arith)
                requires
                    0 <= a,
                    num as int == a * b,
                    (num as int) < 0,
            ;
            assert(neg as int == a * (-b)) by (nonlinear_arith)
                requires
                    neg as int == -(a * b),
            ;
            vstd::arithmetic::div_mod::lemma_fundamental_div_mod(neg as int, dtg);
            vstd::arithmetic::div_mod::lemma_mod_bound(neg as int, dtg);
        }
        let ghost q = (neg as int) / dtg;
        let ghost m = (neg as int) % dtg;
        proof {
            assert(q >= 0) by (nonlinear_arith)
                requires
                    dtg >= 1,
                    neg as int >= 0,
                    neg as int == dtg * q + m,
                    0 <= m < dtg,
            ;
            assert(neg as int <= dtg * (-b)) by (nonlinear_arith)
                requires
                    0 <= a < dtg,
                    b < 0,
                    neg as int == a * (-b),
            ;
            assert(q <= -b) by (nonlinear_arith)
                requires
                    dtg >= 1,
                    neg as int == dtg * q + m,
                    0 <= m,
                    neg as int <= dtg * (-b),
                    q >= 0,
            ;
        }
        let qe = match neg.checked_div_euclid(dt) {
            Some(qe) => qe,
            None => vstd::pervasive::unreached(),
        };
        v0 - (qe as i64)
    }
}

/// Absolute angular difference between two angles, normalized to the range
/// from zero to half a turn.
pub open spec fn spec_angle_diff(a: int, b: int) -> int {
    let d = (if a >= b { a - b } else { b - a }) % 360_000_000;
    if d > 180_000_000 {
        360_000_000 - d
    } else {
        d
    }
}

/// Absolute angular difference, normalized to at most half a turn.
pub fn angle_diff_e6(a: i64, b: i64) -> (r: i64)
    ensures
        r == spec_angle_diff(a as int, b as int),
        0 <= r <= 180_000_000,
{
    let d0: i128 = if a >= b {
        (a as i128) - (b as i128)
    } else {
        (b as i128) - (a as i128)
    };
    proof {
        vstd::arithmetic::div_mod::lemma_mod_bound(d0 as int, 360_000_000);
    }
    let m = match d0.checked_rem_euclid(360_000_000) {
        Some(m) => m,
        None => vstd::pervasive::unreached(),
    };
    let m64 = m as i64;
    if m64 > 180_000_000 {
        360_000_000 - m64
    } else {
        m64
    }
}

/// A target bearing lies in the field of view when its angular difference
/// from the device heading is within half the view's width.
pub open spec fn spec_in_fov(heading: int, bearing: int, fov: int) -> bool {
    spec_angle_diff(heading, bearing) <= fov / 2
}

/// Field-of-view membership for a heading, a target bearing, and a view
/// width, all in millionths of a degree.
pub fn is_in_fov(heading_e6: i64, bearing_e6: i64, fov_e6: i64) -> (r: bool)
    requires
        fov_e6 >= 0,
    ensures
        r == spec_in_fov(heading_e6 as int, bearing_e6 as int, fov_e6 as int),
{
    let half = floor_div(fov_e6, 2);
    angle_diff_e6(heading_e6, bearing_e6) <= half
}

} // verus!
