use vstd::prelude::*;
use crate::trunc_div;
use crate::div_trunc;

verus! {

/// Product of two Q30 values, floored back to Q30 scale.
pub open spec fn q30_mul_spec(a: int, b: int) -> int {
    (a * b) / 0x40000000
}

fn q30_mul(a: u64, b: u64) -> (r: u64)
    requires
        a <= 0x80000000,
        b <= 0x80000000,
    ensures
        r == q30_mul_spec(a as int, b as int),
        r <= 0x100000000,
        b <= 0x40000000 ==> r <= a,
        a <= 0x40000000 ==> r <= b,
{
    proof {
        assert((a as int) * (b as int) <= 0x80000000 * 0x80000000 && 0 <= (a as int) * (b as int)
            && (b <= 0x40000000 ==> (a as int) * (b as int) / 0x40000000 <= a) && (a <= 0x40000000
            ==> (a as int) * (b as int) / 0x40000000 <= b) && (a as int) * (b as int) / 0x40000000
            <= 0x100000000) by (nonlinear_arith)
            requires
                0 <= a <= 0x80000000,
                0 <= b <= 0x80000000,
        ;
    }
    (a * b) / 0x40000000
}

/// Sine of `x` (Q30 radians, in [0, pi/4]) by its Taylor polynomial of
/// order 7, in Q30 scale.
pub open spec fn sin_core_spec(x: int) -> int {
    let x2 = q30_mul_spec(x, x);
    let x3 = q30_mul_spec(x2, x);
    let x5 = q30_mul_spec(x3, x2);
    let x7 = q30_mul_spec(x5, x2);
    x - x3 / 6 + x5 / 120 - x7 / 5040
}

/// Cosine of `x` (Q30 radians, in [0, pi/4]) by its Taylor polynomial of
/// order 6, in Q30 scale.
pub open spec fn cos_core_spec(x: int) -> int {
    let x2 = q30_mul_spec(x, x);
    let x4 = q30_mul_spec(x2, x2);
    let x6 = q30_mul_spec(x4, x2);
    0x40000000 - x2 / 2 + x4 / 24 - x6 / 720
}

fn sin_core(x: u64) -> (r: i64)
    requires
        x <= 843314858,
    ensures
        r == sin_core_spec(x as int),
        -0x100000000 <= r <= 0x100000000,
{
    let x2 = q30_mul(x, x);
    let x3 = q30_mul(x2, x);
    let x5 = q30_mul(x3, x2);
    let x7 = q30_mul(x5, x2);
    let t3 = (x3 / 6) as i64;
    let t5 = (x5 / 120) as i64;
    let t7 = (x7 / 5040) as i64;
    (x as i64) - t3 + t5 - t7
}

fn cos_core(x: u64) -> (r: i64)
    requires
        x <= 843314858,
    ensures
        r == cos_core_spec(x as int),
        -0x100000000 <= r <= 0x100000000,
{
    let x2 = q30_mul(x, x);
    let x4 = q30_mul(x2, x2);
    let x6 = q30_mul(x4, x2);
    let t2 = (x2 / 2) as i64;
    let t4 = (x4 / 24) as i64;
    let t6 = (x6 / 720) as i64;
    0x40000000i64 - t2 + t4 - t6
}

/// An angle in thousandths of a degree, in [0, 45000], as Q30 radians.
pub open spec fn rad_q30_spec(a: int) -> int {
    (a * 3373259426) / 180000
}

fn rad_q30(a: u64) -> (r: u64)
    requires
        a <= 45000,
    ensures
        r == rad_q30_spec(a as int),
        r <= 843314857,
{
    proof {
        assert(0 <= (a as int) * 3373259426 / 180000 <= 843314857) by (nonlinear_arith)
            requires
                0 <= a <= 45000,
        ;
    }
    (a * 3373259426) / 180000
}

/// Cosine and sine of an angle in [0, 90000] thousandths of a degree, in
/// Q30 scale, folding angles above 45 degrees onto the complementary angle.
pub open spec fn sincos_quad_spec(a: int) -> (int, int) {
    if a > 45000 {
        let x = rad_q30_spec(90000 - a);
        (sin_core_spec(x), cos_core_spec(x))
    } else {
        let x = rad_q30_spec(a);
        (cos_core_spec(x), sin_core_spec(x))
    }
}

/// Cosine and sine of an angle in [0, 180000] thousandths of a degree, Q30.
pub open spec fn sincos_abs_spec(a: int) -> (int, int) {
    if a > 90000 {
        let cs = sincos_quad_spec(180000 - a);
        (-cs.0, cs.1)
    } else {
        sincos_quad_spec(a)
    }
}

/// Cosine and sine of an angle in [-180000, 180000] thousandths of a
/// degree, Q30 scale.
pub open spec fn sincos_q30_spec(a: int) -> (int, int) {
    if a < 0 {
        let cs = sincos_abs_spec(-a);
        (cs.0, -cs.1)
    } else {
        sincos_abs_spec(a)
    }
}

/// Cosine of an angle in thousandths of a degree, in Q16 scale.
pub open spec fn cos_q16_spec(a: int) -> int {
    trunc_div(sincos_q30_spec(a).0, 16384)
}

/// Sine of an angle in thousandths of a degree, in Q16 scale.
pub open spec fn sin_q16_spec(a: int) -> int {
    trunc_div(sincos_q30_spec(a).1, 16384)
}

fn sincos_quad(a: u64) -> (r: (i64, i64))
    requires
        a <= 90000,
    ensures
        r.0 == sincos_quad_spec(a as int).0,
        r.1 == sincos_quad_spec(a as int).1,
        -0x100000000 <= r.0 <= 0x100000000,
        -0x100000000 <= r.1 <= 0x100000000,
{
    if a > 45000 {
        let x = rad_q30(90000 - a);
        (sin_core(x), cos_core(x))
    } else {
        let x = rad_q30(a);
        (cos_core(x), sin_core(x))
    }
}

/// Cosine and sine of an angle given in thousandths of a degree, in Q16
/// fixed point (65536 stands for one).
pub fn sin_cos_q16(a: i64) -> (r: (i64, i64))
    requires
        -180000 <= a <= 180000,
    ensures
        r.0 == cos_q16_spec(a as int),
        r.1 == sin_q16_spec(a as int),
        -262144 <= r.0 <= 262144,
        -262144 <= r.1 <= 262144,
{
    let mag: u64 = if a < 0 {
        (-a) as u64
    } else {
        a as u64
    };
    let cs: (i64, i64) = if mag > 90000 {
        let q = sincos_quad(180000 - mag);
        (-q.0, q.1)
    } else {
        sincos_quad(mag)
    };
    let s_signed: i64 = if a < 0 {
        -cs.1
    } else {
        cs.1
    };
    let c = div_trunc(cs.0, 16384);
    let s = div_trunc(s_signed, 16384);
    proof {
        assert(-262144 <= trunc_div(cs.0 as int, 16384) <= 262144) by (nonlinear_arith)
            requires
                -0x100000000 <= cs.0 <= 0x100000000,
        ;
        assert(-262144 <= trunc_div(s_signed as int, 16384) <= 262144) by (nonlinear_arith)
            requires
                -0x100000000 <= s_signed <= 0x100000000,
        ;
    }
    (c, s)
}

/// Arctangent of `z` (Q30, in [0, 1]) by a degree-9 minimax polynomial,
/// in Q30 radians.
pub open spec fn atan_core_spec(z: int) -> int {
    let z2 = q30_mul_spec(z, z);
    let z4 = q30_mul_spec(z2, z2);
    let z6 = q30_mul_spec(z4, z2);
    let z8 = q30_mul_spec(z4, z4);
    let poly = 1073598059 + q30_mul_spec(193424266, z4) + q30_mul_spec(22371789, z8) - q30_mul_spec(
        354657562,
        z2,
    ) - q30_mul_spec(91409422, z6);
    q30_mul_spec(z, poly)
}

fn atan_core(z: u64) -> (r: u64)
    requires
        z <= 0x40000000,
    ensures
        r == atan_core_spec(z as int),
        r <= 1289394114,
{
    let z2 = q30_mul(z, z);
    let z4 = q30_mul(z2, z2);
    let z6 = q30_mul(z4, z2);
    let z8 = q30_mul(z4, z4);
    let t5 = q30_mul(193424266, z4);
    let t9 = q30_mul(22371789, z8);
    let t3 = q30_mul(354657562, z2);
    let t7 = q30_mul(91409422, z6);
    let poly = 1073598059 + t5 + t9 - (t3 + t7);
    q30_mul(z, poly)
}

/// Q30 radians converted to thousandths of a degree, floored.
pub open spec fn q30_to_millideg_spec(r: int) -> int {
    (r * 180000) / 3373259426
}

/// Keep a target angle strictly inside the open interval from 0 to 90
/// degrees, in thousandths of a degree.
pub open spec fn clamp_angle_spec(m: int) -> int {
    if m < 1 {
        1
    } else if m > 89999 {
        89999
    } else {
        m
    }
}

/// Arctangent of `vertical / horizontal` in thousandths of a degree, for a
/// positive ratio; always strictly between 0 and 90 degrees.
pub open spec fn atan_ratio_millideg_spec(vertical: int, horizontal: int) -> int {
    if vertical <= horizontal {
        clamp_angle_spec(
            q30_to_millideg_spec(atan_core_spec((vertical * 0x40000000) / horizontal)),
        )
    } else {
        clamp_angle_spec(
            90000 - q30_to_millideg_spec(atan_core_spec((horizontal * 0x40000000) / vertical)),
        )
    }
}

fn q30_to_millideg(r: u64) -> (m: u64)
    requires
        r <= 1289394114,
    ensures
        m == q30_to_millideg_spec(r as int),
        m <= 68804,
{
    proof {
        assert(0 <= (r as int) * 180000 / 3373259426 <= 68804) by (nonlinear_arith)
            requires
                0 <= r <= 1289394114,
        ;
    }
    (r * 180000) / 3373259426
}

/// The angle whose tangent is `vertical / horizontal`, in thousandths of a
/// degree, for a positive target ratio.
pub fn atan_ratio_millideg(vertical: u32, horizontal: u32) -> (r: i64)
    requires
        vertical >= 1,
        horizontal >= 1,
    ensures
        r == atan_ratio_millideg_spec(vertical as int, horizontal as int),
        1 <= r <= 89999,
{
    if vertical <= horizontal {
        proof {
            assert(0 <= (vertical as int) * 0x40000000 / (horizontal as int) <= 0x40000000)
                by (nonlinear_arith)
                requires
                    1 <= vertical <= horizontal,
            ;
        }
        let z = ((vertical as u64) * 0x40000000) / (horizontal as u64);
        let m = q30_to_millideg(atan_core(z));
        if m < 1 {
            1
        } else if m > 89999 {
            89999
        } else {
            m as i64
        }
    } else {
        proof {
            assert(0 <= (horizontal as int) * 0x40000000 / (vertical as int) <= 0x40000000)
                by (nonlinear_arith)
                requires
                    1 <= horizontal <= vertical,
            ;
        }
        let z = ((horizontal as u64) * 0x40000000) / (vertical as u64);
        let m = q30_to_millideg(atan_core(z));
        let d = 90000 - (m as i64);
        if d < 1 {
            1
        } else if d > 89999 {
            89999
        } else {
            d
        }
    }
}

} // verus!
