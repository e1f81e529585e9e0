use vstd::prelude::*;
use crate::trunc_div;
use crate::trig::atan_ratio_millideg;
use crate::trig::atan_ratio_millideg_spec;
use crate::trig::cos_q16_spec;
use crate::trig::sin_cos_q16;
use crate::trig::sin_q16_spec;

verus! {

/// A determinant in Q32 scale below this magnitude counts as singular: the
/// detected diagonal directions nearly coincide and the solve falls back to
/// the identity map.
pub const DET_MIN_Q32: i128 = 42949673;

/// Truncated (toward-zero) division for a denominator of either sign.
pub open spec fn trunc_div_signed(num: int, den: int) -> int {
    if den > 0 {
        trunc_div(num, den)
    } else {
        trunc_div(-num, -den)
    }
}

fn div_trunc_i128(num: i128, den: i128) -> (r: i128)
    requires
        den > 0,
        num > i128::MIN,
    ensures
        r == trunc_div(num as int, den as int),
{
    if num >= 0 {
        let q: u128 = (num as u128) / (den as u128);
        q as i128
    } else {
        let m: u128 = ((-num) as u128) / (den as u128);
        proof {
            assert(((-num) as u128) / (den as u128) <= (-num) as u128) by (nonlinear_arith)
                requires
                    den > 0,
                    num < 0,
                    num > i128::MIN,
            ;
        }
        -(m as i128)
    }
}

fn div_signed_i128(num: i128, den: i128) -> (r: i128)
    requires
        den != 0,
        num > i128::MIN,
        den > i128::MIN,
    ensures
        r == trunc_div_signed(num as int, den as int),
{
    if den > 0 {
        div_trunc_i128(num, den)
    } else {
        proof {
            assert(-num > i128::MIN);
        }
        div_trunc_i128(-num, -den)
    }
}

proof fn lemma_div_magnitude(num: int, den: int, bound: int, den_min: int)
    requires
        -(bound * den_min) <= num <= bound * den_min,
        den >= den_min || den <= -den_min,
        den_min >= 1,
        bound >= 0,
    ensures
        -bound <= trunc_div_signed(num, den) <= bound,
{
    assert(-bound <= trunc_div_signed(num, den) <= bound) by (nonlinear_arith)
        requires
            -(bound * den_min) <= num <= bound * den_min,
            den >= den_min || den <= -den_min,
            den_min >= 1,
            bound >= 0,
            trunc_div_signed(num, den) == (if den > 0 {
                (if num >= 0 {
                    num / den
                } else {
                    -((-num) / den)
                })
            } else {
                (if -num >= 0 {
                    (-num) / (-den)
                } else {
                    -((num) / (-den))
                })
            }),
    ;
}

proof fn lemma_mul_bounds(a: int, b: int, ba: int, bb: int)
    requires
        -ba <= a <= ba,
        -bb <= b <= bb,
        0 <= ba,
        0 <= bb,
    ensures
        -(ba * bb) <= a * b <= ba * bb,
{
    assert(-(ba * bb) <= a * b <= ba * bb) by (nonlinear_arith)
        requires
            -ba <= a <= ba,
            -bb <= b <= bb,
            0 <= ba,
            0 <= bb,
    ;
}

/// A target isometric projection ratio: `horizontal` pixels across for every
/// `vertical` pixel down; both counts are positive.
#[derive(Clone, Copy, PartialEq, Eq, Structural, Debug)]
pub struct IsometricRatio {
    pub horizontal: u32,
    pub vertical: u32,
}

impl IsometricRatio {
    /// Both sides of the ratio are positive.
    pub open spec fn wf(&self) -> bool {
        self.horizontal >= 1 && self.vertical >= 1
    }

    pub fn new(horizontal: u32, vertical: u32) -> (r: IsometricRatio)
        requires
            horizontal >= 1,
            vertical >= 1,
        ensures
            r.horizontal == horizontal,
            r.vertical == vertical,
            r.wf(),
    {
        IsometricRatio { horizontal, vertical }
    }

    /// The diagonal angle this ratio asks for: the arctangent of
    /// vertical over horizontal, in thousandths of a degree.
    pub fn target_angle_millidegrees(&self) -> (r: i64)
        requires
            self.wf(),
        ensures
            r == atan_ratio_millideg_spec(self.vertical as int, self.horizontal as int),
            1 <= r <= 89999,
    {
        atan_ratio_millideg(self.vertical, self.horizontal)
    }
}

impl Default for IsometricRatio {
    /// The standard two-to-one isometric ratio.
    fn default() -> (r: IsometricRatio)
        ensures
            r.horizontal == 2,
            r.vertical == 1,
            r.wf(),
    {
        IsometricRatio { horizontal: 2, vertical: 1 }
    }
}

/// The two diagonal slope angles detected in a sprite, in thousandths of a
/// degree, each with a confidence in thousandths (0 through 1000).
#[derive(Clone, Copy, PartialEq, Eq, Structural, Debug)]
pub struct DetectedAngles {
    pub left_angle: i64,
    pub right_angle: i64,
    pub left_confidence: u32,
    pub right_confidence: u32,
}

impl DetectedAngles {
    /// Angles stay within a half turn; confidences within one.
    pub open spec fn wf(&self) -> bool {
        &&& -180000 <= self.left_angle <= 180000
        &&& -180000 <= self.right_angle <= 180000
        &&& self.left_confidence <= 1000
        &&& self.right_confidence <= 1000
    }

    pub fn new(left_angle: i64, right_angle: i64, left_confidence: u32, right_confidence: u32) -> (r:
        DetectedAngles)
        requires
            -180000 <= left_angle <= 180000,
            -180000 <= right_angle <= 180000,
            left_confidence <= 1000,
            right_confidence <= 1000,
        ensures
            r == (DetectedAngles { left_angle, right_angle, left_confidence, right_confidence }),
            r.wf(),
    {
        DetectedAngles { left_angle, right_angle, left_confidence, right_confidence }
    }

    /// Both detected angles lie within the tolerance of the target diagonal
    /// angle: the left one by magnitude, the right one directly.
    pub open spec fn close_to_target_spec(&self, target: IsometricRatio, tolerance_millideg: int) -> bool {
        let ta = atan_ratio_millideg_spec(target.vertical as int, target.horizontal as int);
        let la = if self.left_angle >= 0 {
            self.left_angle as int
        } else {
            -self.left_angle as int
        };
        let ld = if la - ta >= 0 {
            la - ta
        } else {
            ta - la
        };
        let rd = if self.right_angle - ta >= 0 {
            self.right_angle - ta
        } else {
            ta - self.right_angle
        };
        ld < tolerance_millideg && rd < tolerance_millideg
    }

    pub fn is_close_to_target(&self, target: &IsometricRatio, tolerance_millideg: i64) -> (r: bool)
        requires
            self.wf(),
            target.wf(),
            0 <= tolerance_millideg <= 1000000,
        ensures
            r == self.close_to_target_spec(*target, tolerance_millideg as int),
    {
        let ta = target.target_angle_millidegrees();
        let la: i64 = if self.left_angle >= 0 {
            self.left_angle
        } else {
            -self.left_angle
        };
        let ld: i64 = if la - ta >= 0 {
            la - ta
        } else {
            ta - la
        };
        let rd: i64 = if self.right_angle - ta >= 0 {
            self.right_angle - ta
        } else {
            ta - self.right_angle
        };
        ld < tolerance_millideg && rd < tolerance_millideg
    }
}

/// An augmented two-dimensional linear map plus translation, in Q16 fixed
/// point (65536 stands for one); the implicit last row is the identity row.
#[derive(Clone, Copy, PartialEq, Eq, Structural, Debug)]
pub struct AffineTransform {
    pub m00: i128,
    pub m01: i128,
    pub m02: i128,
    pub m10: i128,
    pub m11: i128,
    pub m12: i128,
}

impl AffineTransform {
    /// Entry magnitudes stay small enough for every downstream product to
    /// fit comfortably in 128 bits.
    pub open spec fn wf(&self) -> bool {
        &&& -0x4000000000 <= self.m00 <= 0x4000000000
        &&& -0x4000000000 <= self.m01 <= 0x4000000000
        &&& -0x4000000000 <= self.m10 <= 0x4000000000
        &&& -0x4000000000 <= self.m11 <= 0x4000000000
        &&& -0x400000000000000000 <= self.m02 <= 0x400000000000000000
        &&& -0x400000000000000000 <= self.m12 <= 0x400000000000000000
    }

    /// The identity map.
    pub open spec fn identity_spec() -> AffineTransform {
        AffineTransform { m00: 0x10000, m01: 0, m02: 0, m10: 0, m11: 0x10000, m12: 0 }
    }

    pub fn identity() -> (r: AffineTransform)
        ensures
            r == AffineTransform::identity_spec(),
            r.wf(),
    {
        AffineTransform { m00: 0x10000, m01: 0, m02: 0, m10: 0, m11: 0x10000, m12: 0 }
    }
}

/// The x coordinate of a point mapped through an affine transform; the point
/// and the result are in Q16 scale.
pub open spec fn transform_point_x_spec(m: AffineTransform, x: int, y: int) -> int {
    trunc_div(m.m00 * x + m.m01 * y, 65536) + m.m02
}

/// The y coordinate of a point mapped through an affine transform.
pub open spec fn transform_point_y_spec(m: AffineTransform, x: int, y: int) -> int {
    trunc_div(m.m10 * x + m.m11 * y, 65536) + m.m12
}

/// Map a point (Q16 coordinates) through the affine transform.
pub fn transform_point(m: &AffineTransform, x: i128, y: i128) -> (r: (i128, i128))
    requires
        m.wf(),
        -0x1000000000000 <= x <= 0x1000000000000,
        -0x1000000000000 <= y <= 0x1000000000000,
    ensures
        r.0 == transform_point_x_spec(*m, x as int, y as int),
        r.1 == transform_point_y_spec(*m, x as int, y as int),
        -0x1000000000000000000 <= r.0 <= 0x1000000000000000000,
        -0x1000000000000000000 <= r.1 <= 0x1000000000000000000,
{
    proof {
        lemma_mul_bounds(m.m00 as int, x as int, 0x4000000000, 0x1000000000000);
        lemma_mul_bounds(m.m01 as int, y as int, 0x4000000000, 0x1000000000000);
        lemma_mul_bounds(m.m10 as int, x as int, 0x4000000000, 0x1000000000000);
        lemma_mul_bounds(m.m11 as int, y as int, 0x4000000000, 0x1000000000000);
    }
    let nx = m.m00 * x + m.m01 * y;
    let ny = m.m10 * x + m.m11 * y;
    proof {
        lemma_div_magnitude(nx as int, 65536, 0x800000000000000000, 65536);
        lemma_div_magnitude(ny as int, 65536, 0x800000000000000000, 65536);
    }
    let rx = div_trunc_i128_pub(nx, 65536) + m.m02;
    let ry = div_trunc_i128_pub(ny, 65536) + m.m12;
    (rx, ry)
}

fn div_trunc_i128_pub(num: i128, den: i128) -> (r: i128)
    requires
        den > 0,
        num > i128::MIN,
    ensures
        r == trunc_div(num as int, den as int),
        r == trunc_div_signed(num as int, den as int),
{
    div_trunc_i128(num, den)
}

/// The forward correction transform for the given detected angles, target
/// ratio and pivot, as a mathematical value mirroring the fixed-point solve.
pub open spec fn correction_matrix_spec(
    left: int,
    right: int,
    vertical: int,
    horizontal: int,
    cx: int,
    cy: int,
) -> AffineTransform {
    let cl = cos_q16_spec(left);
    let sl = sin_q16_spec(left);
    let cr = cos_q16_spec(right);
    let sr = sin_q16_spec(right);
    let ta = atan_ratio_millideg_spec(vertical, horizontal);
    let ct = cos_q16_spec(ta);
    let st = sin_q16_spec(ta);
    let det = cl * sr - cr * sl;
    let a = if -42949673 < det < 42949673 {
        0x10000
    } else {
        trunc_div_signed((ct * sr + ct * (-sl)) * 65536, det)
    };
    let b = if -42949673 < det < 42949673 {
        0
    } else {
        trunc_div_signed((ct * (-cr) + ct * cl) * 65536, det)
    };
    let c = if -42949673 < det < 42949673 {
        0
    } else {
        trunc_div_signed(((-st) * sr + st * (-sl)) * 65536, det)
    };
    let d = if -42949673 < det < 42949673 {
        0x10000
    } else {
        trunc_div_signed(((-st) * (-cr) + st * cl) * 65536, det)
    };
    let tx = cx - trunc_div(a * cx + b * cy, 65536);
    let ty = cy - trunc_div(c * cx + d * cy, 65536);
    AffineTransform {
        m00: a as i128,
        m01: b as i128,
        m02: tx as i128,
        m10: c as i128,
        m11: d as i128,
        m12: ty as i128,
    }
}

/// Solve for the affine map that carries the detected diagonal basis onto
/// the target diagonal basis, pivoting on the sprite center (Q16
/// coordinates). A singular detected basis falls back to the identity map.
pub fn compute_correction_matrix(
    detected: &DetectedAngles,
    target: &IsometricRatio,
    center_x_q16: i64,
    center_y_q16: i64,
) -> (m: AffineTransform)
    requires
        detected.wf(),
        target.wf(),
        -0x100000000 <= center_x_q16 <= 0x100000000,
        -0x100000000 <= center_y_q16 <= 0x100000000,
    ensures
        m == correction_matrix_spec(
            detected.left_angle as int,
            detected.right_angle as int,
            target.vertical as int,
            target.horizontal as int,
            center_x_q16 as int,
            center_y_q16 as int,
        ),
        m.wf(),
        -0x10000000 <= m.m00 <= 0x10000000,
        -0x10000000 <= m.m01 <= 0x10000000,
        -0x10000000 <= m.m10 <= 0x10000000,
        -0x10000000 <= m.m11 <= 0x10000000,
        -0x400000000000 <= m.m02 <= 0x400000000000,
        -0x400000000000 <= m.m12 <= 0x400000000000,
{
    let (cl64, sl64) = sin_cos_q16(detected.left_angle);
    let (cr64, sr64) = sin_cos_q16(detected.right_angle);
    let ta = target.target_angle_millidegrees();
    let (ct64, st64) = sin_cos_q16(ta);
    let cl = cl64 as i128;
    let sl = sl64 as i128;
    let cr = cr64 as i128;
    let sr = sr64 as i128;
    let ct = ct64 as i128;
    let st = st64 as i128;

    proof {
        lemma_mul_bounds(cl as int, sr as int, 262144, 262144);
        lemma_mul_bounds(cr as int, sl as int, 262144, 262144);
        lemma_mul_bounds(ct as int, sr as int, 262144, 262144);
        lemma_mul_bounds(ct as int, -sl as int, 262144, 262144);
        lemma_mul_bounds(ct as int, -cr as int, 262144, 262144);
        lemma_mul_bounds(ct as int, cl as int, 262144, 262144);
        lemma_mul_bounds(-st as int, sr as int, 262144, 262144);
        lemma_mul_bounds(st as int, -sl as int, 262144, 262144);
        lemma_mul_bounds(-st as int, -cr as int, 262144, 262144);
        lemma_mul_bounds(st as int, cl as int, 262144, 262144);
    }
    let det = cl * sr - cr * sl;

    let (a, b, c, d): (i128, i128, i128, i128) = if -DET_MIN_Q32 < det && det < DET_MIN_Q32 {
        (0x10000, 0, 0, 0x10000)
    } else {
        let na = (ct * sr + ct * (-sl)) * 65536;
        let nb = (ct * (-cr) + ct * cl) * 65536;
        let nc = ((-st) * sr + st * (-sl)) * 65536;
        let nd = ((-st) * (-cr) + st * cl) * 65536;
        proof {
            lemma_div_magnitude(na as int, det as int, 0x10000000, 42949673);
            lemma_div_magnitude(nb as int, det as int, 0x10000000, 42949673);
            lemma_div_magnitude(nc as int, det as int, 0x10000000, 42949673);
            lemma_div_magnitude(nd as int, det as int, 0x10000000, 42949673);
        }
        let a = div_signed_i128(na, det);
        let b = div_signed_i128(nb, det);
        let c = div_signed_i128(nc, det);
        let d = div_signed_i128(nd, det);
        (a, b, c, d)
    };

    let cx = center_x_q16 as i128;
    let cy = center_y_q16 as i128;
    proof {
        lemma_mul_bounds(a as int, cx as int, 0x10000000, 0x100000000);
        lemma_mul_bounds(b as int, cy as int, 0x10000000, 0x100000000);
        lemma_mul_bounds(c as int, cx as int, 0x10000000, 0x100000000);
        lemma_mul_bounds(d as int, cy as int, 0x10000000, 0x100000000);
        lemma_div_magnitude((a * cx + b * cy) as int, 65536, 0x200000000000, 65536);
        lemma_div_magnitude((c * cx + d * cy) as int, 65536, 0x200000000000, 65536);
    }
    let tx = cx - div_trunc_i128_pub(a * cx + b * cy, 65536);
    let ty = cy - div_trunc_i128_pub(c * cx + d * cy, 65536);

    AffineTransform { m00: a, m01: b, m02: tx, m10: c, m11: d, m12: ty }
}

/// The inverse of an affine transform, as a mathematical value mirroring the
/// fixed-point computation; `None` when the linear part is singular (its
/// determinant magnitude in Q32 scale falls below the singularity floor).
pub open spec fn invert_spec(m: AffineTransform) -> Option<AffineTransform> {
    let det = m.m00 * m.m11 - m.m01 * m.m10;
    if -42949673 < det < 42949673 {
        None
    } else {
        let i00 = trunc_div_signed(m.m11 * 0x100000000, det);
        let i01 = trunc_div_signed(-m.m01 * 0x100000000, det);
        let i10 = trunc_div_signed(-m.m10 * 0x100000000, det);
        let i11 = trunc_div_signed(m.m00 * 0x100000000, det);
        let tx = -trunc_div(i00 * m.m02 + i01 * m.m12, 65536);
        let ty = -trunc_div(i10 * m.m02 + i11 * m.m12, 65536);
        Some(
            AffineTransform {
                m00: i00 as i128,
                m01: i01 as i128,
                m02: tx as i128,
                m10: i10 as i128,
                m11: i11 as i128,
                m12: ty as i128,
            },
        )
    }
}

/// Invert an affine transform whose entries came from the correction solve.
pub fn try_invert(m: &AffineTransform) -> (r: Option<AffineTransform>)
    requires
        -0x10000000 <= m.m00 <= 0x10000000,
        -0x10000000 <= m.m01 <= 0x10000000,
        -0x10000000 <= m.m10 <= 0x10000000,
        -0x10000000 <= m.m11 <= 0x10000000,
        -0x400000000000 <= m.m02 <= 0x400000000000,
        -0x400000000000 <= m.m12 <= 0x400000000000,
    ensures
        r == invert_spec(*m),
        r is Some ==> r.unwrap().wf(),
{
    proof {
        lemma_mul_bounds(m.m00 as int, m.m11 as int, 0x10000000, 0x10000000);
        lemma_mul_bounds(m.m01 as int, m.m10 as int, 0x10000000, 0x10000000);
        lemma_mul_bounds(m.m11 as int, 0x100000000, 0x10000000, 0x100000000);
        lemma_mul_bounds(-m.m01 as int, 0x100000000, 0x10000000, 0x100000000);
        lemma_mul_bounds(-m.m10 as int, 0x100000000, 0x10000000, 0x100000000);
        lemma_mul_bounds(m.m00 as int, 0x100000000, 0x10000000, 0x100000000);
    }
    let det = m.m00 * m.m11 - m.m01 * m.m10;
    if -DET_MIN_Q32 < det && det < DET_MIN_Q32 {
        None
    } else {
        proof {
            lemma_div_magnitude(m.m11 * 0x100000000, det as int, 0x4000000000, 42949673);
            lemma_div_magnitude(-m.m01 * 0x100000000, det as int, 0x4000000000, 42949673);
            lemma_div_magnitude(-m.m10 * 0x100000000, det as int, 0x4000000000, 42949673);
            lemma_div_magnitude(m.m00 * 0x100000000, det as int, 0x4000000000, 42949673);
        }
        let i00 = div_signed_i128(m.m11 * 0x100000000, det);
        let i01 = div_signed_i128(-m.m01 * 0x100000000, det);
        let i10 = div_signed_i128(-m.m10 * 0x100000000, det);
        let i11 = div_signed_i128(m.m00 * 0x100000000, det);
        proof {
            lemma_mul_bounds(i00 as int, m.m02 as int, 0x4000000000, 0x400000000000);
            lemma_mul_bounds(i01 as int, m.m12 as int, 0x4000000000, 0x400000000000);
            lemma_mul_bounds(i10 as int, m.m02 as int, 0x4000000000, 0x400000000000);
            lemma_mul_bounds(i11 as int, m.m12 as int, 0x4000000000, 0x400000000000);
            lemma_div_magnitude((i00 * m.m02 + i01 * m.m12) as int, 65536, 0x400000000000000000, 65536);
            lemma_div_magnitude((i10 * m.m02 + i11 * m.m12) as int, 65536, 0x400000000000000000, 65536);
        }
        let tx = -div_trunc_i128_pub(i00 * m.m02 + i01 * m.m12, 65536);
        let ty = -div_trunc_i128_pub(i10 * m.m02 + i11 * m.m12, 65536);
        Some(AffineTransform { m00: i00, m01: i01, m02: tx, m10: i10, m11: i11, m12: ty })
    }
}

pub open spec fn min4(a: int, b: int, c: int, d: int) -> int {
    let m1 = if a <= b {
        a
    } else {
        b
    };
    let m2 = if c <= d {
        c
    } else {
        d
    };
    if m1 <= m2 {
        m1
    } else {
        m2
    }
}

pub open spec fn max4(a: int, b: int, c: int, d: int) -> int {
    let m1 = if a >= b {
        a
    } else {
        b
    };
    let m2 = if c >= d {
        c
    } else {
        d
    };
    if m1 >= m2 {
        m1
    } else {
        m2
    }
}

/// Width, height (whole pixels) and offset (Q16) of the axis-aligned box
/// that holds the images of the four source corners under the transform.
pub open spec fn output_bounds_spec(m: AffineTransform, w: int, h: int) -> (int, int, int, int) {
    let x0 = transform_point_x_spec(m, 0, 0);
    let y0 = transform_point_y_spec(m, 0, 0);
    let x1 = transform_point_x_spec(m, w * 65536, 0);
    let y1 = transform_point_y_spec(m, w * 65536, 0);
    let x2 = transform_point_x_spec(m, 0, h * 65536);
    let y2 = transform_point_y_spec(m, 0, h * 65536);
    let x3 = transform_point_x_spec(m, w * 65536, h * 65536);
    let y3 = transform_point_y_spec(m, w * 65536, h * 65536);
    let minx = min4(x0, x1, x2, x3);
    let maxx = max4(x0, x1, x2, x3);
    let miny = min4(y0, y1, y2, y3);
    let maxy = max4(y0, y1, y2, y3);
    ((maxx - minx + 65535) / 65536, (maxy - miny + 65535) / 65536, minx, miny)
}

/// Compute the ceiling extent and the minimum corner of the transformed
/// image of a `width` by `height` buffer.
pub fn compute_output_bounds(m: &AffineTransform, width: usize, height: usize) -> (r: (
    u64,
    u64,
    i128,
    i128,
))
    requires
        m.wf(),
        width <= 131072,
        height <= 131072,
    ensures
        r.0 == output_bounds_spec(*m, width as int, height as int).0,
        r.1 == output_bounds_spec(*m, width as int, height as int).1,
        r.2 == output_bounds_spec(*m, width as int, height as int).2,
        r.3 == output_bounds_spec(*m, width as int, height as int).3,
{
    let wq: i128 = (width as i128) * 65536;
    let hq: i128 = (height as i128) * 65536;
    let (x0, y0) = transform_point(m, 0, 0);
    let (x1, y1) = transform_point(m, wq, 0);
    let (x2, y2) = transform_point(m, 0, hq);
    let (x3, y3) = transform_point(m, wq, hq);
    let mut minx = x0;
    if x1 < minx {
        minx = x1;
    }
    if x2 < minx {
        minx = x2;
    }
    if x3 < minx {
        minx = x3;
    }
    let mut maxx = x0;
    if x1 > maxx {
        maxx = x1;
    }
    if x2 > maxx {
        maxx = x2;
    }
    if x3 > maxx {
        maxx = x3;
    }
    let mut miny = y0;
    if y1 < miny {
        miny = y1;
    }
    if y2 < miny {
        miny = y2;
    }
    if y3 < miny {
        miny = y3;
    }
    let mut maxy = y0;
    if y1 > maxy {
        maxy = y1;
    }
    if y2 > maxy {
        maxy = y2;
    }
    if y3 > maxy {
        maxy = y3;
    }
    let dw: u128 = ((maxx - minx + 65535) as u128) / 65536;
    let dh: u128 = ((maxy - miny + 65535) as u128) / 65536;
    (dw as u64, dh as u64, minx, miny)
}

} // verus!
