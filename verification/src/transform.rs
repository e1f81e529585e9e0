use vstd::prelude::*;
use crate::buffer::PixelBuffer;
use crate::buffer::lemma_pixel_index;
use crate::buffer::lemma_quad;
use crate::buffer::lemma_row_order;
use crate::trunc_div;
use crate::geometry::trunc_div_signed;

verus! {

/// A buffer of premultiplied-alpha samples held as exact integers with an
/// implicit denominator of 255: color channels carry `channel * alpha`, the
/// alpha channel carries `alpha * 255`, so every sample lies in [0, 65025].
pub struct PremulBuffer {
    pub width: usize,
    pub height: usize,
    pub data: Vec<u32>,
}

/// The premultiplied sample the conversion owes for channel `c` of the
/// pixel at `(x, y)`, in 255ths.
pub open spec fn premul_of(img: &PixelBuffer, x: int, y: int, c: int) -> int {
    if c < 3 {
        img.chan(x, y, c) * img.chan(x, y, 3)
    } else {
        img.chan(x, y, 3) * 255
    }
}

impl PremulBuffer {
    pub open spec fn wf(&self) -> bool {
        &&& self.data.len() == 4 * self.width * self.height
        &&& forall|i: int| 0 <= i < self.data.len() ==> self.data[i] <= 65025
    }

    /// Channel `c` of the sample at `(x, y)`, in 255ths.
    pub open spec fn at(&self, x: int, y: int, c: int) -> u32 {
        self.data[4 * (y * self.width + x) + c]
    }

    pub fn get(&self, x: usize, y: usize, c: usize) -> (r: u32)
        requires
            self.wf(),
            x < self.width,
            y < self.height,
            c < 4,
        ensures
            r == self.at(x as int, y as int, c as int),
            r <= 65025,
    {
        proof {
            lemma_pixel_index(self.width as int, self.height as int, x as int, y as int);
        }
        self.data[4 * (y * self.width + x) + c]
    }
}

/// Convert a buffer to premultiplied-alpha samples: color channels scaled
/// by the pixel's alpha, held exactly as integers in 255ths.
pub fn premultiply_alpha(img: &PixelBuffer) -> (r: PremulBuffer)
    requires
        img.wf(),
    ensures
        r.wf(),
        r.width == img.width,
        r.height == img.height,
        forall|x: int, y: int, c: int|
            0 <= x < img.width && 0 <= y < img.height && 0 <= c < 4 ==> r.at(x, y, c) == premul_of(
                img,
                x,
                y,
                c,
            ),
{
    let w = img.width;
    let h = img.height;
    proof {
        lemma_quad(w as int, h as int);
    }
    let mut data: Vec<u32> = Vec::new();
    let mut y: usize = 0;
    while y < h
        invariant
            img.wf(),
            w == img.width,
            h == img.height,
            4 * (w * h) <= usize::MAX,
            y <= h,
            data.len() == 4 * (y * w),
            forall|i: int| 0 <= i < data.len() ==> data[i] <= 65025,
            forall|xi: int, yi: int, ci: int|
                0 <= xi < w && 0 <= yi < y && 0 <= ci < 4 ==> data[4 * (yi * w + xi) + ci]
                    == premul_of(img, xi, yi, ci),
        decreases h - y,
    {
        let mut x: usize = 0;
        while x < w
            invariant
                img.wf(),
                w == img.width,
                h == img.height,
                4 * (w * h) <= usize::MAX,
                y < h,
                x <= w,
                data.len() == 4 * (y * w + x),
                forall|i: int| 0 <= i < data.len() ==> data[i] <= 65025,
                forall|xi: int, yi: int, ci: int|
                    0 <= xi < w && 0 <= yi < y && 0 <= ci < 4 ==> data[4 * (yi * w + xi) + ci]
                        == premul_of(img, xi, yi, ci),
                forall|xi: int, ci: int|
                    0 <= xi < x && 0 <= ci < 4 ==> data[4 * (y * w + xi) + ci] == premul_of(
                        img,
                        xi,
                        y as int,
                        ci,
                    ),
            decreases w - x,
        {
            proof {
                lemma_pixel_index(w as int, h as int, x as int, y as int);
            }
            let a = img.get(x, y, 3) as u32;
            let cr = img.get(x, y, 0) as u32;
            let cg = img.get(x, y, 1) as u32;
            let cb = img.get(x, y, 2) as u32;
            proof {
                assert(cr * a <= 65025 && cg * a <= 65025 && cb * a <= 65025)
                    by (nonlinear_arith)
                    requires
                        cr <= 255,
                        cg <= 255,
                        cb <= 255,
                        a <= 255,
                ;
            }
            let pr = cr * a;
            let pg = cg * a;
            let pb = cb * a;
            let pa = a * 255;
            data.push(pr);
            data.push(pg);
            data.push(pb);
            data.push(pa);
            proof {
                assert forall|xi: int, yi: int, ci: int|
                    0 <= xi < w && 0 <= yi < y && 0 <= ci < 4 implies data[4 * (yi * w + xi) + ci]
                    == premul_of(img, xi, yi, ci) by {
                    lemma_row_order(w as int, xi, yi, x as int, y as int);
                }
            }
            x += 1;
        }
        proof {
            assert((y + 1) * w == y * w + w) by (nonlinear_arith);
        }
        y += 1;
    }
    proof {
        assert(h * w == w * h) by (nonlinear_arith);
    }
    let r = PremulBuffer { width: w, height: h, data };
    proof {
        assert forall|x: int, y: int, c: int|
            0 <= x < w && 0 <= y < h && 0 <= c < 4 implies r.at(x, y, c) == premul_of(
            img,
            x,
            y,
            c,
        ) by {
            lemma_pixel_index(w as int, h as int, x, y);
        }
    }
    r
}

/// The four Catmull-Rom weights for a fractional position `t` in Q16 scale
/// (0 through 65535), each in Q16, computed with floored fixed-point steps.
pub open spec fn cubic_weights_spec(t: int) -> (int, int, int, int) {
    let t2 = (t * t) / 65536;
    let t3 = (t2 * t) / 65536;
    let w0 = t2 - (t3 + t) / 2;
    let w1 = 65536 + (3 * t3) / 2 - (5 * t2) / 2;
    let w2 = 2 * t2 + t / 2 - (3 * t3) / 2;
    let w3 = -((t2 - t3) / 2);
    (w0, w1, w2, w3)
}

/// The Catmull-Rom interpolation kernel at fractional position `t` (Q16).
pub fn cubic_weight(t: i64) -> (r: (i64, i64, i64, i64))
    requires
        0 <= t < 65536,
    ensures
        r.0 == cubic_weights_spec(t as int).0,
        r.1 == cubic_weights_spec(t as int).1,
        r.2 == cubic_weights_spec(t as int).2,
        r.3 == cubic_weights_spec(t as int).3,
        -262144 <= r.0 <= 262144,
        -262144 <= r.1 <= 262144,
        -262144 <= r.2 <= 262144,
        -262144 <= r.3 <= 262144,
{
    proof {
        assert(0 <= (t * t) / 65536 <= t && ((t * t) / 65536) * t / 65536 <= (t * t) / 65536)
            by (nonlinear_arith)
            requires
                0 <= t < 65536,
        ;
    }
    let t2: i64 = (t * t) / 65536;
    let t3: i64 = (t2 * t) / 65536;
    let w0: i64 = t2 - (t3 + t) / 2;
    let w1: i64 = 65536 + (3 * t3) / 2 - (5 * t2) / 2;
    let w2: i64 = 2 * t2 + t / 2 - (3 * t3) / 2;
    let w3: i64 = -((t2 - t3) / 2);
    (w0, w1, w2, w3)
}

pub open spec fn clamp_idx(v: int, hi: int) -> int {
    if v < 0 {
        0
    } else if v > hi {
        hi
    } else {
        v
    }
}

/// The premultiplied sample used for tap `(i, j)` of the 4x4 neighborhood
/// around floor position `(xf, yf)`: coordinates clamped to the buffer.
pub open spec fn tap(pm: &PremulBuffer, xf: int, yf: int, i: int, j: int, c: int) -> int {
    pm.at(
        clamp_idx(xf + i - 1, pm.width - 1),
        clamp_idx(yf + j - 1, pm.height - 1),
        c,
    ) as int
}

/// One horizontal pass of the separable bicubic kernel: the weighted sum of
/// the four taps of row `j`, at Q16 weight scale over 255th samples.
pub open spec fn bicubic_row_spec(
    pm: &PremulBuffer,
    xf: int,
    yf: int,
    wx: (int, int, int, int),
    j: int,
    c: int,
) -> int {
    wx.0 * tap(pm, xf, yf, 0, j, c) + wx.1 * tap(pm, xf, yf, 1, j, c) + wx.2 * tap(
        pm,
        xf,
        yf,
        2,
        j,
        c,
    ) + wx.3 * tap(pm, xf, yf, 3, j, c)
}

/// The bicubic-interpolated premultiplied sample for channel `c` at the Q16
/// position `(x, y)`: an integer with denominator 255 * 2^32.
pub open spec fn bicubic_chan_spec(pm: &PremulBuffer, x: int, y: int, c: int) -> int {
    let xf = x / 65536;
    let yf = y / 65536;
    let wx = cubic_weights_spec(x % 65536);
    let wy = cubic_weights_spec(y % 65536);
    wy.0 * bicubic_row_spec(pm, xf, yf, wx, 0, c) + wy.1 * bicubic_row_spec(pm, xf, yf, wx, 1, c)
        + wy.2 * bicubic_row_spec(pm, xf, yf, wx, 2, c) + wy.3 * bicubic_row_spec(
        pm,
        xf,
        yf,
        wx,
        3,
        c,
    )
}

fn div_floor_i64(num: i64, den: i64) -> (r: i64)
    requires
        den > 0,
        num > i64::MIN + den,
    ensures
        r == num as int / den as int,
{
    if num >= 0 {
        let q: u64 = (num as u64) / (den as u64);
        proof {
            assert((num as u64) / (den as u64) <= num as u64) by (nonlinear_arith)
                requires
                    den > 0,
                    num >= 0,
            ;
        }
        q as i64
    } else {
        let m: u64 = (((-num) as u64) + (den as u64) - 1) / (den as u64);
        proof {
            assert((((-num) as int) + den - 1) / (den as int) == -((num as int) / (den as int))
                && 0 <= (((-num) as int) + den - 1) / (den as int) <= (-num) as int)
                by (nonlinear_arith)
                requires
                    den > 0,
                    num < 0,
                    num > i64::MIN + den,
            ;
        }
        -(m as i64)
    }
}

fn rem_floor_i64(num: i64, den: i64) -> (r: i64)
    requires
        den > 0,
        num > i64::MIN + den,
    ensures
        r == num as int % den as int,
        0 <= r < den,
{
    let q = div_floor_i64(num, den);
    proof {
        let n = num as int;
        let d = den as int;
        assert(n % d == n - (n / d) * d && 0 <= n % d < d) by (nonlinear_arith)
            requires
                d > 0,
        ;
    }
    num - q * den
}

fn clamp_to(v: i64, hi: usize) -> (r: usize)
    requires
        hi <= 1000000000,
    ensures
        r == clamp_idx(v as int, hi as int),
{
    if v < 0 {
        0
    } else if v > hi as i64 {
        hi
    } else {
        v as usize
    }
}

fn bicubic_row(pm: &PremulBuffer, xf: i64, yf: i64, wx: (i64, i64, i64, i64), j: i64, c: usize) -> (
    r: i64)
    requires
        pm.wf(),
        1 <= pm.width <= 131072,
        1 <= pm.height <= 131072,
        -0x100000000 <= xf <= 0x100000000,
        -0x100000000 <= yf <= 0x100000000,
        -262144 <= wx.0 <= 262144,
        -262144 <= wx.1 <= 262144,
        -262144 <= wx.2 <= 262144,
        -262144 <= wx.3 <= 262144,
        0 <= j < 4,
        c < 4,
    ensures
        r == bicubic_row_spec(pm, xf as int, yf as int, (wx.0 as int, wx.1 as int, wx.2 as int, wx.3 as int), j as int, c as int),
        -0x2000000000 <= r <= 0x2000000000,
{
    let py = clamp_to(yf + j - 1, pm.height - 1);
    let p0 = pm.get(clamp_to(xf - 1, pm.width - 1), py, c) as i64;
    let p1 = pm.get(clamp_to(xf, pm.width - 1), py, c) as i64;
    let p2 = pm.get(clamp_to(xf + 1, pm.width - 1), py, c) as i64;
    let p3 = pm.get(clamp_to(xf + 2, pm.width - 1), py, c) as i64;
    proof {
        assert(-262144 * 65025 <= wx.0 * p0 <= 262144 * 65025 && -262144 * 65025 <= wx.1 * p1
            <= 262144 * 65025 && -262144 * 65025 <= wx.2 * p2 <= 262144 * 65025 && -262144 * 65025
            <= wx.3 * p3 <= 262144 * 65025) by (nonlinear_arith)
            requires
                -262144 <= wx.0 <= 262144,
                -262144 <= wx.1 <= 262144,
                -262144 <= wx.2 <= 262144,
                -262144 <= wx.3 <= 262144,
                0 <= p0 <= 65025,
                0 <= p1 <= 65025,
                0 <= p2 <= 65025,
                0 <= p3 <= 65025,
        ;
    }
    wx.0 * p0 + wx.1 * p1 + wx.2 * p2 + wx.3 * p3
}

/// Bicubic interpolation of the premultiplied sample at the Q16 position
/// `(x, y)`: a 4x4 Catmull-Rom neighborhood with per-axis separable weights
/// and edge-clamped coordinates. Results carry denominator 255 * 2^32.
pub fn bicubic_interpolate(pm: &PremulBuffer, x: i64, y: i64) -> (r: [i64; 4])
    requires
        pm.wf(),
        1 <= pm.width <= 131072,
        1 <= pm.height <= 131072,
        -0x400000000 <= x <= 0x400000000,
        -0x400000000 <= y <= 0x400000000,
    ensures
        forall|c: int|
            0 <= c < 4 ==> #[trigger] r[c] == bicubic_chan_spec(pm, x as int, y as int, c),
        forall|c: int| 0 <= c < 4 ==> -0x200000000000000 <= #[trigger] r[c] <= 0x200000000000000,
{
    let xf = div_floor_i64(x, 65536);
    let yf = div_floor_i64(y, 65536);
    let xfr = rem_floor_i64(x, 65536);
    let yfr = rem_floor_i64(y, 65536);
    let wx = cubic_weight(xfr);
    let wy = cubic_weight(yfr);

    let mut out: [i64; 4] = [0, 0, 0, 0];
    let mut c: usize = 0;
    while c < 4
        invariant
            pm.wf(),
            1 <= pm.width <= 131072,
            1 <= pm.height <= 131072,
            -0x100000000 <= xf <= 0x100000000,
            -0x100000000 <= yf <= 0x100000000,
            xf == x as int / 65536,
            yf == y as int / 65536,
            -262144 <= wx.0 <= 262144,
            -262144 <= wx.1 <= 262144,
            -262144 <= wx.2 <= 262144,
            -262144 <= wx.3 <= 262144,
            -262144 <= wy.0 <= 262144,
            -262144 <= wy.1 <= 262144,
            -262144 <= wy.2 <= 262144,
            -262144 <= wy.3 <= 262144,
            wx.0 == cubic_weights_spec(x as int % 65536).0,
            wx.1 == cubic_weights_spec(x as int % 65536).1,
            wx.2 == cubic_weights_spec(x as int % 65536).2,
            wx.3 == cubic_weights_spec(x as int % 65536).3,
            wy.0 == cubic_weights_spec(y as int % 65536).0,
            wy.1 == cubic_weights_spec(y as int % 65536).1,
            wy.2 == cubic_weights_spec(y as int % 65536).2,
            wy.3 == cubic_weights_spec(y as int % 65536).3,
            c <= 4,
            forall|ci: int|
                0 <= ci < c ==> #[trigger] out[ci] == bicubic_chan_spec(pm, x as int, y as int, ci),
            forall|ci: int| 0 <= ci < 4 ==> -0x200000000000000 <= #[trigger] out[ci] <= 0x200000000000000,
        decreases 4 - c,
    {
        let r0 = bicubic_row(pm, xf, yf, wx, 0, c);
        let r1 = bicubic_row(pm, xf, yf, wx, 1, c);
        let r2 = bicubic_row(pm, xf, yf, wx, 2, c);
        let r3 = bicubic_row(pm, xf, yf, wx, 3, c);
        proof {
            assert(-262144 * 0x2000000000 <= wy.0 * r0 <= 262144 * 0x2000000000 && -262144
                * 0x2000000000 <= wy.1 * r1 <= 262144 * 0x2000000000 && -262144 * 0x2000000000
                <= wy.2 * r2 <= 262144 * 0x2000000000 && -262144 * 0x2000000000 <= wy.3 * r3
                <= 262144 * 0x2000000000) by (nonlinear_arith)
                requires
                    -262144 <= wy.0 <= 262144,
                    -262144 <= wy.1 <= 262144,
                    -262144 <= wy.2 <= 262144,
                    -262144 <= wy.3 <= 262144,
                    -0x2000000000 <= r0 <= 0x2000000000,
                    -0x2000000000 <= r1 <= 0x2000000000,
                    -0x2000000000 <= r2 <= 0x2000000000,
                    -0x2000000000 <= r3 <= 0x2000000000,
            ;
        }
        let v: i64 = wy.0 * r0 + wy.1 * r1 + wy.2 * r2 + wy.3 * r3;
        out[c] = v;
        c += 1;
    }
    out
}

/// The straight-alpha pixel an interpolated premultiplied sample converts
/// back to: fully transparent below one alpha unit, otherwise each color
/// divided by the normalized alpha and clamped to a channel.
pub open spec fn unpremultiply_spec(v0: int, v1: int, v2: int, v3: int) -> (int, int, int, int) {
    if v3 < 0xFF00000000 {
        (0, 0, 0, 0)
    } else {
        let r = clamp_idx(trunc_div_signed(v0 * 255, v3), 255);
        let g = clamp_idx(trunc_div_signed(v1 * 255, v3), 255);
        let b = clamp_idx(trunc_div_signed(v2 * 255, v3), 255);
        let a = clamp_idx(v3 / 0xFF00000000, 255);
        (r, g, b, a)
    }
}

/// Convert an interpolated premultiplied sample (denominator 255 * 2^32)
/// back to a straight-alpha pixel.
pub fn unpremultiply_alpha(v: [i64; 4]) -> (r: (u8, u8, u8, u8))
    requires
        forall|c: int| 0 <= c < 4 ==> -0x200000000000000 <= #[trigger] v[c] <= 0x200000000000000,
    ensures
        ({
            let s = unpremultiply_spec(v[0] as int, v[1] as int, v[2] as int, v[3] as int);
            r.0 == s.0 && r.1 == s.1 && r.2 == s.2 && r.3 == s.3
        }),
{
    let a = v[3];
    if a < 0xFF00000000 {
        (0, 0, 0, 0)
    } else {
        let rr = clamp_chan(v[0], a);
        let gg = clamp_chan(v[1], a);
        let bb = clamp_chan(v[2], a);
        let aa: i64 = a / 0xFF00000000;
        proof {
            assert(0 <= (a as int) / 0xFF00000000 <= a) by (nonlinear_arith)
                requires
                    a >= 0xFF00000000,
            ;
        }
        let af: u8 = if aa > 255 {
            255
        } else {
            aa as u8
        };
        proof {
            assert(a as int / 0xFF00000000 == v[3] as int / 0xFF00000000);
        }
        (rr, gg, bb, af)
    }
}

fn clamp_chan(num: i64, den: i64) -> (r: u8)
    requires
        den >= 0xFF00000000,
        -0x200000000000000 <= num <= 0x200000000000000,
    ensures
        r == clamp_idx(trunc_div_signed(num as int * 255, den as int), 255),
{
    if num <= 0 {
        proof {
            assert(trunc_div_signed(num as int * 255, den as int) <= 0) by (nonlinear_arith)
                requires
                    den > 0,
                    num <= 0,
                    trunc_div_signed(num as int * 255, den as int) == (if num * 255 >= 0 {
                        (num as int * 255) / (den as int)
                    } else {
                        -((-(num as int * 255)) / (den as int))
                    }),
            ;
        }
        0
    } else {
        let wide: i128 = (num as i128) * 255;
        let q: i128 = wide / (den as i128);
        proof {
            assert(0 <= (num as int * 255) / (den as int) <= num as int * 255 && (num as int * 255)
                / (den as int) == trunc_div_signed(num as int * 255, den as int))
                by (nonlinear_arith)
                requires
                    den > 0,
                    num > 0,
                    trunc_div_signed(num as int * 255, den as int) == (num as int * 255) / (
                    den as int),
            ;
            assert(trunc_div_signed(num as int * 255, den as int) == (num as int * 255) / (
            den as int));
            assert((wide as int) / (den as int) == (num as int * 255) / (den as int));
            assert(wide as int / den as int >= 0 && wide / (den as i128) == wide as int / den as int) by (nonlinear_arith)
                requires
                    den > 0,
                    wide >= 0,
                    wide == num as int * 255,
            ;
        }
        if q > 255 {
            255
        } else {
            q as u8
        }
    }
}

} // verus!

use vstd::prelude::*;
use crate::buffer::BoundingBox;
use crate::buffer::copy_rect;
use crate::geometry::AffineTransform;
use crate::geometry::compute_output_bounds;
use crate::geometry::invert_spec;
use crate::geometry::output_bounds_spec;
use crate::geometry::transform_point;
use crate::geometry::transform_point_x_spec;
use crate::geometry::transform_point_y_spec;
use crate::geometry::try_invert;

verus! {

/// How many of the four orthogonal neighbors of an interior pixel are fully
/// transparent.
pub open spec fn transparent_neighbor_count(img: &PixelBuffer, x: int, y: int) -> int {
    (if img.alpha_at(x - 1, y) == 0 {
        1int
    } else {
        0int
    }) + (if img.alpha_at(x + 1, y) == 0 {
        1int
    } else {
        0int
    }) + (if img.alpha_at(x, y - 1) == 0 {
        1int
    } else {
        0int
    }) + (if img.alpha_at(x, y + 1) == 0 {
        1int
    } else {
        0int
    })
}

/// An interior pixel is a near-transparent fringe artifact: alpha in the
/// open band (0, max_alpha) with at least `needed` fully transparent
/// orthogonal neighbors.
pub open spec fn is_halo(img: &PixelBuffer, x: int, y: int, max_alpha: u8, needed: u8) -> bool {
    &&& 1 <= x < img.width - 1
    &&& 1 <= y < img.height - 1
    &&& 0 < img.alpha_at(x, y) < max_alpha
    &&& transparent_neighbor_count(img, x, y) >= needed
}

/// The channel value the cleanup pass owes for each pixel: zero for halo
/// pixels, the source value everywhere else.
pub open spec fn cleaned_chan(img: &PixelBuffer, x: int, y: int, c: int, max_alpha: u8, needed: u8) -> u8 {
    if is_halo(img, x, y, max_alpha, needed) {
        0u8
    } else {
        img.chan(x, y, c)
    }
}

/// Remove near-transparent fringe artifacts: every interior pixel whose
/// alpha lies in the open band (0, max_alpha) and that has at least
/// `needed` fully transparent orthogonal neighbors is forced fully
/// transparent; every other pixel is kept.
pub fn clean_edges(img: &PixelBuffer, max_alpha: u8, needed: u8) -> (r: PixelBuffer)
    requires
        img.wf(),
    ensures
        r.wf(),
        r.width == img.width,
        r.height == img.height,
        forall|x: int, y: int, c: int|
            0 <= x < img.width && 0 <= y < img.height && 0 <= c < 4 ==> r.chan(x, y, c)
                == cleaned_chan(img, x, y, c, max_alpha, needed),
{
    let full = BoundingBox { x: 0, y: 0, width: img.width, height: img.height };
    let mut out = copy_rect(img, full);
    if img.width < 3 || img.height < 3 {
        return out;
    }
    let w = img.width;
    let h = img.height;
    let mut y: usize = 1;
    while y < h - 1
        invariant
            img.wf(),
            out.wf(),
            out.width == w,
            out.height == h,
            w == img.width,
            h == img.height,
            3 <= w,
            3 <= h,
            1 <= y <= h - 1,
            forall|xi: int, yi: int, ci: int|
                0 <= xi < w && 0 <= yi < h && 0 <= ci < 4 && yi < y ==> out.chan(xi, yi, ci)
                    == cleaned_chan(img, xi, yi, ci, max_alpha, needed),
            forall|xi: int, yi: int, ci: int|
                0 <= xi < w && 0 <= yi < h && 0 <= ci < 4 && yi >= y ==> out.chan(xi, yi, ci)
                    == img.chan(xi, yi, ci),
        decreases h - y,
    {
        let mut x: usize = 1;
        while x < w - 1
            invariant
                img.wf(),
                out.wf(),
                out.width == w,
                out.height == h,
                w == img.width,
                h == img.height,
                3 <= w,
                3 <= h,
                1 <= y < h - 1,
                1 <= x <= w - 1,
                forall|xi: int, yi: int, ci: int|
                    0 <= xi < w && 0 <= yi < h && 0 <= ci < 4 && yi < y ==> out.chan(xi, yi, ci)
                        == cleaned_chan(img, xi, yi, ci, max_alpha, needed),
                forall|xi: int, ci: int|
                    0 <= xi < w && 0 <= ci < 4 && xi < x ==> out.chan(xi, y as int, ci)
                        == cleaned_chan(img, xi, y as int, ci, max_alpha, needed),
                forall|xi: int, ci: int|
                    0 <= xi < w && 0 <= ci < 4 && xi >= x ==> out.chan(xi, y as int, ci)
                        == img.chan(xi, y as int, ci),
                forall|xi: int, yi: int, ci: int|
                    0 <= xi < w && 0 <= yi < h && 0 <= ci < 4 && yi > y ==> out.chan(xi, yi, ci)
                        == img.chan(xi, yi, ci),
            decreases w - x,
        {
            let a = img.get(x, y, 3);
            if a > 0 && a < max_alpha {
                let mut count: u8 = 0;
                if img.get(x - 1, y, 3) == 0 {
                    count += 1;
                }
                if img.get(x + 1, y, 3) == 0 {
                    count += 1;
                }
                if img.get(x, y - 1, 3) == 0 {
                    count += 1;
                }
                if img.get(x, y + 1, 3) == 0 {
                    count += 1;
                }
                if count >= needed {
                    out.set(x, y, 0, 0);
                    out.set(x, y, 1, 0);
                    out.set(x, y, 2, 0);
                    out.set(x, y, 3, 0);
                }
            }
            x += 1;
        }
        y += 1;
    }
    out
}

proof fn lemma_tp_tight(m: AffineTransform, x: int, y: int)
    requires
        -0x10000000 <= m.m00 <= 0x10000000,
        -0x10000000 <= m.m01 <= 0x10000000,
        -0x10000000 <= m.m10 <= 0x10000000,
        -0x10000000 <= m.m11 <= 0x10000000,
        -0x400000000000 <= m.m02 <= 0x400000000000,
        -0x400000000000 <= m.m12 <= 0x400000000000,
        -0x200000000 <= x <= 0x200000000,
        -0x200000000 <= y <= 0x200000000,
    ensures
        -0x800000000000 <= transform_point_x_spec(m, x, y) <= 0x800000000000,
        -0x800000000000 <= transform_point_y_spec(m, x, y) <= 0x800000000000,
{
    assert(-0x800000000000 <= transform_point_x_spec(m, x, y) <= 0x800000000000
        && -0x800000000000 <= transform_point_y_spec(m, x, y) <= 0x800000000000)
        by (nonlinear_arith)
        requires
            -0x10000000 <= m.m00 <= 0x10000000,
            -0x10000000 <= m.m01 <= 0x10000000,
            -0x10000000 <= m.m10 <= 0x10000000,
            -0x10000000 <= m.m11 <= 0x10000000,
            -0x400000000000 <= m.m02 <= 0x400000000000,
            -0x400000000000 <= m.m12 <= 0x400000000000,
            -0x200000000 <= x <= 0x200000000,
            -0x200000000 <= y <= 0x200000000,
            transform_point_x_spec(m, x, y) == trunc_div(m.m00 * x + m.m01 * y, 65536) + m.m02,
            transform_point_y_spec(m, x, y) == trunc_div(m.m10 * x + m.m11 * y, 65536) + m.m12,
            forall|n: int|
                #[trigger] trunc_div(n, 65536) == (if n >= 0 {
                    n / 65536
                } else {
                    -((-n) / 65536)
                }),
    ;
}

/// The output dimensions the resampler owes: the transformed extent, each
/// axis raised to at least one pixel and clamped to three times the source.
pub open spec fn clamped_dim_spec(d: int, src: int) -> int {
    if d < 1 {
        1
    } else if d > 3 * src {
        3 * src
    } else {
        d
    }
}

/// The straight-alpha channel value the resampler owes at output pixel
/// `(ox, oy)`: the destination is offset and mapped through the inverse
/// transform; positions within the source extent (one-pixel margin) are
/// bicubic-interpolated on the premultiplied samples and unpremultiplied,
/// anything else is fully transparent.
pub open spec fn resampled_chan_spec(
    pm: &PremulBuffer,
    inv: AffineTransform,
    offx: int,
    offy: int,
    ox: int,
    oy: int,
    c: int,
) -> int {
    let dx = ox * 65536 + offx;
    let dy = oy * 65536 + offy;
    let sx = transform_point_x_spec(inv, dx, dy);
    let sy = transform_point_y_spec(inv, dx, dy);
    if sx >= -65536 && sx <= pm.width * 65536 && sy >= -65536 && sy <= pm.height * 65536 {
        let v = unpremultiply_spec(
            bicubic_chan_spec(pm, sx, sy, 0),
            bicubic_chan_spec(pm, sx, sy, 1),
            bicubic_chan_spec(pm, sx, sy, 2),
            bicubic_chan_spec(pm, sx, sy, 3),
        );
        if c == 0 {
            v.0
        } else if c == 1 {
            v.1
        } else if c == 2 {
            v.2
        } else {
            v.3
        }
    } else {
        0
    }
}

/// `pm` and `mid` witness the resampling of `img`: `pm` holds its
/// premultiplied samples, `mid` the raw resampled image that the cleanup
/// pass then turns into the result `r`.
pub open spec fn resample_witness(
    pm: PremulBuffer,
    mid: PixelBuffer,
    img: &PixelBuffer,
    inv: AffineTransform,
    offx: int,
    offy: int,
    r: &PixelBuffer,
) -> bool {
    &&& is_premul_of(&pm, img)
    &&& mid.wf()
    &&& mid.width == r.width
    &&& mid.height == r.height
    &&& (forall|ox: int, oy: int, c: int|
        0 <= ox < mid.width && 0 <= oy < mid.height && 0 <= c < 4 ==> #[trigger] mid.chan(
            ox,
            oy,
            c,
        ) == resampled_chan_spec(&pm, inv, offx, offy, ox, oy, c))
    &&& (forall|ox: int, oy: int, c: int|
        0 <= ox < r.width && 0 <= oy < r.height && 0 <= c < 4 ==> #[trigger] r.chan(ox, oy, c)
            == cleaned_chan(&mid, ox, oy, c, 32, 3))
}

/// `pm` holds exactly the premultiplied samples of `img`.
pub open spec fn is_premul_of(pm: &PremulBuffer, img: &PixelBuffer) -> bool {
    &&& pm.wf()
    &&& pm.width == img.width
    &&& pm.height == img.height
    &&& forall|x: int, y: int, c: int|
        0 <= x < img.width && 0 <= y < img.height && 0 <= c < 4 ==> pm.at(x, y, c) == premul_of(
            img,
            x,
            y,
            c,
        )
}

/// What the resampler owes: the source unchanged for a non-invertible
/// transform, and otherwise a clamped-extent canvas witnessed by the
/// premultiplied samples and the raw resampled image that the cleanup pass
/// turns into the result.
pub open spec fn transform_result(img: &PixelBuffer, forward: &AffineTransform, r: &PixelBuffer) -> bool {
    &&& r.wf()
    &&& invert_spec(*forward) is None ==> r.same_image(img)
    &&& invert_spec(*forward) matches Some(inv) ==> ({
        let ob = output_bounds_spec(*forward, img.width as int, img.height as int);
        &&& r.width == clamped_dim_spec(ob.0, img.width as int)
        &&& r.height == clamped_dim_spec(ob.1, img.height as int)
        &&& exists|pm: PremulBuffer, mid: PixelBuffer|
            resample_witness(pm, mid, img, inv, ob.2, ob.3, r)
    })
}

/// Resample a buffer through a forward affine transform: size the output
/// canvas from the transformed corners (clamped between one pixel and three
/// times each source extent), inverse-map every output pixel, interpolate
/// bicubically on premultiplied samples, convert back to straight alpha,
/// and clean up near-transparent fringe pixels. A non-invertible transform
/// falls back to returning the source unchanged.
#[verifier::rlimit(60)]
pub fn apply_affine_transform(img: &PixelBuffer, forward: &AffineTransform) -> (r: PixelBuffer)
    requires
        img.wf(),
        1 <= img.width <= 10000,
        1 <= img.height <= 10000,
        -0x10000000 <= forward.m00 <= 0x10000000,
        -0x10000000 <= forward.m01 <= 0x10000000,
        -0x10000000 <= forward.m10 <= 0x10000000,
        -0x10000000 <= forward.m11 <= 0x10000000,
        -0x400000000000 <= forward.m02 <= 0x400000000000,
        -0x400000000000 <= forward.m12 <= 0x400000000000,
    ensures
        transform_result(img, forward, &r),
{
    let (ow, oh, offx, offy) = compute_output_bounds(forward, img.width, img.height);
    let new_w: usize = if ow < 1 {
        1
    } else if ow > (3 * img.width) as u64 {
        3 * img.width
    } else {
        ow as usize
    };
    let new_h: usize = if oh < 1 {
        1
    } else if oh > (3 * img.height) as u64 {
        3 * img.height
    } else {
        oh as usize
    };

    let inv = match try_invert(forward) {
        Some(m) => m,
        None => {
            let full = BoundingBox { x: 0, y: 0, width: img.width, height: img.height };
            return copy_rect(img, full);
        },
    };

    proof {
        lemma_tp_tight(*forward, 0, 0);
        lemma_tp_tight(*forward, img.width as int * 65536, 0);
        lemma_tp_tight(*forward, 0, img.height as int * 65536);
        lemma_tp_tight(*forward, img.width as int * 65536, img.height as int * 65536);
    }

    let pm = premultiply_alpha(img);
    proof {
        lemma_quad(new_w as int, new_h as int);
        assert(4 * (new_w as int) * (new_h as int) <= usize::MAX) by (nonlinear_arith)
            requires
                new_w <= 30000,
                new_h <= 30000,
        ;
    }
    let mut mid = PixelBuffer::new(new_w, new_h);

    let mut oy: usize = 0;
    while oy < new_h
        invariant
            img.wf(),
            pm.wf(),
            is_premul_of(&pm, img),
            1 <= img.width <= 10000,
            1 <= img.height <= 10000,
            pm.width == img.width,
            pm.height == img.height,
            mid.wf(),
            mid.width == new_w,
            mid.height == new_h,
            1 <= new_w <= 30000,
            1 <= new_h <= 30000,
            inv.wf(),
            -0x800000000000 <= offx <= 0x800000000000,
            -0x800000000000 <= offy <= 0x800000000000,
            oy <= new_h,
            forall|xi: int, yi: int, ci: int|
                0 <= xi < new_w && 0 <= yi < oy && 0 <= ci < 4 ==> #[trigger] mid.chan(xi, yi, ci)
                    == resampled_chan_spec(&pm, inv, offx as int, offy as int, xi, yi, ci),
        decreases new_h - oy,
    {
        let mut ox: usize = 0;
        while ox < new_w
            invariant
                img.wf(),
                pm.wf(),
                is_premul_of(&pm, img),
                1 <= img.width <= 10000,
                1 <= img.height <= 10000,
                pm.width == img.width,
                pm.height == img.height,
                mid.wf(),
                mid.width == new_w,
                mid.height == new_h,
                1 <= new_w <= 30000,
                1 <= new_h <= 30000,
                inv.wf(),
                -0x800000000000 <= offx <= 0x800000000000,
                -0x800000000000 <= offy <= 0x800000000000,
                oy < new_h,
                ox <= new_w,
                forall|xi: int, yi: int, ci: int|
                    0 <= xi < new_w && 0 <= yi < oy && 0 <= ci < 4 ==> #[trigger] mid.chan(
                        xi,
                        yi,
                        ci,
                    ) == resampled_chan_spec(&pm, inv, offx as int, offy as int, xi, yi, ci),
                forall|xi: int, ci: int|
                    0 <= xi < ox && 0 <= ci < 4 ==> #[trigger] mid.chan(xi, oy as int, ci)
                        == resampled_chan_spec(
                        &pm,
                        inv,
                        offx as int,
                        offy as int,
                        xi,
                        oy as int,
                        ci,
                    ),
            decreases new_w - ox,
        {
            let dx: i128 = (ox as i128) * 65536 + offx;
            let dy: i128 = (oy as i128) * 65536 + offy;
            let (sx, sy) = transform_point(&inv, dx, dy);
            let in_range = sx >= -65536 && sx <= (img.width as i128) * 65536 && sy >= -65536 && sy
                <= (img.height as i128) * 65536;
            if in_range {
                let v = bicubic_interpolate(&pm, sx as i64, sy as i64);
                let (pr, pg, pb, pa) = unpremultiply_alpha(v);
                mid.set(ox, oy, 0, pr);
                mid.set(ox, oy, 1, pg);
                mid.set(ox, oy, 2, pb);
                mid.set(ox, oy, 3, pa);
            } else {
                mid.set(ox, oy, 0, 0);
                mid.set(ox, oy, 1, 0);
                mid.set(ox, oy, 2, 0);
                mid.set(ox, oy, 3, 0);
            }
            ox += 1;
        }
        oy += 1;
    }

    let r = clean_edges(&mid, 32, 3);
    proof {
        assert(resample_witness(pm, mid, img, inv, offx as int, offy as int, &r));
    }
    r
}

} // verus!

verus! {

/// One output extent of the rescale: the source extent scaled by
/// target over longest side, rounded to nearest, floored at one pixel.
pub open spec fn resize_dim_spec(d: int, maxdim: int, target: int) -> int {
    let nd = (2 * d * target + maxdim) / (2 * maxdim);
    if nd < 1 {
        1
    } else {
        nd
    }
}

/// The source position (Q16) sampled for output position `o`, under the
/// pixel-center convention: (o + 1/2) / scale - 1/2 with
/// scale = target / maxdim.
pub open spec fn resize_src_spec(o: int, maxdim: int, target: int) -> int {
    (((2 * o + 1) * maxdim) * 65536) / (2 * target) - 32768
}

/// A sampling coordinate kept within the interpolator's working range.
pub open spec fn clamp_coord_spec(v: int) -> int {
    if v < -0x400000000 {
        -0x400000000
    } else if v > 0x400000000 {
        0x400000000
    } else {
        v
    }
}

/// The straight-alpha channel value the rescale owes at output pixel
/// `(ox, oy)`: bicubic interpolation of the premultiplied samples at the
/// mapped source position, converted back to straight alpha.
pub open spec fn rescaled_chan_spec(
    pm: &PremulBuffer,
    maxdim: int,
    target: int,
    ox: int,
    oy: int,
    c: int,
) -> int {
    let sx = clamp_coord_spec(resize_src_spec(ox, maxdim, target));
    let sy = clamp_coord_spec(resize_src_spec(oy, maxdim, target));
    let v = unpremultiply_spec(
        bicubic_chan_spec(pm, sx, sy, 0),
        bicubic_chan_spec(pm, sx, sy, 1),
        bicubic_chan_spec(pm, sx, sy, 2),
        bicubic_chan_spec(pm, sx, sy, 3),
    );
    if c == 0 {
        v.0
    } else if c == 1 {
        v.1
    } else if c == 2 {
        v.2
    } else {
        v.3
    }
}

proof fn lemma_resize_dim(d: int, maxdim: int, t: int)
    requires
        1 <= d <= maxdim,
        maxdim <= 30000,
        1 <= t <= 20000,
    ensures
        0 <= 2 * d * t + maxdim <= 0x60000000,
        (2 * d * t + maxdim) / (2 * maxdim) <= t,
{
    assert(0 <= 2 * d * t + maxdim <= 0x60000000 && 2 * d * t + maxdim <= maxdim * (2 * t + 1))
        by (nonlinear_arith)
        requires
            1 <= d <= maxdim,
            maxdim <= 30000,
            1 <= t <= 20000,
    ;
    assert((maxdim * (2 * t + 1)) / (2 * maxdim) <= t) by (nonlinear_arith)
        requires
            1 <= maxdim,
            1 <= t,
    ;
    assert((2 * d * t + maxdim) / (2 * maxdim) <= (maxdim * (2 * t + 1)) / (2 * maxdim))
        by (nonlinear_arith)
        requires
            1 <= maxdim,
            0 <= 2 * d * t + maxdim <= maxdim * (2 * t + 1),
    ;
}

fn clamp_coord(v: i64) -> (r: i64)
    ensures
        r == clamp_coord_spec(v as int),
        -0x400000000 <= r <= 0x400000000,
{
    if v < -0x400000000 {
        -0x400000000
    } else if v > 0x400000000 {
        0x400000000
    } else {
        v
    }
}

/// What the rescale owes: a zero-area buffer unchanged, and otherwise the
/// rounded scaled dimensions with every pixel bicubic-sampled on the
/// premultiplied form at the unit-scale pixel-center positions.
pub open spec fn resize_result(img: &PixelBuffer, target_size: u32, r: &PixelBuffer) -> bool {
    &&& r.wf()
    &&& (img.width == 0 || img.height == 0) ==> r.same_image(img)
    &&& (img.width >= 1 && img.height >= 1) ==> ({
        let maxdim = if img.width >= img.height {
            img.width as int
        } else {
            img.height as int
        };
        &&& r.width == resize_dim_spec(img.width as int, maxdim, target_size as int)
        &&& r.height == resize_dim_spec(img.height as int, maxdim, target_size as int)
        &&& exists|pm: PremulBuffer|
            is_premul_of(&pm, img) && (forall|ox: int, oy: int, c: int|
                0 <= ox < r.width && 0 <= oy < r.height && 0 <= c < 4 ==> #[trigger] r.chan(
                    ox,
                    oy,
                    c,
                ) == rescaled_chan_spec(&pm, maxdim, target_size as int, ox, oy, c))
    })
}

/// Uniformly rescale a buffer so its longest side equals `target_size`,
/// using the same premultiplied-alpha bicubic interpolation as the affine
/// resampler and a pixel-center sampling convention. A zero-area buffer is
/// returned unchanged.
pub fn resize_to_fit(img: &PixelBuffer, target_size: u32) -> (r: PixelBuffer)
    requires
        img.wf(),
        img.width <= 30000,
        img.height <= 30000,
        1 <= target_size <= 20000,
    ensures
        resize_result(img, target_size, &r),
{
    if img.width == 0 || img.height == 0 {
        let full = BoundingBox { x: 0, y: 0, width: img.width, height: img.height };
        return copy_rect(img, full);
    }
    let maxdim: usize = if img.width >= img.height {
        img.width
    } else {
        img.height
    };
    let t = target_size as usize;
    proof {
        lemma_resize_dim(img.width as int, maxdim as int, t as int);
        lemma_resize_dim(img.height as int, maxdim as int, t as int);
    }
    let nw0: usize = (2 * img.width * t + maxdim) / (2 * maxdim);
    let nh0: usize = (2 * img.height * t + maxdim) / (2 * maxdim);
    let new_w: usize = if nw0 < 1 {
        1
    } else {
        nw0
    };
    let new_h: usize = if nh0 < 1 {
        1
    } else {
        nh0
    };

    let pm = premultiply_alpha(img);
    proof {
        assert(4 * (new_w as int) * (new_h as int) <= usize::MAX) by (nonlinear_arith)
            requires
                1 <= new_w <= 20000,
                1 <= new_h <= 20000,
        ;
    }
    let mut out = PixelBuffer::new(new_w, new_h);

    let mut oy: usize = 0;
    while oy < new_h
        invariant
            img.wf(),
            pm.wf(),
            is_premul_of(&pm, img),
            1 <= img.width <= 30000,
            1 <= img.height <= 30000,
            pm.width == img.width,
            pm.height == img.height,
            maxdim == (if img.width >= img.height {
                img.width as int
            } else {
                img.height as int
            }),
            1 <= t <= 20000,
            t == target_size,
            out.wf(),
            out.width == new_w,
            out.height == new_h,
            1 <= new_w <= 20000,
            1 <= new_h <= 20000,
            oy <= new_h,
            forall|xi: int, yi: int, ci: int|
                0 <= xi < new_w && 0 <= yi < oy && 0 <= ci < 4 ==> #[trigger] out.chan(xi, yi, ci)
                    == rescaled_chan_spec(&pm, maxdim as int, t as int, xi, yi, ci),
        decreases new_h - oy,
    {
        let mut ox: usize = 0;
        while ox < new_w
            invariant
                img.wf(),
                pm.wf(),
                is_premul_of(&pm, img),
                1 <= img.width <= 30000,
                1 <= img.height <= 30000,
                pm.width == img.width,
                pm.height == img.height,
                maxdim == (if img.width >= img.height {
                    img.width as int
                } else {
                    img.height as int
                }),
                1 <= t <= 20000,
                t == target_size,
                out.wf(),
                out.width == new_w,
                out.height == new_h,
                1 <= new_w <= 20000,
                1 <= new_h <= 20000,
                oy < new_h,
                ox <= new_w,
                forall|xi: int, yi: int, ci: int|
                    0 <= xi < new_w && 0 <= yi < oy && 0 <= ci < 4 ==> #[trigger] out.chan(
                        xi,
                        yi,
                        ci,
                    ) == rescaled_chan_spec(&pm, maxdim as int, t as int, xi, yi, ci),
                forall|xi: int, ci: int|
                    0 <= xi < ox && 0 <= ci < 4 ==> #[trigger] out.chan(xi, oy as int, ci)
                        == rescaled_chan_spec(&pm, maxdim as int, t as int, xi, oy as int, ci),
            decreases new_w - ox,
        {
            proof {
                assert((2 * (ox as int) + 1) * (maxdim as int) * 65536 <= 0x40000000000000 && (2 * (
                oy as int) + 1) * (maxdim as int) * 65536 <= 0x40000000000000 && 0 <= (2 * (
                ox as int) + 1) * (maxdim as int) * 65536 && 0 <= (2 * (oy as int) + 1) * (
                maxdim as int) * 65536) by (nonlinear_arith)
                    requires
                        0 <= ox <= 20000,
                        0 <= oy <= 20000,
                        1 <= maxdim <= 30000,
                ;
            }
            let numx: u64 = ((2 * (ox as u64) + 1) * (maxdim as u64)) * 65536;
            let numy: u64 = ((2 * (oy as u64) + 1) * (maxdim as u64)) * 65536;
            let sx0: i64 = (numx / (2 * (t as u64))) as i64 - 32768;
            let sy0: i64 = (numy / (2 * (t as u64))) as i64 - 32768;
            proof {
                assert(0 <= (numx as int) / (2 * (t as int)) <= numx as int && 0 <= (numy as int)
                    / (2 * (t as int)) <= numy as int) by (nonlinear_arith)
                    requires
                        t >= 1,
                        numx >= 0,
                        numy >= 0,
                ;
            }
            let sx = clamp_coord(sx0);
            let sy = clamp_coord(sy0);
            let v = bicubic_interpolate(&pm, sx, sy);
            let (pr, pg, pb, pa) = unpremultiply_alpha(v);
            out.set(ox, oy, 0, pr);
            out.set(ox, oy, 1, pg);
            out.set(ox, oy, 2, pb);
            out.set(ox, oy, 3, pa);
            ox += 1;
        }
        oy += 1;
    }
    proof {
        assert(is_premul_of(&pm, img) && (forall|ox: int, oy: int, c: int|
            0 <= ox < out.width && 0 <= oy < out.height && 0 <= c < 4 ==> #[trigger] out.chan(
                ox,
                oy,
                c,
            ) == rescaled_chan_spec(&pm, maxdim as int, t as int, ox, oy, c)));
    }
    out
}

} // verus!
