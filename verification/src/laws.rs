use vstd::prelude::*;
use crate::buffer::BoundingBox;
use crate::buffer::PixelBuffer;
use crate::buffer::is_tight_bounds;
use crate::buffer::opaque_at;
use crate::detection::DetectedLine;
use crate::detection::is_weighted_median;
use crate::detection::seq_weight;
use crate::detection::walk_median;
use crate::transform::PremulBuffer;
use crate::transform::bicubic_chan_spec;
use crate::transform::bicubic_row_spec;
use crate::transform::cubic_weights_spec;
use crate::transform::clamp_idx;
use crate::transform::tap;
use crate::transform::unpremultiply_spec;
use crate::geometry::trunc_div_signed;
use crate::trunc_div;

verus! {

broadcast use vstd::seq_lib::group_to_multiset_ensures, vstd::multiset::group_multiset_axioms;

/// The bounding box of a buffer in which every pixel qualifies is the full
/// frame: origin at zero, the buffer's own width and height.
pub proof fn lemma_full_buffer_bounds(img: &PixelBuffer, threshold: u8, b: BoundingBox)
    requires
        img.wf(),
        img.width >= 1,
        img.height >= 1,
        forall|x: int, y: int|
            0 <= x < img.width && 0 <= y < img.height ==> opaque_at(img, threshold, x, y),
        is_tight_bounds(img, threshold, b),
    ensures
        b == (BoundingBox { x: 0, y: 0, width: img.width, height: img.height }),
{
    assert(opaque_at(img, threshold, 0, 0));
    assert(opaque_at(img, threshold, img.width - 1, img.height - 1));
}

/// The weighted median of a single line with positive support is exactly
/// that line's angle.
pub proof fn lemma_single_line_median(lines: Seq<DetectedLine>, angle: int)
    requires
        lines.len() == 1,
        lines[0].length > 0,
        is_weighted_median(lines, angle),
    ensures
        angle == lines[0].angle_millideg,
{
    let t = choose|t: Seq<DetectedLine>|
        t.to_multiset() == lines.to_multiset() && crate::detection::sorted_by_angle(t)
            && walk_median(t, 0, 0, seq_weight(lines)) == Some(angle);
    assert(t.to_multiset().len() == lines.to_multiset().len());
    assert(t.len() == 1);
    assert(lines.to_multiset().contains(lines[0]));
    assert(t.to_multiset().contains(t[0]));
    assert(lines.to_multiset().count(t[0]) > 0);
    assert(lines.contains(t[0]));
    assert(t[0] == lines[0]);
    assert(seq_weight(lines) == seq_weight(lines.drop_last()) + lines.last().length);
    assert(lines.drop_last().len() == 0);
    assert(walk_median(t, 0, 0, seq_weight(lines)) == Some(t[0].angle_millideg as int));
}

/// Multiplying by a positive factor and dividing by it again is the
/// identity, for floored and for toward-zero division alike.
pub proof fn lemma_mul_div_cancel(x: int, k: int)
    requires
        k > 0,
    ensures
        x >= 0 ==> (x * k) / k == x,
        trunc_div_signed(x * k, k) == x,
        trunc_div(x * k, k) == x,
{
    assert((x >= 0 ==> (x * k) / k == x) && trunc_div_signed(x * k, k) == x && trunc_div(x * k, k)
        == x) by (nonlinear_arith)
        requires
            k > 0,
            trunc_div_signed(x * k, k) == (if x * k >= 0 {
                (x * k) / k
            } else {
                -((-(x * k)) / k)
            }),
            trunc_div(x * k, k) == (if x * k >= 0 {
                (x * k) / k
            } else {
                -((-(x * k)) / k)
            }),
    ;
}

/// Premultiplying a pixel with positive alpha, carrying it to the
/// interpolator's scale, and unpremultiplying returns the pixel exactly:
/// the premultiplied samples are exact rationals, so the round trip loses
/// nothing. Fully transparent pixels come back fully transparent.
pub proof fn lemma_premul_unpremul_roundtrip(c0: int, c1: int, c2: int, a: int)
    requires
        0 <= c0 <= 255,
        0 <= c1 <= 255,
        0 <= c2 <= 255,
        0 <= a <= 255,
    ensures
        a >= 1 ==> unpremultiply_spec(
            0x100000000 * (c0 * a),
            0x100000000 * (c1 * a),
            0x100000000 * (c2 * a),
            0x100000000 * (a * 255),
        ) == (c0, c1, c2, a),
        a == 0 ==> unpremultiply_spec(
            0x100000000 * (c0 * a),
            0x100000000 * (c1 * a),
            0x100000000 * (c2 * a),
            0x100000000 * (a * 255),
        ) == (0int, 0int, 0int, 0int),
{
    if a >= 1 {
        let k = 0x100000000 * (a * 255);
        assert(k >= 0xFF00000000) by (nonlinear_arith)
            requires
                a >= 1,
                k == 0x100000000 * (a * 255),
        ;
        assert(0x100000000 * (c1 * a) * 255 == c1 * k && 0x100000000 * (c2 * a) * 255 == c2 * k
            && 0x100000000 * (c0 * a) * 255 == c0 * k && k / 0xFF00000000 == a)
            by (nonlinear_arith)
            requires
                k == 0x100000000 * (a * 255),
                0 <= a <= 255,
        ;
        lemma_mul_div_cancel(c0, k);
        lemma_mul_div_cancel(c1, k);
        lemma_mul_div_cancel(c2, k);
        assert(trunc_div_signed(0x100000000 * (c0 * a) * 255, k) == c0);
        assert(trunc_div_signed(0x100000000 * (c1 * a) * 255, k) == c1);
        assert(trunc_div_signed(0x100000000 * (c2 * a) * 255, k) == c2);
        assert(clamp_idx(c0, 255) == c0 && clamp_idx(c1, 255) == c1 && clamp_idx(c2, 255) == c2
            && clamp_idx(a, 255) == a);
    } else {
        assert(0x100000000 * (a * 255) == 0) by (nonlinear_arith)
            requires
                a == 0,
        ;
    }
}

} // verus!

use crate::buffer::find_bounds_spec;
use crate::buffer::is_crop_of;
use crate::geometry::AffineTransform;
use crate::geometry::invert_spec;
use crate::geometry::output_bounds_spec;
use crate::geometry::transform_point_x_spec;
use crate::geometry::transform_point_y_spec;
use crate::transform::clamped_dim_spec;
use crate::transform::cleaned_chan;
use crate::transform::is_halo;
use crate::transform::is_premul_of;
use crate::transform::resample_witness;
use crate::transform::resampled_chan_spec;
use crate::transform::rescaled_chan_spec;
use crate::transform::resize_dim_spec;
use crate::transform::resize_src_spec;
use crate::transform::clamp_coord_spec;

verus! {

/// Bicubic interpolation at an exact pixel-grid position reproduces that
/// pixel's premultiplied sample, scaled by the weight product of one.
pub proof fn lemma_bicubic_at_integer(pm: &PremulBuffer, ox: int, oy: int, c: int)
    requires
        pm.wf(),
        1 <= pm.width,
        1 <= pm.height,
        0 <= ox < pm.width,
        0 <= oy < pm.height,
        0 <= c < 4,
    ensures
        bicubic_chan_spec(pm, ox * 65536, oy * 65536, c) == 0x100000000 * pm.at(ox, oy, c),
{
    let x = ox * 65536;
    let y = oy * 65536;
    lemma_mul_div_cancel(ox, 65536);
    lemma_mul_div_cancel(oy, 65536);
    assert(65536 * ox == ox * 65536 && 65536 * oy == oy * 65536) by (nonlinear_arith);
    assert(x / 65536 == ox && y / 65536 == oy);
    assert(x % 65536 == 0 && y % 65536 == 0) by (nonlinear_arith)
        requires
            x == ox * 65536,
            y == oy * 65536,
            ox >= 0,
            oy >= 0,
            x / 65536 == ox,
            y / 65536 == oy,
    ;
    let w = cubic_weights_spec(0);
    assert(w.0 == 0 && w.1 == 65536 && w.2 == 0 && w.3 == 0);
    let xf = ox;
    let yf = oy;
    assert(clamp_idx(xf + 1 - 1, pm.width - 1) == ox);
    assert(clamp_idx(yf + 1 - 1, pm.height - 1) == oy);
    assert forall|j: int| 0 <= j < 4 implies #[trigger] bicubic_row_spec(pm, xf, yf, w, j, c)
        == 65536 * tap(pm, xf, yf, 1, j, c) by {
        assert(0 * tap(pm, xf, yf, 0, j, c) == 0);
        assert(0 * tap(pm, xf, yf, 2, j, c) == 0);
        assert(0 * tap(pm, xf, yf, 3, j, c) == 0);
    }
    assert(tap(pm, xf, yf, 1, 1, c) == pm.at(ox, oy, c));
    assert(bicubic_chan_spec(pm, x, y, c) == 65536 * bicubic_row_spec(pm, xf, yf, w, 1, c)) by {
        assert(0 * bicubic_row_spec(pm, xf, yf, w, 0, c) == 0);
        assert(0 * bicubic_row_spec(pm, xf, yf, w, 2, c) == 0);
        assert(0 * bicubic_row_spec(pm, xf, yf, w, 3, c) == 0);
    }
    assert(65536 * (65536 * pm.at(ox, oy, c)) == 0x100000000 * pm.at(ox, oy, c))
        by (nonlinear_arith);
}

/// Every pixel of the buffer carries the stated alpha, and its color is
/// zero wherever the alpha is zero.
pub open spec fn fully_opaque(img: &PixelBuffer) -> bool {
    forall|x: int, y: int|
        0 <= x < img.width && 0 <= y < img.height ==> #[trigger] img.alpha_at(x, y) == 255
}

/// Transparent pixels carry no hidden color: wherever alpha is zero, every
/// channel is zero.
pub open spec fn transparent_is_zeroed(img: &PixelBuffer) -> bool {
    forall|x: int, y: int, c: int|
        0 <= x < img.width && 0 <= y < img.height && 0 <= c < 4 && img.alpha_at(x, y) == 0
            ==> #[trigger] img.chan(x, y, c) == 0
}

} // verus!

verus! {

proof fn lemma_identity_tp(x: int, y: int)
    requires
        -0x1000000000000 <= x <= 0x1000000000000,
        -0x1000000000000 <= y <= 0x1000000000000,
    ensures
        transform_point_x_spec(AffineTransform::identity_spec(), x, y) == x,
        transform_point_y_spec(AffineTransform::identity_spec(), x, y) == y,
{
    lemma_mul_div_cancel(x, 65536);
    lemma_mul_div_cancel(y, 65536);
    assert(65536 * x == x * 65536 && 65536 * y == y * 65536) by (nonlinear_arith);
    assert(0 * y == 0 && 0 * x == 0);
}

proof fn lemma_identity_pixel(pm: &PremulBuffer, img: &PixelBuffer, ox: int, oy: int, c: int)
    requires
        img.wf(),
        1 <= img.width <= 10000,
        1 <= img.height <= 10000,
        fully_opaque(img),
        is_premul_of(pm, img),
        0 <= ox < img.width,
        0 <= oy < img.height,
        0 <= c < 4,
    ensures
        resampled_chan_spec(
            pm,
            AffineTransform::identity_spec(),
            0,
            0,
            ox,
            oy,
            c,
        ) == img.chan(ox, oy, c),
{
    let idm = AffineTransform::identity_spec();
    let w = img.width as int;
    let h = img.height as int;
    let dx = ox * 65536 + 0;
    let dy = oy * 65536 + 0;
    assert(0 <= dx <= w * 65536 && 0 <= dy <= h * 65536 && dx <= 0x1000000000000 && dy
        <= 0x1000000000000) by (nonlinear_arith)
        requires
            0 <= ox < w,
            0 <= oy < h,
            dx == ox * 65536,
            dy == oy * 65536,
            w <= 10000,
            h <= 10000,
    ;
    lemma_identity_tp(dx, dy);
    lemma_bicubic_at_integer(pm, ox, oy, 0);
    lemma_bicubic_at_integer(pm, ox, oy, 1);
    lemma_bicubic_at_integer(pm, ox, oy, 2);
    lemma_bicubic_at_integer(pm, ox, oy, 3);
    assert(img.alpha_at(ox, oy) == 255);
    assert(pm.at(ox, oy, 3) == 255 * 255);
    lemma_premul_unpremul_roundtrip(
        img.chan(ox, oy, 0) as int,
        img.chan(ox, oy, 1) as int,
        img.chan(ox, oy, 2) as int,
        255,
    );
}

proof fn lemma_identity_invert_and_bounds(w: int, h: int)
    requires
        1 <= w <= 10000,
        1 <= h <= 10000,
    ensures
        invert_spec(AffineTransform::identity_spec()) == Some(AffineTransform::identity_spec()),
        output_bounds_spec(AffineTransform::identity_spec(), w, h) == (w, h, 0int, 0int),
{
    let idm = AffineTransform::identity_spec();
    lemma_mul_div_cancel(65536, 0x100000000);
    lemma_mul_div_cancel(0, 0x100000000);
    lemma_mul_div_cancel(0, 65536);
    assert(65536 * 0x100000000 == 0x100000000 * 65536) by (nonlinear_arith);
    assert(idm.m00 * idm.m11 - idm.m01 * idm.m10 == 0x100000000) by (nonlinear_arith)
        requires
            idm.m00 == 0x10000,
            idm.m01 == 0,
            idm.m10 == 0,
            idm.m11 == 0x10000,
    ;
    assert(invert_spec(idm) == Some(idm)) by {
        assert(trunc_div_signed(idm.m11 * 0x100000000, 0x100000000) == 65536);
        assert(trunc_div_signed(-idm.m01 * 0x100000000, 0x100000000) == 0);
        assert(trunc_div_signed(-idm.m10 * 0x100000000, 0x100000000) == 0);
        assert(trunc_div_signed(idm.m00 * 0x100000000, 0x100000000) == 65536);
        assert(trunc_div((65536 * 0 + 0 * 0) as int, 65536) == 0);
    }
    assert(0 <= w * 65536 <= 0x1000000000000 && 0 <= h * 65536 <= 0x1000000000000)
        by (nonlinear_arith)
        requires
            1 <= w <= 10000,
            1 <= h <= 10000,
    ;
    lemma_identity_tp(0, 0);
    lemma_identity_tp(w * 65536, 0);
    lemma_identity_tp(0, h * 65536);
    lemma_identity_tp(w * 65536, h * 65536);
    assert((w * 65536 - 0 + 65535) / 65536 == w && (h * 65536 - 0 + 65535) / 65536 == h)
        by (nonlinear_arith)
        requires
            w >= 0,
            h >= 0,
    ;
}

/// Resampling through the identity transform preserves a fully opaque
/// buffer exactly: any result that meets the resampler's contract for the
/// identity matrix equals the source, pixel for pixel.
#[verifier::rlimit(100)]
#[verifier::spinoff_prover]
pub proof fn lemma_identity_transform_preserves(img: &PixelBuffer, r: &PixelBuffer)
    requires
        img.wf(),
        1 <= img.width <= 10000,
        1 <= img.height <= 10000,
        fully_opaque(img),
        r.wf(),
        invert_spec(AffineTransform::identity_spec()) matches Some(inv) ==> ({
            let ob = output_bounds_spec(
                AffineTransform::identity_spec(),
                img.width as int,
                img.height as int,
            );
            &&& r.width == clamped_dim_spec(ob.0, img.width as int)
            &&& r.height == clamped_dim_spec(ob.1, img.height as int)
            &&& exists|pm: PremulBuffer, mid: PixelBuffer|
                resample_witness(pm, mid, img, inv, ob.2, ob.3, r)
        }),
    ensures
        r.same_image(img),
{
    let idm = AffineTransform::identity_spec();
    let w = img.width as int;
    let h = img.height as int;
    lemma_identity_invert_and_bounds(w, h);
    let ob = output_bounds_spec(idm, w, h);
    assert(ob.0 == w && ob.1 == h && ob.2 == 0 && ob.3 == 0);
    assert(w <= 3 * w && h <= 3 * h);
    assert(r.width == w && r.height == h);

    let (pm, mid) = choose|pm: PremulBuffer, mid: PixelBuffer|
        resample_witness(pm, mid, img, idm, ob.2, ob.3, r);

    assert forall|ox: int, oy: int, c: int|
        0 <= ox < w && 0 <= oy < h && 0 <= c < 4 implies #[trigger] mid.chan(ox, oy, c)
        == img.chan(ox, oy, c) by {
        lemma_identity_pixel(&pm, img, ox, oy, c);
        assert(mid.chan(ox, oy, c) == resampled_chan_spec(&pm, idm, 0, 0, ox, oy, c));
    }
    assert forall|ox: int, oy: int, c: int|
        0 <= ox < w && 0 <= oy < h && 0 <= c < 4 implies #[trigger] r.chan(ox, oy, c)
        == img.chan(ox, oy, c) by {
        assert(img.alpha_at(ox, oy) == 255);
        assert(mid.chan(ox, oy, 3) == img.chan(ox, oy, 3));
        assert(mid.alpha_at(ox, oy) == 255);
        assert(!(mid.alpha_at(ox, oy) < 32));
        assert(!is_halo(&mid, ox, oy, 32, 3));
        assert(r.chan(ox, oy, c) == cleaned_chan(&mid, ox, oy, c, 32, 3));
        assert(cleaned_chan(&mid, ox, oy, c, 32, 3) == mid.chan(ox, oy, c));
    }
}

} // verus!

verus! {

proof fn lemma_unit_scale_coord(o: int, m: int)
    requires
        0 <= o <= 20000,
        1 <= m <= 20000,
    ensures
        clamp_coord_spec(resize_src_spec(o, m, m)) == o * 65536,
{
    assert((2 * o + 1) * m * 65536 == ((2 * o + 1) * 32768) * (2 * m)) by (nonlinear_arith);
    lemma_mul_div_cancel((2 * o + 1) * 32768, 2 * m);
    assert(((2 * o + 1) * 32768) * (2 * m) / (2 * m) == (2 * o + 1) * 32768);
    assert((2 * o + 1) * 32768 - 32768 == o * 65536) by (nonlinear_arith);
    assert(0 <= o * 65536 <= 0x400000000 && -0x400000000 <= o * 65536) by (nonlinear_arith)
        requires
            0 <= o <= 20000,
    ;
}

proof fn lemma_unit_scale_pixel(pm: &PremulBuffer, img: &PixelBuffer, m: int, ox: int, oy: int, c: int)
    requires
        img.wf(),
        1 <= img.width <= 20000,
        1 <= img.height <= 20000,
        transparent_is_zeroed(img),
        is_premul_of(pm, img),
        1 <= m <= 20000,
        0 <= ox < img.width,
        0 <= oy < img.height,
        0 <= c < 4,
    ensures
        rescaled_chan_spec(pm, m, m, ox, oy, c) == img.chan(ox, oy, c),
{
    lemma_unit_scale_coord(ox, m);
    lemma_unit_scale_coord(oy, m);
    lemma_bicubic_at_integer(pm, ox, oy, 0);
    lemma_bicubic_at_integer(pm, ox, oy, 1);
    lemma_bicubic_at_integer(pm, ox, oy, 2);
    lemma_bicubic_at_integer(pm, ox, oy, 3);
    let a = img.alpha_at(ox, oy) as int;
    assert(pm.at(ox, oy, 3) == a * 255);
    lemma_premul_unpremul_roundtrip(
        img.chan(ox, oy, 0) as int,
        img.chan(ox, oy, 1) as int,
        img.chan(ox, oy, 2) as int,
        a,
    );
    if a == 0 {
        assert(img.chan(ox, oy, c) == 0);
    }
}

/// Cropping an already tight buffer and rescaling it to its own longest
/// side changes no pixel: any results that meet the contracts of the crop
/// and of the rescale, chained at the buffer's own size, reproduce the
/// buffer exactly. Transparent pixels are assumed to carry no hidden
/// color, as every buffer the resampler produces satisfies.
#[verifier::rlimit(100)]
#[verifier::spinoff_prover]
pub proof fn lemma_crop_resize_idempotent(
    img: &PixelBuffer,
    cropped: &PixelBuffer,
    r: &PixelBuffer,
    threshold: u8,
    target: u32,
)
    requires
        img.wf(),
        1 <= img.width <= 20000,
        1 <= img.height <= 20000,
        transparent_is_zeroed(img),
        is_tight_bounds(
            img,
            threshold,
            BoundingBox { x: 0, y: 0, width: img.width, height: img.height },
        ),
        target == (if img.width >= img.height {
            img.width
        } else {
            img.height
        }),
        cropped.wf(),
        match find_bounds_spec(img, threshold) {
            Some(b) => is_crop_of(img, b, cropped),
            None => cropped.same_image(img),
        },
        r.wf(),
        (cropped.width == 0 || cropped.height == 0) ==> r.same_image(cropped),
        (cropped.width >= 1 && cropped.height >= 1) ==> ({
            let maxdim = if cropped.width >= cropped.height {
                cropped.width as int
            } else {
                cropped.height as int
            };
            &&& r.width == resize_dim_spec(cropped.width as int, maxdim, target as int)
            &&& r.height == resize_dim_spec(cropped.height as int, maxdim, target as int)
            &&& exists|pm: PremulBuffer|
                is_premul_of(&pm, cropped) && (forall|ox: int, oy: int, c: int|
                    0 <= ox < r.width && 0 <= oy < r.height && 0 <= c < 4 ==> #[trigger] r.chan(
                        ox,
                        oy,
                        c,
                    ) == rescaled_chan_spec(&pm, maxdim, target as int, ox, oy, c))
        }),
    ensures
        r.same_image(img),
{
    let w = img.width as int;
    let h = img.height as int;
    let fb = BoundingBox { x: 0, y: 0, width: img.width, height: img.height };
    crate::buffer::lemma_tight_bounds_unique(img, threshold, fb);
    assert(find_bounds_spec(img, threshold) == Some(fb));
    assert(is_crop_of(img, fb, cropped));
    assert(cropped.width == w && cropped.height == h);
    assert forall|x: int, y: int, c: int|
        0 <= x < w && 0 <= y < h && 0 <= c < 4 implies #[trigger] cropped.chan(x, y, c)
        == img.chan(x, y, c) by {
        assert(cropped.chan(x, y, c) == img.chan(0 + x, 0 + y, c));
    }
    let m = if cropped.width >= cropped.height {
        cropped.width as int
    } else {
        cropped.height as int
    };
    assert(m == target);
    assert((2 * w * m + m) / (2 * m) == w && (2 * h * m + m) / (2 * m) == h) by (nonlinear_arith)
        requires
            1 <= w,
            1 <= h,
            1 <= m,
    ;
    assert(resize_dim_spec(w, m, m) == w && resize_dim_spec(h, m, m) == h);
    assert(r.width == w && r.height == h);
    let pm = choose|pm: PremulBuffer|
        is_premul_of(&pm, cropped) && (forall|ox: int, oy: int, c: int|
            0 <= ox < r.width && 0 <= oy < r.height && 0 <= c < 4 ==> #[trigger] r.chan(ox, oy, c)
                == rescaled_chan_spec(&pm, m, target as int, ox, oy, c));
    assert forall|ox: int, oy: int, c: int|
        0 <= ox < w && 0 <= oy < h && 0 <= c < 4 implies #[trigger] r.chan(ox, oy, c) == img.chan(
        ox,
        oy,
        c,
    ) by {
        assert(transparent_is_zeroed(cropped)) by {
            assert forall|x: int, y: int, ci: int|
                0 <= x < w && 0 <= y < h && 0 <= ci < 4 && cropped.alpha_at(x, y)
                    == 0 implies #[trigger] cropped.chan(x, y, ci) == 0 by {
                assert(cropped.chan(x, y, 3) == img.chan(x, y, 3));
                assert(img.alpha_at(x, y) == 0);
                assert(img.chan(x, y, ci) == 0);
            }
        }
        lemma_unit_scale_pixel(&pm, cropped, m, ox, oy, c);
        assert(r.chan(ox, oy, c) == rescaled_chan_spec(&pm, m, target as int, ox, oy, c));
    }
}

} // verus!
