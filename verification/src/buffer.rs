use vstd::prelude::*;

verus! {

/// A width x height grid of RGBA samples, 8 bits per channel, straight
/// (non-premultiplied) alpha, stored row-major with 4 bytes per pixel.
pub struct PixelBuffer {
    pub width: usize,
    pub height: usize,
    pub data: Vec<u8>,
}

/// A width x height grid of single-channel 8-bit samples, row-major.
pub struct GrayBuffer {
    pub width: usize,
    pub height: usize,
    pub data: Vec<u8>,
}

/// The minimal rectangle that holds all qualifying content of a buffer,
/// in pixel coordinates; `width` and `height` are always positive.
#[derive(Clone, Copy, PartialEq, Eq, Structural, Debug)]
pub struct BoundingBox {
    pub x: usize,
    pub y: usize,
    pub width: usize,
    pub height: usize,
}

pub(crate) proof fn lemma_pixel_index(w: int, h: int, x: int, y: int)
    requires
        0 <= x < w,
        0 <= y < h,
    ensures
        0 <= y * w + x < w * h,
        4 * (y * w + x) + 3 < 4 * w * h,
        w * h <= 4 * w * h,
        4 * (w * h) == 4 * w * h,
{
    assert(0 <= y * w + x < w * h && 4 * (y * w + x) + 3 < 4 * w * h && w * h <= 4 * w * h && 4 * (
    w * h) == 4 * w * h) by (nonlinear_arith)
        requires
            0 <= x < w,
            0 <= y < h,
    ;
}

pub(crate) proof fn lemma_quad(w: int, h: int)
    requires
        0 <= w,
        0 <= h,
    ensures
        w * h <= 4 * w * h,
        4 * (w * h) == 4 * w * h,
{
    assert(w * h <= 4 * w * h && 4 * (w * h) == 4 * w * h) by (nonlinear_arith)
        requires
            0 <= w,
            0 <= h,
    ;
}

proof fn lemma_chan_index_injective(w: int, h: int, x1: int, y1: int, c1: int, x2: int, y2: int, c2: int)
    requires
        0 <= x1 < w,
        0 <= y1 < h,
        0 <= c1 < 4,
        0 <= x2 < w,
        0 <= y2 < h,
        0 <= c2 < 4,
        4 * (y1 * w + x1) + c1 == 4 * (y2 * w + x2) + c2,
    ensures
        x1 == x2,
        y1 == y2,
        c1 == c2,
{
    assert(x1 == x2 && y1 == y2 && c1 == c2) by (nonlinear_arith)
        requires
            0 <= x1 < w,
            0 <= y1 < h,
            0 <= c1 < 4,
            0 <= x2 < w,
            0 <= y2 < h,
            0 <= c2 < 4,
            4 * (y1 * w + x1) + c1 == 4 * (y2 * w + x2) + c2,
    ;
}

impl PixelBuffer {
    /// The buffer holds exactly 4 bytes for every pixel.
    pub open spec fn wf(&self) -> bool {
        self.data.len() == 4 * self.width * self.height
    }

    /// Channel `c` of the pixel at `(x, y)`: 0 red, 1 green, 2 blue, 3 alpha.
    pub open spec fn chan(&self, x: int, y: int, c: int) -> u8 {
        self.data[4 * (y * self.width + x) + c]
    }

    pub open spec fn alpha_at(&self, x: int, y: int) -> u8 {
        self.chan(x, y, 3)
    }

    /// Two buffers hold the same image: same shape, same samples.
    pub open spec fn same_image(&self, other: &PixelBuffer) -> bool {
        &&& self.width == other.width
        &&& self.height == other.height
        &&& forall|x: int, y: int, c: int|
            0 <= x < self.width && 0 <= y < self.height && 0 <= c < 4 ==> self.chan(x, y, c)
                == other.chan(x, y, c)
    }

    /// A fully transparent buffer of the given dimensions.
    pub fn new(width: usize, height: usize) -> (r: PixelBuffer)
        requires
            4 * width * height <= usize::MAX,
        ensures
            r.wf(),
            r.width == width,
            r.height == height,
            forall|i: int| 0 <= i < r.data.len() ==> r.data[i] == 0u8,
    {
        proof {
            lemma_quad(width as int, height as int);
        }
        let m = width * height;
        let n = 4 * m;
        PixelBuffer { width, height, data: vec![0u8; n] }
    }

    pub fn get(&self, x: usize, y: usize, c: usize) -> (r: u8)
        requires
            self.wf(),
            x < self.width,
            y < self.height,
            c < 4,
        ensures
            r == self.chan(x as int, y as int, c as int),
    {
        proof {
            lemma_pixel_index(self.width as int, self.height as int, x as int, y as int);
        }
        self.data[4 * (y * self.width + x) + c]
    }

    pub fn set(&mut self, x: usize, y: usize, c: usize, v: u8)
        requires
            old(self).wf(),
            x < old(self).width,
            y < old(self).height,
            c < 4,
        ensures
            final(self).wf(),
            final(self).width == old(self).width,
            final(self).height == old(self).height,
            final(self).chan(x as int, y as int, c as int) == v,
            forall|x2: int, y2: int, c2: int|
                0 <= x2 < old(self).width && 0 <= y2 < old(self).height && 0 <= c2 < 4 && !(x2 == x
                    && y2 == y && c2 == c) ==> final(self).chan(x2, y2, c2) == old(self).chan(
                    x2,
                    y2,
                    c2,
                ),
    {
        proof {
            lemma_pixel_index(self.width as int, self.height as int, x as int, y as int);
        }
        let idx = 4 * (y * self.width + x) + c;
        self.data[idx] = v;
        proof {
            assert forall|x2: int, y2: int, c2: int|
                0 <= x2 < self.width && 0 <= y2 < self.height && 0 <= c2 < 4 && !(x2 == x && y2
                    == y && c2 == c) implies self.chan(x2, y2, c2) == old(self).chan(
                x2,
                y2,
                c2,
            ) by {
                lemma_pixel_index(self.width as int, self.height as int, x2, y2);
                if 4 * (y2 * self.width + x2) + c2 == idx {
                    lemma_chan_index_injective(
                        self.width as int,
                        self.height as int,
                        x2,
                        y2,
                        c2,
                        x as int,
                        y as int,
                        c as int,
                    );
                }
            }
        }
    }
}

impl GrayBuffer {
    /// The buffer holds exactly 1 byte for every pixel.
    pub open spec fn wf(&self) -> bool {
        self.data.len() == self.width * self.height
    }

    /// The sample at `(x, y)`.
    pub open spec fn at(&self, x: int, y: int) -> u8 {
        self.data[y * self.width + x]
    }

    pub fn get(&self, x: usize, y: usize) -> (r: u8)
        requires
            self.wf(),
            x < self.width,
            y < self.height,
        ensures
            r == self.at(x as int, y as int),
    {
        proof {
            lemma_pixel_index(self.width as int, self.height as int, x as int, y as int);
        }
        self.data[y * self.width + x]
    }
}

/// The pixel at `(x, y)` counts as content: its alpha is at or above the threshold.
pub open spec fn opaque_at(buf: &PixelBuffer, threshold: u8, x: int, y: int) -> bool {
    buf.alpha_at(x, y) >= threshold
}

/// A bounding box is exactly the minimal rectangle holding every qualifying
/// pixel of the buffer.
pub open spec fn is_tight_bounds(buf: &PixelBuffer, threshold: u8, b: BoundingBox) -> bool {
    &&& b.width >= 1
    &&& b.height >= 1
    &&& b.x + b.width <= buf.width
    &&& b.y + b.height <= buf.height
    &&& forall|x: int, y: int|
        0 <= x < buf.width && 0 <= y < buf.height && opaque_at(buf, threshold, x, y) ==> b.x <= x
            < b.x + b.width && b.y <= y < b.y + b.height
    &&& exists|y: int| 0 <= y < buf.height && #[trigger] opaque_at(buf, threshold, b.x as int, y)
    &&& exists|x: int, y: int|
        x == b.x + b.width - 1 && 0 <= y < buf.height && #[trigger] opaque_at(buf, threshold, x, y)
    &&& exists|x: int| 0 <= x < buf.width && #[trigger] opaque_at(buf, threshold, x, b.y as int)
    &&& exists|x: int, y: int|
        y == b.y + b.height - 1 && 0 <= x < buf.width && #[trigger] opaque_at(buf, threshold, x, y)
}

/// Scan the buffer for the minimal rectangle that holds every pixel whose
/// alpha is at or above `alpha_threshold`; `None` means no such pixel exists.
pub fn find_sprite_bounds(img: &PixelBuffer, alpha_threshold: u8) -> (r: Option<BoundingBox>)
    requires
        img.wf(),
    ensures
        match r {
            Some(b) => is_tight_bounds(img, alpha_threshold, b),
            None => forall|x: int, y: int|
                0 <= x < img.width && 0 <= y < img.height ==> !opaque_at(
                    img,
                    alpha_threshold,
                    x,
                    y,
                ),
        },
{
    let mut found = false;
    let mut min_x: usize = 0;
    let mut max_x: usize = 0;
    let mut min_y: usize = 0;
    let mut max_y: usize = 0;

    let mut y: usize = 0;
    while y < img.height
        invariant
            img.wf(),
            y <= img.height,
            !found ==> forall|xi: int, yi: int|
                0 <= xi < img.width && 0 <= yi < y ==> !opaque_at(img, alpha_threshold, xi, yi),
            found ==> {
                &&& min_x < img.width && max_x < img.width
                &&& min_y < img.height && max_y < img.height
                &&& min_x <= max_x && min_y <= max_y && min_y < y
                &&& forall|xi: int, yi: int|
                    0 <= xi < img.width && 0 <= yi < y && opaque_at(img, alpha_threshold, xi, yi)
                        ==> min_x <= xi <= max_x && min_y <= yi <= max_y
                &&& exists|yi: int| 0 <= yi < y && opaque_at(img, alpha_threshold, min_x as int, yi)
                &&& exists|yi: int| 0 <= yi < y && opaque_at(img, alpha_threshold, max_x as int, yi)
                &&& exists|xi: int| 0 <= xi < img.width && opaque_at(img, alpha_threshold, xi, min_y as int)
                &&& exists|xi: int| 0 <= xi < img.width && opaque_at(img, alpha_threshold, xi, max_y as int)
            },
        decreases img.height - y,
    {
        let mut x: usize = 0;
        while x < img.width
            invariant
                img.wf(),
                y < img.height,
                x <= img.width,
                !found ==> (forall|xi: int, yi: int|
                    0 <= xi < img.width && 0 <= yi < y ==> !opaque_at(img, alpha_threshold, xi, yi))
                    && (forall|xi: int|
                    0 <= xi < x ==> !opaque_at(img, alpha_threshold, xi, y as int)),
                found ==> {
                    &&& min_x < img.width && max_x < img.width
                    &&& min_y < img.height && max_y < img.height
                    &&& min_x <= max_x && min_y <= max_y && min_y <= y
                    &&& forall|xi: int, yi: int|
                        0 <= xi < img.width && 0 <= yi < y && opaque_at(
                            img,
                            alpha_threshold,
                            xi,
                            yi,
                        ) ==> min_x <= xi <= max_x && min_y <= yi <= max_y
                    &&& forall|xi: int|
                        0 <= xi < x && opaque_at(img, alpha_threshold, xi, y as int) ==> min_x <= xi
                            <= max_x && min_y <= y <= max_y
                    &&& exists|yi: int|
                        0 <= yi <= y && opaque_at(img, alpha_threshold, min_x as int, yi)
                    &&& exists|yi: int|
                        0 <= yi <= y && opaque_at(img, alpha_threshold, max_x as int, yi)
                    &&& exists|xi: int|
                        0 <= xi < img.width && opaque_at(img, alpha_threshold, xi, min_y as int)
                    &&& exists|xi: int|
                        0 <= xi < img.width && opaque_at(img, alpha_threshold, xi, max_y as int)
                },
            decreases img.width - x,
        {
            let a = img.get(x, y, 3);
            if a >= alpha_threshold {
                proof {
                    assert(opaque_at(img, alpha_threshold, x as int, y as int));
                }
                if !found {
                    found = true;
                    min_x = x;
                    max_x = x;
                    min_y = y;
                    max_y = y;
                } else {
                    if x < min_x {
                        min_x = x;
                    }
                    if x > max_x {
                        max_x = x;
                    }
                    if y < min_y {
                        min_y = y;
                    }
                    if y > max_y {
                        max_y = y;
                    }
                }
            }
            x += 1;
        }
        y += 1;
    }

    if found {
        let b = BoundingBox { x: min_x, y: min_y, width: max_x - min_x + 1, height: max_y - min_y + 1 };
        proof {
            let yw1 = choose|yi: int|
                0 <= yi < img.height && #[trigger] opaque_at(img, alpha_threshold, min_x as int, yi);
            assert(opaque_at(img, alpha_threshold, b.x as int, yw1));
            let yw2 = choose|yi: int|
                0 <= yi < img.height && #[trigger] opaque_at(img, alpha_threshold, max_x as int, yi);
            assert(b.x + b.width - 1 == max_x);
            assert(opaque_at(img, alpha_threshold, max_x as int, yw2));
            let xw1 = choose|xi: int|
                0 <= xi < img.width && #[trigger] opaque_at(img, alpha_threshold, xi, min_y as int);
            assert(opaque_at(img, alpha_threshold, xw1, b.y as int));
            let xw2 = choose|xi: int|
                0 <= xi < img.width && #[trigger] opaque_at(img, alpha_threshold, xi, max_y as int);
            assert(b.y + b.height - 1 == max_y);
            assert(opaque_at(img, alpha_threshold, xw2, max_y as int));
        }
        Some(b)
    } else {
        None
    }
}

pub(crate) proof fn lemma_prod_mono(a: int, b: int, w: int, h: int)
    requires
        0 <= a <= w,
        0 <= b <= h,
    ensures
        a * b <= w * h,
        4 * a * b <= 4 * w * h,
        4 * (a * b) == 4 * a * b,
{
    assert(a * b <= w * h && 4 * a * b <= 4 * w * h && 4 * (a * b) == 4 * a * b)
        by (nonlinear_arith)
        requires
            0 <= a <= w,
            0 <= b <= h,
    ;
}

pub(crate) proof fn lemma_row_order(w: int, x1: int, y1: int, x2: int, y2: int)
    requires
        0 <= x1 < w,
        0 <= x2,
        y1 < y2,
        0 <= y1,
    ensures
        y1 * w + x1 < y2 * w + x2,
{
    assert(y1 * w + x1 < y2 * w + x2) by (nonlinear_arith)
        requires
            0 <= x1 < w,
            0 <= x2,
            y1 < y2,
            0 <= y1,
    ;
}

/// Integer luminance of an RGB triple: 0.299 R + 0.587 G + 0.114 B, scaled by
/// 1000 and rounded to the nearest whole channel value.
pub open spec fn luma_of(r: u8, g: u8, b: u8) -> int {
    (299 * r + 587 * g + 114 * b + 500) / 1000
}

/// The grayscale sample the masked conversion owes for the pixel at (x, y):
/// its luminance where the pixel qualifies as content, full white elsewhere.
pub open spec fn masked_gray_at(img: &PixelBuffer, threshold: u8, x: int, y: int) -> u8 {
    if opaque_at(img, threshold, x, y) {
        luma_of(img.chan(x, y, 0), img.chan(x, y, 1), img.chan(x, y, 2)) as u8
    } else {
        255u8
    }
}

/// Convert a buffer to grayscale for edge analysis: qualifying pixels carry
/// their luminance, pixels below the alpha threshold are forced to background
/// white so that transparent regions generate no spurious edges.
pub fn to_grayscale_masked(img: &PixelBuffer, alpha_threshold: u8) -> (r: GrayBuffer)
    requires
        img.wf(),
    ensures
        r.wf(),
        r.width == img.width,
        r.height == img.height,
        forall|x: int, y: int|
            0 <= x < img.width && 0 <= y < img.height ==> r.at(x, y) == masked_gray_at(
                img,
                alpha_threshold,
                x,
                y,
            ),
{
    let w = img.width;
    let h = img.height;
    proof {
        lemma_quad(w as int, h as int);
    }
    let mut data: Vec<u8> = Vec::new();
    let mut y: usize = 0;
    while y < h
        invariant
            img.wf(),
            w == img.width,
            h == img.height,
            4 * (w * h) <= usize::MAX,
            y <= h,
            data.len() == y * w,
            forall|xi: int, yi: int|
                0 <= xi < w && 0 <= yi < y ==> data[yi * w + xi] == masked_gray_at(
                    img,
                    alpha_threshold,
                    xi,
                    yi,
                ),
        decreases h - y,
    {
        let mut x: usize = 0;
        while x < w
            invariant
                img.wf(),
                w == img.width,
                h == img.height,
                4 * (w * h) <= usize::MAX,
                y < h,
                x <= w,
                data.len() == y * w + x,
                forall|xi: int, yi: int|
                    0 <= xi < w && 0 <= yi < y ==> data[yi * w + xi] == masked_gray_at(
                        img,
                        alpha_threshold,
                        xi,
                        yi,
                    ),
                forall|xi: int|
                    0 <= xi < x ==> data[y * w + xi] == masked_gray_at(
                        img,
                        alpha_threshold,
                        xi,
                        y as int,
                    ),
            decreases w - x,
        {
            proof {
                lemma_pixel_index(w as int, h as int, x as int, y as int);
            }
            let a = img.get(x, y, 3);
            let v: u8 = if a >= alpha_threshold {
                let cr = img.get(x, y, 0) as u64;
                let cg = img.get(x, y, 1) as u64;
                let cb = img.get(x, y, 2) as u64;
                let sum = 299 * cr + 587 * cg + 114 * cb + 500;
                (sum / 1000) as u8
            } else {
                255
            };
            data.push(v);
            proof {
                assert forall|xi: int, yi: int|
                    0 <= xi < w && 0 <= yi < y implies data[yi * w + xi] == masked_gray_at(
                    img,
                    alpha_threshold,
                    xi,
                    yi,
                ) by {
                    lemma_row_order(w as int, xi, yi, x as int, y as int);
                }
                assert forall|xi: int| 0 <= xi < x implies data[y * w + xi] == masked_gray_at(
                    img,
                    alpha_threshold,
                    xi,
                    y as int,
                ) by {}
            }
            x += 1;
        }
        proof {
            assert((y + 1) * w == y * w + w) by (nonlinear_arith);
        }
        y += 1;
    }
    proof {
        assert(h * w == w * h) by (nonlinear_arith);
    }
    let r = GrayBuffer { width: w, height: h, data };
    proof {
        assert forall|x: int, y: int| 0 <= x < w && 0 <= y < h implies r.at(x, y)
            == masked_gray_at(img, alpha_threshold, x, y) by {
            lemma_pixel_index(w as int, h as int, x, y);
        }
    }
    r
}

/// `r` holds exactly the pixels of `src` inside the rectangle `b`.
pub open spec fn is_crop_of(src: &PixelBuffer, b: BoundingBox, r: &PixelBuffer) -> bool {
    &&& r.width == b.width
    &&& r.height == b.height
    &&& forall|x: int, y: int, c: int|
        0 <= x < b.width && 0 <= y < b.height && 0 <= c < 4 ==> r.chan(x, y, c) == src.chan(
            b.x + x,
            b.y + y,
            c,
        )
}

/// Copy the rectangle `b` of `src` into a fresh buffer of exactly that size.
pub fn copy_rect(src: &PixelBuffer, b: BoundingBox) -> (r: PixelBuffer)
    requires
        src.wf(),
        b.x + b.width <= src.width,
        b.y + b.height <= src.height,
    ensures
        r.wf(),
        is_crop_of(src, b, &r),
{
    proof {
        lemma_quad(src.width as int, src.height as int);
        lemma_prod_mono(b.width as int, b.height as int, src.width as int, src.height as int);
    }
    let mut out = PixelBuffer::new(b.width, b.height);
    let mut y: usize = 0;
    while y < b.height
        invariant
            src.wf(),
            out.wf(),
            out.width == b.width,
            out.height == b.height,
            b.x + b.width <= src.width,
            b.y + b.height <= src.height,
            y <= b.height,
            forall|xi: int, yi: int, ci: int|
                0 <= xi < b.width && 0 <= yi < y && 0 <= ci < 4 ==> out.chan(xi, yi, ci)
                    == src.chan(b.x + xi, b.y + yi, ci),
        decreases b.height - y,
    {
        let mut x: usize = 0;
        while x < b.width
            invariant
                src.wf(),
                out.wf(),
                out.width == b.width,
                out.height == b.height,
                b.x + b.width <= src.width,
                b.y + b.height <= src.height,
                y < b.height,
                x <= b.width,
                forall|xi: int, yi: int, ci: int|
                    0 <= xi < b.width && 0 <= yi < y && 0 <= ci < 4 ==> out.chan(xi, yi, ci)
                        == src.chan(b.x + xi, b.y + yi, ci),
                forall|xi: int, ci: int|
                    0 <= xi < x && 0 <= ci < 4 ==> out.chan(xi, y as int, ci) == src.chan(
                        b.x + xi,
                        b.y + y,
                        ci,
                    ),
            decreases b.width - x,
        {
            let mut c: usize = 0;
            while c < 4
                invariant
                    src.wf(),
                    out.wf(),
                    out.width == b.width,
                    out.height == b.height,
                    b.x + b.width <= src.width,
                    b.y + b.height <= src.height,
                    y < b.height,
                    x < b.width,
                    c <= 4,
                    forall|xi: int, yi: int, ci: int|
                        0 <= xi < b.width && 0 <= yi < y && 0 <= ci < 4 ==> out.chan(xi, yi, ci)
                            == src.chan(b.x + xi, b.y + yi, ci),
                    forall|xi: int, ci: int|
                        0 <= xi < x && 0 <= ci < 4 ==> out.chan(xi, y as int, ci) == src.chan(
                            b.x + xi,
                            b.y + y,
                            ci,
                        ),
                    forall|ci: int|
                        0 <= ci < c ==> out.chan(x as int, y as int, ci) == src.chan(
                            b.x + x,
                            b.y + y,
                            ci,
                        ),
                decreases 4 - c,
            {
                let v = src.get(b.x + x, b.y + y, c);
                out.set(x, y, c, v);
                c += 1;
            }
            x += 1;
        }
        y += 1;
    }
    out
}

/// What cropping owes: the image inside the tight bounding box, or the
/// buffer unchanged when no pixel qualifies.
pub open spec fn crop_result(img: &PixelBuffer, alpha_threshold: u8, r: &PixelBuffer) -> bool {
    &&& r.wf()
    &&& match find_bounds_spec(img, alpha_threshold) {
        Some(b) => is_crop_of(img, b, r),
        None => r.same_image(img),
    }
}

/// Crop a buffer to its qualifying content: the image inside the tight
/// bounding box, or the buffer unchanged when no pixel qualifies.
pub fn crop_to_content(img: &PixelBuffer, alpha_threshold: u8) -> (r: PixelBuffer)
    requires
        img.wf(),
    ensures
        crop_result(img, alpha_threshold, &r),
{
    let bounds = find_sprite_bounds(img, alpha_threshold);
    match bounds {
        Some(b) => {
            proof {
                lemma_tight_bounds_unique(img, alpha_threshold, b);
            }
            copy_rect(img, b)
        },
        None => {
            proof {
                lemma_no_bounds(img, alpha_threshold);
            }
            let full = BoundingBox { x: 0, y: 0, width: img.width, height: img.height };
            let r = copy_rect(img, full);
            r
        },
    }
}

/// The tight bounding box of a buffer's qualifying content, if any, as a
/// mathematical value: it is unique when it exists.
pub open spec fn find_bounds_spec(img: &PixelBuffer, threshold: u8) -> Option<BoundingBox> {
    if exists|b: BoundingBox| is_tight_bounds(img, threshold, b) {
        Some(choose|b: BoundingBox| is_tight_bounds(img, threshold, b))
    } else {
        None
    }
}

pub proof fn lemma_tight_bounds_unique(img: &PixelBuffer, threshold: u8, b: BoundingBox)
    requires
        is_tight_bounds(img, threshold, b),
    ensures
        find_bounds_spec(img, threshold) == Some(b),
{
    let c = choose|c: BoundingBox| is_tight_bounds(img, threshold, c);
    assert(is_tight_bounds(img, threshold, c));
    assert(c.x == b.x && c.y == b.y && c.x + c.width == b.x + b.width && c.y + c.height == b.y
        + b.height);
    assert(c == b);
}

proof fn lemma_no_bounds(img: &PixelBuffer, threshold: u8)
    requires
        forall|x: int, y: int|
            0 <= x < img.width && 0 <= y < img.height ==> !opaque_at(img, threshold, x, y),
    ensures
        find_bounds_spec(img, threshold) is None,
{
    if exists|b: BoundingBox| is_tight_bounds(img, threshold, b) {
        let b = choose|b: BoundingBox| is_tight_bounds(img, threshold, b);
        assert(false);
    }
}

} // verus!
