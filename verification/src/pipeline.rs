use vstd::prelude::*;
use crate::buffer::PixelBuffer;
use crate::buffer::crop_result;
use crate::buffer::crop_to_content;
use crate::buffer::find_bounds_spec;
use crate::buffer::is_crop_of;
use crate::buffer::is_tight_bounds;
use crate::buffer::opaque_at;
use crate::detection::DetectedGeometry;
use crate::detection::DetectionConfig;
use crate::detection::DetectionError;
use crate::detection::detect_isometric_angles;
use crate::geometry::IsometricRatio;
use crate::geometry::compute_correction_matrix;
use crate::geometry::correction_matrix_spec;
use crate::transform::apply_affine_transform;
use crate::transform::resize_result;
use crate::transform::resize_to_fit;
use crate::transform::transform_result;

verus! {

/// The outcome of one full correction run: the final buffer, the detection
/// diagnostics, and whether the geometric correction was applied (it is
/// skipped when the detected angles already match the target).
pub struct CorrectionResult {
    pub image: PixelBuffer,
    pub geometry: DetectedGeometry,
    pub corrected: bool,
}

/// Run the whole correction pipeline on a sprite: detect its diagonal
/// angles (failing when the buffer has no content), skip the geometric
/// correction when both angles already lie within the tolerance of the
/// target, otherwise resample through the solved correction transform;
/// then crop to content and rescale the longest side to `target_size`.
pub fn correct_sprite(
    img: &PixelBuffer,
    ratio: &IsometricRatio,
    cfg: &DetectionConfig,
    target_size: u32,
    tolerance_millideg: i64,
) -> (r: Result<CorrectionResult, DetectionError>)
    requires
        img.wf(),
        1 <= img.width <= 10000,
        1 <= img.height <= 10000,
        ratio.wf(),
        cfg.wf(),
        1 <= target_size <= 20000,
        0 <= tolerance_millideg <= 1000000,
    ensures
        r is Err <==> (forall|x: int, y: int|
            0 <= x < img.width && 0 <= y < img.height ==> !opaque_at(
                img,
                cfg.alpha_threshold,
                x,
                y,
            )),
        r matches Ok(cr) ==> {
            &&& is_tight_bounds(img, cfg.alpha_threshold, cr.geometry.bounds)
            &&& cr.geometry.center_x_q16 == (2 * cr.geometry.bounds.x + cr.geometry.bounds.width)
                * 32768
            &&& cr.geometry.center_y_q16 == (2 * cr.geometry.bounds.y + cr.geometry.bounds.height)
                * 32768
            &&& cr.geometry.angles.wf()
            &&& cr.image.wf()
            &&& cr.corrected == !cr.geometry.angles.close_to_target_spec(
                *ratio,
                tolerance_millideg as int,
            )
            &&& !cr.corrected ==> exists|cropped: PixelBuffer|
                crop_result(img, cfg.alpha_threshold, &cropped) && #[trigger] resize_result(
                    &cropped,
                    target_size,
                    &cr.image,
                )
            &&& cr.corrected ==> exists|transformed: PixelBuffer, cropped: PixelBuffer|
                transform_result(
                    img,
                    &correction_matrix_spec(
                        cr.geometry.angles.left_angle as int,
                        cr.geometry.angles.right_angle as int,
                        ratio.vertical as int,
                        ratio.horizontal as int,
                        cr.geometry.center_x_q16 as int,
                        cr.geometry.center_y_q16 as int,
                    ),
                    &transformed,
                ) && #[trigger] crop_result(&transformed, cfg.alpha_threshold, &cropped)
                && resize_result(&cropped, target_size, &cr.image)
        },
{
    let geometry = match detect_isometric_angles(img, ratio, cfg) {
        Ok(g) => g,
        Err(e) => {
            return Err(e);
        },
    };

    if geometry.angles.is_close_to_target(ratio, tolerance_millideg) {
        let cropped = crop_to_content(img, cfg.alpha_threshold);
        proof {
            lemma_crop_dims(img, cfg.alpha_threshold, &cropped);
        }
        let image = resize_to_fit(&cropped, target_size);
        return Ok(CorrectionResult { image, geometry, corrected: false });
    }

    let matrix = compute_correction_matrix(
        &geometry.angles,
        ratio,
        geometry.center_x_q16,
        geometry.center_y_q16,
    );
    let transformed = apply_affine_transform(img, &matrix);
    let cropped = crop_to_content(&transformed, cfg.alpha_threshold);
    proof {
        lemma_crop_dims(&transformed, cfg.alpha_threshold, &cropped);
    }
    let image = resize_to_fit(&cropped, target_size);
    Ok(CorrectionResult { image, geometry, corrected: true })
}

/// A cropped buffer is never larger than the buffer it was cut from.
proof fn lemma_crop_dims(img: &PixelBuffer, threshold: u8, r: &PixelBuffer)
    requires
        crop_result(img, threshold, r),
    ensures
        r.width <= img.width,
        r.height <= img.height,
{
    match find_bounds_spec(img, threshold) {
        Some(b) => {
            assert(is_tight_bounds(img, threshold, b)) by {
                assert(find_bounds_spec(img, threshold) is Some);
                assert(exists|c: crate::buffer::BoundingBox| is_tight_bounds(img, threshold, c));
            }
            assert(is_crop_of(img, b, r));
        },
        None => {
            assert(r.same_image(img));
        },
    }
}

} // verus!
