use vstd::prelude::*;

pub mod buffer;
pub mod detection;
pub mod geometry;
pub mod laws;
pub mod pipeline;
pub mod transform;
pub mod trig;

pub use buffer::BoundingBox;
pub use buffer::GrayBuffer;
pub use buffer::PixelBuffer;
pub use buffer::crop_to_content;
pub use buffer::find_sprite_bounds;
pub use buffer::to_grayscale_masked;
pub use detection::DetectedGeometry;
pub use detection::DetectionConfig;
pub use detection::DetectionError;
pub use detection::detect_isometric_angles;
pub use geometry::AffineTransform;
pub use geometry::DetectedAngles;
pub use geometry::IsometricRatio;
pub use geometry::compute_correction_matrix;
pub use geometry::compute_output_bounds;
pub use geometry::transform_point;
pub use pipeline::CorrectionResult;
pub use pipeline::correct_sprite;
pub use transform::apply_affine_transform;
pub use transform::clean_edges;
pub use transform::resize_to_fit;

verus! {

/// Truncated (toward-zero) signed division, as a spec-level function.
pub open spec fn trunc_div(num: int, den: int) -> int {
    if num >= 0 {
        num / den
    } else {
        -((-num) / den)
    }
}

/// Divide a signed numerator by a positive denominator, truncating toward zero.
pub fn div_trunc(num: i64, den: u64) -> (r: i64)
    requires
        den > 0,
        den <= i64::MAX,
        num > i64::MIN,
    ensures
        r == trunc_div(num as int, den as int),
{
    if num >= 0 {
        let q: u64 = (num as u64) / den;
        q as i64
    } else {
        let m: u64 = ((-num) as u64) / den;
        -(m as i64)
    }
}

} // verus!
