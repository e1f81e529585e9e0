use true_iso::buffer::BoundingBox;
use true_iso::detection::DetectedLine;
use true_iso::detection::DetectionConfig;
use true_iso::detection::weighted_median;
use true_iso::geometry::AffineTransform;
use true_iso::geometry::DetectedAngles;
use true_iso::geometry::IsometricRatio;
use true_iso::apply_affine_transform;
use true_iso::compute_correction_matrix;
use true_iso::crop_to_content;
use true_iso::detect_isometric_angles;
use true_iso::find_sprite_bounds;
use true_iso::resize_to_fit;
use true_iso::transform::premultiply_alpha;
use true_iso::transform::unpremultiply_alpha;
use true_iso::transform_point;
use true_iso::PixelBuffer;

fn solid_buffer(width: usize, height: usize, px: [u8; 4]) -> PixelBuffer {
    let mut data = Vec::with_capacity(width * height * 4);
    for _ in 0..width * height {
        data.extend_from_slice(&px);
    }
    PixelBuffer { width, height, data }
}

#[test]
fn test_find_bounds_empty() {
    let img = solid_buffer(10, 10, [0, 0, 0, 0]);
    assert!(find_sprite_bounds(&img, 10).is_none());
}

#[test]
fn test_find_bounds_full() {
    let img = solid_buffer(10, 10, [255, 255, 255, 255]);
    let bounds = find_sprite_bounds(&img, 10).unwrap();
    assert_eq!(bounds, BoundingBox { x: 0, y: 0, width: 10, height: 10 });
}

#[test]
fn test_isometric_ratio_angle() {
    let ratio = IsometricRatio::new(2, 1);
    let angle = ratio.target_angle_millidegrees();
    assert!((angle - 26565).abs() < 10);
}

#[test]
fn geometry_test_identity_transform() {
    let detected = DetectedAngles::new(-26565, 26565, 1000, 1000);
    let target = IsometricRatio::new(2, 1);
    let center = 50 * 65536;
    let matrix = compute_correction_matrix(&detected, &target, center, center);

    // Detected angles match the target, so the pivot must stay put to
    // within a tenth of a pixel.
    let (x, y) = transform_point(&matrix, center as i128, center as i128);
    assert!((x - center as i128).abs() < 6554);
    assert!((y - center as i128).abs() < 6554);

    // Points near the pivot stay within the same tolerance.
    let near_x = 55 * 65536;
    let near_y = 45 * 65536;
    let (nx, ny) = transform_point(&matrix, near_x, near_y);
    assert!((nx - near_x).abs() < 6554);
    assert!((ny - near_y).abs() < 6554);
}

#[test]
fn test_premultiply_unpremultiply() {
    let img = solid_buffer(1, 1, [200, 100, 50, 128]);
    let premul = premultiply_alpha(&img);
    let v = [
        (premul.get(0, 0, 0) as i64) << 32,
        (premul.get(0, 0, 1) as i64) << 32,
        (premul.get(0, 0, 2) as i64) << 32,
        (premul.get(0, 0, 3) as i64) << 32,
    ];
    let unpremul = unpremultiply_alpha(v);
    assert!((unpremul.0 as i32 - 200).abs() <= 1);
    assert!((unpremul.1 as i32 - 100).abs() <= 1);
    assert!((unpremul.2 as i32 - 50).abs() <= 1);
    assert_eq!(unpremul.3, 128);
}

#[test]
fn transform_test_identity_transform() {
    let img = solid_buffer(10, 10, [255, 0, 0, 255]);
    let identity = AffineTransform::identity();
    let result = apply_affine_transform(&img, &identity);

    assert_eq!((result.width, result.height), (10, 10));
    assert_eq!(result.get(5, 5, 0), 255);
    assert_eq!(result.get(5, 5, 3), 255);
}

#[test]
fn identity_transform_preserves_all_pixels() {
    let mut img = solid_buffer(7, 5, [0, 0, 0, 255]);
    for y in 0..5usize {
        for x in 0..7usize {
            img.set(x, y, 0, (x * 30) as u8);
            img.set(x, y, 1, (y * 40) as u8);
            img.set(x, y, 2, (x * y) as u8);
        }
    }
    let result = apply_affine_transform(&img, &AffineTransform::identity());
    assert_eq!((result.width, result.height), (7, 5));
    for y in 0..5usize {
        for x in 0..7usize {
            for c in 0..4usize {
                assert_eq!(result.get(x, y, c), img.get(x, y, c));
            }
        }
    }
}

#[test]
fn ratio_one_to_one_angle() {
    let ratio = IsometricRatio::new(1, 1);
    let angle = ratio.target_angle_millidegrees();
    assert!((angle - 45000).abs() < 10);
}

#[test]
fn weighted_median_empty_class() {
    let lines: Vec<DetectedLine> = Vec::new();
    assert!(weighted_median(&lines).is_none());
}

#[test]
fn weighted_median_single_line() {
    let lines = vec![DetectedLine { angle_millideg: -30000, length: 50 }];
    let (angle, confidence) = weighted_median(&lines).unwrap();
    assert_eq!(angle, -30000);
    assert_eq!(confidence, 500);
}

#[test]
fn weighted_median_saturating_confidence() {
    let lines = vec![DetectedLine { angle_millideg: 20000, length: 400 }];
    let (angle, confidence) = weighted_median(&lines).unwrap();
    assert_eq!(angle, 20000);
    assert_eq!(confidence, 1000);
}

#[test]
fn weighted_median_picks_half_weight_angle() {
    let lines = vec![
        DetectedLine { angle_millideg: 30000, length: 10 },
        DetectedLine { angle_millideg: 20000, length: 50 },
        DetectedLine { angle_millideg: 40000, length: 10 },
    ];
    let (angle, _) = weighted_median(&lines).unwrap();
    assert_eq!(angle, 20000);
}

#[test]
fn weighted_median_zero_weight_class() {
    let lines = vec![DetectedLine { angle_millideg: 20000, length: 0 }];
    assert!(weighted_median(&lines).is_none());
}

#[test]
fn grayscale_masks_transparent_pixels() {
    let mut img = solid_buffer(2, 1, [60, 120, 30, 255]);
    img.set(1, 0, 3, 0);
    let gray = true_iso::to_grayscale_masked(&img, 10);
    // 0.299 * 60 + 0.587 * 120 + 0.114 * 30 = 91.8, rounded to 92.
    assert_eq!(gray.get(0, 0), 92);
    assert_eq!(gray.get(1, 0), 255);
}

#[test]
fn crop_keeps_content_rectangle() {
    let mut img = solid_buffer(8, 6, [0, 0, 0, 0]);
    for y in 2..5usize {
        for x in 3..7usize {
            img.set(x, y, 0, 9);
            img.set(x, y, 3, 255);
        }
    }
    let cropped = crop_to_content(&img, 10);
    assert_eq!((cropped.width, cropped.height), (4, 3));
    assert_eq!(cropped.get(0, 0, 0), 9);
    assert_eq!(cropped.get(0, 0, 3), 255);
}

#[test]
fn crop_of_transparent_buffer_is_unchanged() {
    let img = solid_buffer(4, 4, [0, 0, 0, 0]);
    let cropped = crop_to_content(&img, 10);
    assert_eq!((cropped.width, cropped.height), (4, 4));
    assert_eq!(cropped.get(2, 2, 3), 0);
}

#[test]
fn crop_then_rescale_is_idempotent() {
    let mut img = solid_buffer(6, 4, [0, 0, 0, 255]);
    for y in 0..4usize {
        for x in 0..6usize {
            img.set(x, y, 0, (40 * x) as u8);
            img.set(x, y, 1, (60 * y) as u8);
        }
    }
    let cropped = crop_to_content(&img, 10);
    let rescaled = resize_to_fit(&cropped, 6);
    assert_eq!((rescaled.width, rescaled.height), (6, 4));
    for y in 0..4usize {
        for x in 0..6usize {
            for c in 0..4usize {
                assert_eq!(rescaled.get(x, y, c), img.get(x, y, c));
            }
        }
    }
}

#[test]
fn resize_halves_longest_side() {
    let img = solid_buffer(8, 4, [10, 20, 30, 255]);
    let resized = resize_to_fit(&img, 4);
    assert_eq!((resized.width, resized.height), (4, 2));
    assert_eq!(resized.get(1, 1, 0), 10);
    assert_eq!(resized.get(1, 1, 3), 255);
}

#[test]
fn clean_edges_removes_isolated_fringe() {
    let mut img = solid_buffer(3, 3, [0, 0, 0, 0]);
    img.set(1, 1, 3, 5);
    img.set(1, 1, 0, 77);
    let cleaned = true_iso::clean_edges(&img, 32, 3);
    assert_eq!(cleaned.get(1, 1, 3), 0);
    assert_eq!(cleaned.get(1, 1, 0), 0);
}

#[test]
fn clean_edges_keeps_supported_pixels() {
    let mut img = solid_buffer(3, 3, [0, 0, 0, 255]);
    img.set(1, 1, 3, 5);
    let cleaned = true_iso::clean_edges(&img, 32, 3);
    assert_eq!(cleaned.get(1, 1, 3), 5);
}

#[test]
fn detection_fails_on_transparent_image() {
    let img = solid_buffer(20, 20, [0, 0, 0, 0]);
    let ratio = IsometricRatio::new(2, 1);
    let cfg = DetectionConfig::standard();
    assert!(detect_isometric_angles(&img, &ratio, &cfg).is_err());
}

#[test]
fn end_to_end_rectangle_sprite() {
    // A 100x100 canvas with a single opaque 60x30 rectangle.
    let mut img = solid_buffer(100, 100, [0, 0, 0, 0]);
    for y in 35..65usize {
        for x in 20..80usize {
            img.set(x, y, 0, 180);
            img.set(x, y, 1, 90);
            img.set(x, y, 2, 45);
            img.set(x, y, 3, 255);
        }
    }
    let ratio = IsometricRatio::new(2, 1);
    let cfg = DetectionConfig::standard();
    let geometry = detect_isometric_angles(&img, &ratio, &cfg).unwrap();
    assert_eq!(geometry.bounds, BoundingBox { x: 20, y: 35, width: 60, height: 30 });

    let matrix = compute_correction_matrix(
        &geometry.angles,
        &ratio,
        geometry.center_x_q16,
        geometry.center_y_q16,
    );
    let transformed = apply_affine_transform(&img, &matrix);

    // Originally transparent regions stay transparent.
    assert_eq!(transformed.get(5, 5, 3), 0);
    assert_eq!(
        transformed.get(transformed.width - 3, transformed.height - 3, 3),
        0
    );

    let cropped = crop_to_content(&transformed, 10);
    let final_image = resize_to_fit(&cropped, 50);
    let longest = final_image.width.max(final_image.height);
    assert_eq!(longest, 50);

    // The content itself stays opaque.
    let cx = final_image.width / 2;
    let cy = final_image.height / 2;
    assert_eq!(final_image.get(cx, cy, 3), 255);
}

#[test]
fn correct_sprite_full_run() {
    let mut img = solid_buffer(100, 100, [0, 0, 0, 0]);
    for y in 35..65usize {
        for x in 20..80usize {
            img.set(x, y, 0, 180);
            img.set(x, y, 1, 90);
            img.set(x, y, 2, 45);
            img.set(x, y, 3, 255);
        }
    }
    let ratio = IsometricRatio::new(2, 1);
    let cfg = DetectionConfig::standard();
    let result = true_iso::correct_sprite(&img, &ratio, &cfg, 50, 2000).unwrap();
    assert_eq!(result.geometry.bounds, BoundingBox { x: 20, y: 35, width: 60, height: 30 });
    let longest = result.image.width.max(result.image.height);
    assert_eq!(longest, 50);
    let cx = result.image.width / 2;
    let cy = result.image.height / 2;
    assert_eq!(result.image.get(cx, cy, 3), 255);
}

#[test]
fn correct_sprite_rejects_empty_input() {
    let img = solid_buffer(10, 10, [0, 0, 0, 0]);
    let ratio = IsometricRatio::new(2, 1);
    let cfg = DetectionConfig::standard();
    assert!(true_iso::correct_sprite(&img, &ratio, &cfg, 50, 2000).is_err());
}
