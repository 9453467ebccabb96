use image::{DynamicImage, ImageFormat, RgbImage};
use pixivdaily::fitting::{
    after_encode, resize_image, FitError, FitPlan, FitStep, Fitted, MAX_DIMENSION_SUM, MAX_IMAGE_SIZE,
};
use std::io::Cursor;

const MIB: usize = 1024 * 1024;

/// A BMP of `width` by `height` pixels with a pattern, padded with trailing
/// zeros to `total` bytes; the BMP decoder ignores what follows the pixels.
fn padded_bmp(width: u32, height: u32, total: usize) -> Vec<u8> {
    let mut img = RgbImage::new(width, height);
    let mut seed: u32 = 12345;
    for p in img.pixels_mut() {
        seed = seed.wrapping_mul(1103515245).wrapping_add(12345);
        let b = (seed >> 16) as u8;
        *p = image::Rgb([b, b.wrapping_mul(3), b.wrapping_add(91)]);
    }
    let mut out = Cursor::new(Vec::new());
    DynamicImage::ImageRgb8(img).write_to(&mut out, ImageFormat::Bmp).unwrap();
    let mut bytes = out.into_inner();
    assert!(bytes.len() < total);
    bytes.resize(total, 0);
    bytes
}

#[test]
fn small_input_is_returned_unchanged() {
    let bytes = vec![1u8, 2, 3, 4, 5];
    assert_eq!(resize_image(bytes.clone(), 100, 100), Ok(Fitted { bytes, target: None, round: 0, dimensions: None }));
}

#[test]
fn input_at_the_ceiling_is_returned_unchanged() {
    let bytes = vec![7u8; MAX_IMAGE_SIZE];
    let r = resize_image(bytes.clone(), 2000, 3000).unwrap();
    assert!(r.bytes == bytes);
    assert_eq!(r.target, None);
}

#[test]
fn oversized_undecodable_input_is_a_decode_error() {
    let bytes = vec![0u8; MAX_IMAGE_SIZE + 1];
    match resize_image(bytes, 2000, 3000) {
        Err(FitError::Decode { .. }) => {}
        other => panic!("expected a decode error, got {:?}", other.map(|f| f.bytes.len())),
    }
}

#[test]
fn oversized_image_is_fitted_under_the_ceiling() {
    let bytes = padded_bmp(200, 300, 12 * MIB);
    let fitted = resize_image(bytes.clone(), 200, 300).unwrap();
    // 200 * sqrt(10 / 12) = 182.57..., 300 * sqrt(10 / 12) = 273.86...
    assert_eq!(fitted.target, Some(FitPlan { width: 182, height: 273 }));
    assert_eq!(fitted.round, 0);
    let fitted_dims = fitted.dimensions;
    let out = fitted.bytes;
    assert!(out.len() < MAX_IMAGE_SIZE);
    assert!(out.len() < bytes.len());
    let decoded = image::load_from_memory(&out).unwrap();
    assert_eq!(image::guess_format(&out).unwrap(), ImageFormat::Png);
    let plan = FitPlan::first(12 * MIB, 200, 300);
    assert!(decoded.width() <= plan.width && decoded.height() <= plan.height);
    assert_eq!(fitted_dims, Some((decoded.width(), decoded.height())));
    assert!(decoded.width() + decoded.height() <= MAX_DIMENSION_SUM);
}

#[test]
fn first_plan_scales_by_the_square_root_of_the_size_ratio() {
    // 2000 * sqrt(10 / 12) = 1825.74..., 3000 * sqrt(10 / 12) = 2738.61...
    let plan = FitPlan::first(12 * MIB, 2000, 3000);
    assert_eq!(plan, FitPlan { width: 1825, height: 2738 });
    assert!(plan.width + plan.height <= MAX_DIMENSION_SUM);
    assert!(plan.width < 2000 && plan.height < 3000);
}

#[test]
fn first_plan_for_a_quarter_of_the_bytes_halves_each_side() {
    let plan = FitPlan::first(4 * MAX_IMAGE_SIZE, 800, 600);
    assert_eq!(plan, FitPlan { width: 400, height: 300 });
}

#[test]
fn first_plan_is_capped_to_the_dimension_sum() {
    let plan = FitPlan::first(MAX_IMAGE_SIZE + 1, 20000, 20000);
    assert_eq!(plan, FitPlan { width: 5000, height: 5000 });
    let plan = FitPlan::first(MAX_IMAGE_SIZE + 1, 30000, 10000);
    assert_eq!(plan, FitPlan { width: 7500, height: 2499 });
    assert!(plan.width + plan.height <= MAX_DIMENSION_SUM);
}

#[test]
fn first_plan_keeps_at_least_one_pixel() {
    let plan = FitPlan::first(usize::MAX, 0, 3);
    assert_eq!(plan, FitPlan { width: 1, height: 1 });
}

#[test]
fn next_plan_shrinks_each_side_by_a_fifth() {
    let plan = FitPlan { width: 1825, height: 2738 };
    assert_eq!(plan.next(), Some(FitPlan { width: 1460, height: 2190 }));
}

#[test]
fn plans_shrink_until_one_pixel() {
    let mut plan = FitPlan::first(12 * MIB, 2000, 3000);
    let mut rounds = 0;
    while let Some(next) = plan.next() {
        assert!(next.width <= plan.width && next.height <= plan.height);
        assert!(plan.width == 1 || next.width < plan.width);
        assert!(plan.height == 1 || next.height < plan.height);
        assert!(next.width + next.height <= MAX_DIMENSION_SUM);
        plan = next;
        rounds += 1;
    }
    assert_eq!(plan, FitPlan { width: 1, height: 1 });
    assert!(rounds > 0);
    assert_eq!(FitPlan { width: 1, height: 7 }.next(), Some(FitPlan { width: 1, height: 5 }));
    assert_eq!(FitPlan { width: 1, height: 1 }.next(), None);
}

#[test]
fn image_with_unknown_magic_bytes_is_a_decode_error() {
    let mut bytes = padded_bmp(4, 4, MAX_IMAGE_SIZE + 1);
    bytes[0] = b'X';
    assert!(matches!(resize_image(bytes, 4, 4), Err(FitError::Decode { .. })));
}

#[test]
fn encoding_below_the_ceiling_is_done() {
    let plan = FitPlan { width: 100, height: 50 };
    assert_eq!(after_encode(plan, Ok(vec![1, 2, 3])), FitStep::Done(vec![1, 2, 3]));
    let just_below = vec![0u8; MAX_IMAGE_SIZE - 1];
    assert_eq!(after_encode(plan, Ok(just_below.clone())), FitStep::Done(just_below));
}

#[test]
fn encoding_at_the_ceiling_is_retried_smaller() {
    let plan = FitPlan { width: 100, height: 50 };
    assert_eq!(
        after_encode(plan, Ok(vec![0u8; MAX_IMAGE_SIZE])),
        FitStep::Retry(FitPlan { width: 80, height: 40 })
    );
    assert_eq!(
        after_encode(FitPlan { width: 1, height: 3 }, Ok(vec![0u8; MAX_IMAGE_SIZE + 5])),
        FitStep::Retry(FitPlan { width: 1, height: 2 })
    );
}

#[test]
fn encoding_too_large_at_one_pixel_gives_up() {
    let plan = FitPlan { width: 1, height: 1 };
    assert_eq!(after_encode(plan, Ok(vec![0u8; MAX_IMAGE_SIZE])), FitStep::Fail(FitError::TooLarge));
}

#[test]
fn encoder_error_ends_the_fit() {
    let plan = FitPlan { width: 10, height: 10 };
    assert_eq!(
        after_encode(plan, Err("no space".to_string())),
        FitStep::Fail(FitError::Encode { message: "no space".to_string() })
    );
}
