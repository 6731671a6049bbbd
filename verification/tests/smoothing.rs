use bg_removal::blur::{blur_with, plan_blur, sigma_not_positive, take_smoothed, BlurPlan};
use bg_removal::buffer::PixelBuffer;
use bg_removal::error::EngineError;
use bg_removal::mask::Mask;
use bg_removal::threshold;

fn gaussian(width: u32, height: u32, samples: Vec<u8>, sigma_bits: u32) -> Vec<u8> {
    let grid = image::GrayImage::from_raw(width, height, samples).unwrap();
    imageproc::filter::gaussian_blur_f32(&grid, f32::from_bits(sigma_bits)).into_raw()
}

fn never_called(_: u32, _: u32, _: Vec<u8>, _: u32) -> Vec<u8> {
    panic!("the filter must not run")
}

fn half_and_half(width: u32, height: u32) -> Mask {
    let mut samples = Vec::new();
    for _ in 0..height {
        for x in 0..width {
            samples.push(if x < width / 2 { 0 } else { 255 });
        }
    }
    Mask::from_samples(width, height, samples).unwrap()
}

#[test]
fn zero_sigma_is_the_identity_on_an_all_background_threshold_mask() {
    let image = PixelBuffer::new(4, 4, vec![255u8; 64]).unwrap();
    let mask = threshold::build_mask(&image, 235).unwrap();
    assert_eq!(mask.samples(), &vec![255u8; 16]);
    let blurred = blur_with(&mask, 0.0f32.to_bits(), gaussian).unwrap();
    assert_eq!(blurred.samples(), mask.samples());
    assert_eq!((blurred.width(), blurred.height()), (4, 4));
}

#[test]
fn a_sigma_of_at_most_zero_is_the_identity_on_any_mask() {
    let mask = Mask::from_samples(3, 2, vec![0, 255, 17, 200, 0, 255]).unwrap();
    for sigma in [0.0f32, -0.0, -0.5, -3.0e9, f32::NEG_INFINITY, -f32::MIN_POSITIVE] {
        assert_eq!(plan_blur(&mask, sigma.to_bits()), Ok(BlurPlan::Keep));
        let blurred = blur_with(&mask, sigma.to_bits(), never_called).unwrap();
        assert_eq!(blurred.samples(), &vec![0, 255, 17, 200, 0, 255]);
    }
}

#[test]
fn the_sign_of_sigma_is_read_off_its_bits() {
    for sigma in [0.0f32, -0.0, -1.0, -1.0e-40, f32::MIN, f32::NEG_INFINITY] {
        assert!(sigma <= 0.0);
        assert!(sigma_not_positive(sigma.to_bits()));
    }
    for sigma in [1.0f32, 0.5, 1.0e-40, f32::MIN_POSITIVE, f32::MAX, f32::INFINITY, f32::NAN, -f32::NAN] {
        assert!(!(sigma <= 0.0));
        assert!(!sigma_not_positive(sigma.to_bits()));
    }
    assert!(sigma_not_positive(0x8000_0000));
    assert!(sigma_not_positive(0xFF80_0000));
    assert!(!sigma_not_positive(0xFF80_0001));
    assert!(!sigma_not_positive(0x7FFF_FFFF));
    assert!(!sigma_not_positive(1));
}

#[test]
fn a_positive_sigma_sends_an_edge_through_the_filter() {
    let mask = half_and_half(4, 2);
    assert_eq!(plan_blur(&mask, 1.0f32.to_bits()), Ok(BlurPlan::Smooth));
    assert_eq!(plan_blur(&mask, f32::NAN.to_bits()), Ok(BlurPlan::Smooth));
    assert_eq!(plan_blur(&mask, 0.0f32.to_bits()), Ok(BlurPlan::Keep));
}

#[test]
fn blurring_a_uniform_mask_changes_nothing() {
    for value in [0u8, 255, 128] {
        for sigma in [0.3f32, 1.0, 2.5, 7.0] {
            let mask = Mask::from_samples(9, 7, vec![value; 63]).unwrap();
            assert_eq!(plan_blur(&mask, sigma.to_bits()), Ok(BlurPlan::Keep));
            let blurred = blur_with(&mask, sigma.to_bits(), never_called).unwrap();
            assert_eq!(blurred.samples(), &vec![value; 63]);
        }
    }
}

#[test]
fn blurring_feathers_a_hard_edge() {
    let mask = half_and_half(12, 6);
    let blurred = blur_with(&mask, 1.0f32.to_bits(), gaussian).unwrap();
    assert_eq!((blurred.width(), blurred.height()), (12, 6));
    assert_eq!(blurred.samples().len(), 72);
    assert_ne!(blurred.samples(), mask.samples());
    for y in 0..6 {
        // far from the edge the mask is nearly what it was
        assert!(blurred.get(0, y) <= 2);
        assert!(blurred.get(11, y) >= 252);
        // at the edge it is neither foreground nor background
        assert!(blurred.get(5, y) > 20 && blurred.get(5, y) < 128);
        assert!(blurred.get(6, y) > 126 && blurred.get(6, y) < 235);
        for x in 1..12 {
            assert!(blurred.get(x - 1, y) <= blurred.get(x, y));
        }
    }
}

#[test]
fn a_wider_sigma_feathers_further() {
    let mask = half_and_half(40, 3);
    let narrow = blur_with(&mask, 1.0f32.to_bits(), gaussian).unwrap();
    let wide = blur_with(&mask, 4.0f32.to_bits(), gaussian).unwrap();
    // eight pixels into the foreground only the wide blur is felt
    assert!(narrow.get(12, 1) <= 1);
    assert!(wide.get(12, 1) > 1);
}

#[test]
fn the_filter_gets_the_mask_as_it_is() {
    let mask = Mask::from_samples(3, 2, vec![0, 255, 0, 255, 0, 255]).unwrap();
    let sigma = 1.25f32.to_bits();
    let echo = |width: u32, height: u32, samples: Vec<u8>, bits: u32| -> Vec<u8> {
        assert_eq!((width, height), (3, 2));
        assert_eq!(samples, vec![0, 255, 0, 255, 0, 255]);
        assert_eq!(bits, 1.25f32.to_bits());
        vec![9, 8, 7, 6, 5, 4]
    };
    let blurred = blur_with(&mask, sigma, echo).unwrap();
    assert_eq!(blurred.samples(), &vec![9, 8, 7, 6, 5, 4]);
    assert_eq!((blurred.width(), blurred.height()), (3, 2));
}

#[test]
fn blur_leaves_its_input_alone() {
    let mask = half_and_half(6, 2);
    let before = mask.samples().clone();
    let _ = blur_with(&mask, 2.0f32.to_bits(), gaussian).unwrap();
    assert_eq!(mask.samples(), &before);
}

#[test]
fn blur_works_on_masks_smaller_than_the_kernel() {
    let mask = Mask::from_samples(2, 1, vec![0, 255]).unwrap();
    let blurred = blur_with(&mask, 3.0f32.to_bits(), gaussian).unwrap();
    assert_eq!(blurred.samples().len(), 2);
    assert!(blurred.get(0, 0) <= blurred.get(1, 0));
    let mask = Mask::from_samples(1, 1, vec![255]).unwrap();
    assert_eq!(blur_with(&mask, 3.0f32.to_bits(), never_called).unwrap().samples(), &vec![255]);
}

#[test]
fn samples_that_do_not_fit_the_mask_are_refused() {
    let mask = half_and_half(4, 2);
    let short = |_: u32, _: u32, _: Vec<u8>, _: u32| vec![0u8; 7];
    let long = |_: u32, _: u32, _: Vec<u8>, _: u32| vec![0u8; 9];
    assert_eq!(
        blur_with(&mask, 1.0f32.to_bits(), short).err(),
        Some(EngineError::DimensionMismatch)
    );
    assert_eq!(blur_with(&mask, 1.0f32.to_bits(), long).err(), Some(EngineError::DimensionMismatch));
    assert_eq!(take_smoothed(&mask, vec![1; 3]).err(), Some(EngineError::DimensionMismatch));
    assert_eq!(take_smoothed(&mask, vec![1; 8]).unwrap().samples(), &vec![1u8; 8]);
}

#[test]
fn blur_refuses_an_empty_mask() {
    let mask = Mask::new(0, 4).unwrap();
    assert_eq!(blur_with(&mask, 1.0f32.to_bits(), never_called).err(), Some(EngineError::InvalidDimensions));
    assert_eq!(blur_with(&mask, 0, never_called).err(), Some(EngineError::InvalidDimensions));
    assert_eq!(plan_blur(&mask, 0), Err(EngineError::InvalidDimensions));
    let mask = Mask::new(4, 0).unwrap();
    assert_eq!(plan_blur(&mask, 1.0f32.to_bits()), Err(EngineError::InvalidDimensions));
}
