use bg_removal::buffer::PixelBuffer;
use bg_removal::composite::composite;
use bg_removal::error::EngineError;
use bg_removal::flood;
use bg_removal::grid::Rgba;
use bg_removal::mask::Mask;
use bg_removal::threshold;

fn four_by_four(pixel_at: impl Fn(u32, u32) -> [u8; 4]) -> PixelBuffer {
    let mut samples = Vec::new();
    for y in 0..4 {
        for x in 0..4 {
            samples.extend_from_slice(&pixel_at(x, y));
        }
    }
    PixelBuffer::new(4, 4, samples).unwrap()
}

#[test]
fn all_white_image_comes_out_fully_transparent() {
    let image = four_by_four(|_, _| [255, 255, 255, 255]);
    let mask = flood::build_mask(&image, 10).unwrap();
    let out = composite(&image, &mask).unwrap();
    assert_eq!((out.width(), out.height()), (4, 4));
    for y in 0..4 {
        for x in 0..4 {
            assert_eq!(out.get(x, y), Rgba { r: 255, g: 255, b: 255, a: 0 });
        }
    }
}

#[test]
fn isolated_white_pixel_is_transparent_by_threshold_and_opaque_by_flood() {
    let image = four_by_four(|x, y| if (x, y) == (1, 1) { [255, 255, 255, 255] } else { [0, 0, 0, 255] });
    let soft = composite(&image, &threshold::build_mask(&image, 255).unwrap()).unwrap();
    let hard = composite(&image, &flood::build_mask(&image, 0).unwrap()).unwrap();
    for y in 0..4 {
        for x in 0..4 {
            let expected_alpha = if (x, y) == (1, 1) { 0 } else { 255 };
            assert_eq!(soft.get(x, y).a, expected_alpha);
            assert_eq!(hard.get(x, y).a, 255);
        }
    }
}

#[test]
fn alpha_is_the_inverted_mask() {
    let image = PixelBuffer::new(4, 1, vec![1, 2, 3, 4, 5, 6, 7, 8, 9, 10, 11, 12, 13, 14, 15, 16]).unwrap();
    let mask = Mask::from_samples(4, 1, vec![0, 255, 100, 1]).unwrap();
    let out = composite(&image, &mask).unwrap();
    assert_eq!(
        out.samples(),
        &vec![1, 2, 3, 255, 5, 6, 7, 0, 9, 10, 11, 155, 13, 14, 15, 254]
    );
}

#[test]
fn binary_masks_give_complementary_alpha() {
    let image = four_by_four(|x, y| [(x * 60) as u8, (y * 60) as u8, 255, 9]);
    let mask = threshold::build_mask(&image, 100).unwrap();
    let out = composite(&image, &mask).unwrap();
    for y in 0..4 {
        for x in 0..4 {
            let m = mask.get(x, y);
            let a = out.get(x, y).a;
            assert!(m == 0 || m == 255);
            assert!(a == 0 || a == 255);
            assert_eq!(a == 255, m == 0);
            assert_eq!(a as u16 + m as u16, 255);
        }
    }
}

#[test]
fn colours_pass_through_and_inputs_are_left_alone() {
    let image = four_by_four(|x, y| [(x * 10) as u8, (y * 20) as u8, (x + y) as u8, 77]);
    let mask = Mask::from_samples(4, 4, (0..16).map(|i| (i * 17) as u8).collect()).unwrap();
    let image_before = image.samples().clone();
    let mask_before = mask.samples().clone();
    let out = composite(&image, &mask).unwrap();
    for y in 0..4 {
        for x in 0..4 {
            let source = image.get(x, y);
            let merged = out.get(x, y);
            assert_eq!((merged.r, merged.g, merged.b), (source.r, source.g, source.b));
            assert_eq!(merged.a, 255 - mask.get(x, y));
        }
    }
    assert_eq!(image.samples(), &image_before);
    assert_eq!(mask.samples(), &mask_before);
}

#[test]
fn composite_refuses_empty_buffers() {
    let empty_image = PixelBuffer::new(0, 2, Vec::new()).unwrap();
    let empty_mask = Mask::new(0, 2).unwrap();
    let image = PixelBuffer::new(1, 1, vec![1, 2, 3, 4]).unwrap();
    let mask = Mask::new(1, 1).unwrap();
    assert_eq!(composite(&empty_image, &empty_mask).err(), Some(EngineError::InvalidDimensions));
    assert_eq!(composite(&empty_image, &mask).err(), Some(EngineError::InvalidDimensions));
    assert_eq!(composite(&image, &empty_mask).err(), Some(EngineError::InvalidDimensions));
}

#[test]
fn composite_refuses_a_mask_of_another_size() {
    let image = PixelBuffer::new(2, 1, vec![1, 2, 3, 4, 5, 6, 7, 8]).unwrap();
    let mask = Mask::new(1, 2).unwrap();
    assert_eq!(composite(&image, &mask).err(), Some(EngineError::DimensionMismatch));
}
