use bg_removal::buffer::PixelBuffer;
use bg_removal::error::EngineError;
use bg_removal::flood;
use bg_removal::grid::Rgba;
use bg_removal::threshold;

fn one_white_pixel_in_black() -> PixelBuffer {
    let mut samples = Vec::new();
    for y in 0..4 {
        for x in 0..4 {
            if (x, y) == (1, 1) {
                samples.extend_from_slice(&[255, 255, 255, 255]);
            } else {
                samples.extend_from_slice(&[0, 0, 0, 255]);
            }
        }
    }
    PixelBuffer::new(4, 4, samples).unwrap()
}

#[test]
fn threshold_marks_an_isolated_white_pixel() {
    let image = one_white_pixel_in_black();
    let mask = threshold::build_mask(&image, 255).unwrap();
    let mut expected = vec![0u8; 16];
    expected[5] = 255;
    assert_eq!(mask.samples(), &expected);
    assert_eq!(mask.get(1, 1), 255);
}

#[test]
fn the_two_builders_differ_on_an_isolated_white_pixel() {
    let image = one_white_pixel_in_black();
    let by_brightness = threshold::build_mask(&image, 235).unwrap();
    let by_connectivity = flood::build_mask(&image, 20).unwrap();
    assert_eq!(by_brightness.get(1, 1), 255);
    assert_eq!(by_connectivity.get(1, 1), 0);
}

#[test]
fn threshold_is_inclusive_on_each_channel() {
    assert!(threshold::bright(Rgba { r: 235, g: 235, b: 235, a: 0 }, 235));
    assert!(!threshold::bright(Rgba { r: 234, g: 255, b: 255, a: 255 }, 235));
    assert!(!threshold::bright(Rgba { r: 255, g: 234, b: 255, a: 255 }, 235));
    assert!(!threshold::bright(Rgba { r: 255, g: 255, b: 234, a: 255 }, 235));
    assert!(threshold::bright(Rgba { r: 0, g: 0, b: 0, a: 0 }, 0));
    assert!(threshold::bright(Rgba { r: 255, g: 255, b: 255, a: 0 }, 255));
}

#[test]
fn threshold_judges_each_pixel_alone() {
    let samples = vec![
        235, 235, 235, 0, //
        234, 235, 235, 255, //
        255, 255, 255, 255, //
        10, 20, 30, 255, //
        240, 250, 236, 1, //
        0, 255, 255, 255,
    ];
    let image = PixelBuffer::new(3, 2, samples).unwrap();
    let mask = threshold::build_mask(&image, 235).unwrap();
    assert_eq!(mask.width(), 3);
    assert_eq!(mask.height(), 2);
    assert_eq!(mask.samples(), &vec![255, 0, 255, 0, 255, 0]);
}

#[test]
fn degenerate_thresholds_are_not_refused() {
    let samples = vec![0, 0, 0, 255, 255, 255, 255, 255, 254, 255, 255, 255];
    let image = PixelBuffer::new(3, 1, samples).unwrap();
    assert_eq!(threshold::build_mask(&image, 0).unwrap().samples(), &vec![255, 255, 255]);
    assert_eq!(threshold::build_mask(&image, 255).unwrap().samples(), &vec![0, 255, 0]);
}

#[test]
fn threshold_refuses_an_empty_image() {
    let image = PixelBuffer::new(0, 0, Vec::new()).unwrap();
    assert_eq!(threshold::build_mask(&image, 235).err(), Some(EngineError::InvalidDimensions));
    let image = PixelBuffer::new(7, 0, Vec::new()).unwrap();
    assert_eq!(threshold::build_mask(&image, 235).err(), Some(EngineError::InvalidDimensions));
}
