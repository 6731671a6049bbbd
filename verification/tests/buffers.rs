use bg_removal::buffer::PixelBuffer;
use bg_removal::error::EngineError;
use bg_removal::grid::Rgba;
use bg_removal::mask::Mask;

#[test]
fn pixel_buffer_reads_row_by_row() {
    let samples: Vec<u8> = (0..24).collect();
    let image = PixelBuffer::new(3, 2, samples.clone()).unwrap();
    assert_eq!(image.width(), 3);
    assert_eq!(image.height(), 2);
    assert_eq!(image.get(0, 0), Rgba { r: 0, g: 1, b: 2, a: 3 });
    assert_eq!(image.get(2, 0), Rgba { r: 8, g: 9, b: 10, a: 11 });
    assert_eq!(image.get(0, 1), Rgba { r: 12, g: 13, b: 14, a: 15 });
    assert_eq!(image.get(2, 1), Rgba { r: 20, g: 21, b: 22, a: 23 });
    assert_eq!(image.samples(), &samples);
    assert_eq!(image.clone().into_samples(), samples);
}

#[test]
fn pixel_buffer_refuses_a_wrong_sample_count() {
    assert_eq!(PixelBuffer::new(2, 2, vec![0; 15]).err(), Some(EngineError::DimensionMismatch));
    assert_eq!(PixelBuffer::new(2, 2, vec![0; 17]).err(), Some(EngineError::DimensionMismatch));
    assert_eq!(PixelBuffer::new(2, 2, vec![0; 4]).err(), Some(EngineError::DimensionMismatch));
    assert_eq!(PixelBuffer::new(0, 2, vec![0; 4]).err(), Some(EngineError::DimensionMismatch));
    assert!(PixelBuffer::new(2, 2, vec![0; 16]).is_ok());
    assert!(PixelBuffer::new(0, 9, Vec::new()).is_ok());
}

#[test]
fn checked_get_reports_positions_outside() {
    let image = PixelBuffer::new(2, 1, vec![1, 2, 3, 4, 5, 6, 7, 8]).unwrap();
    assert_eq!(image.checked_get(1, 0), Ok(Rgba { r: 5, g: 6, b: 7, a: 8 }));
    assert_eq!(image.checked_get(2, 0), Err(EngineError::OutOfRange));
    assert_eq!(image.checked_get(0, 1), Err(EngineError::OutOfRange));
    let mask = Mask::from_samples(2, 1, vec![3, 4]).unwrap();
    assert_eq!(mask.checked_get(1, 0), Ok(4));
    assert_eq!(mask.checked_get(2, 0), Err(EngineError::OutOfRange));
    assert_eq!(mask.checked_get(0, 1), Err(EngineError::OutOfRange));
}

#[test]
fn a_new_mask_marks_nothing() {
    let mask = Mask::new(3, 2).unwrap();
    assert_eq!((mask.width(), mask.height()), (3, 2));
    assert_eq!(mask.samples(), &vec![0u8; 6]);
    assert!(mask.is_binary());
    assert!(mask.is_uniform());
}

#[test]
fn a_mask_too_large_for_memory_is_refused() {
    assert_eq!(Mask::new(u32::MAX, u32::MAX).err(), Some(EngineError::TooLarge));
}

#[test]
fn mask_set_changes_one_position() {
    let mut mask = Mask::new(3, 2).unwrap();
    mask.set(2, 1, 255);
    mask.set(0, 1, 9);
    assert_eq!(mask.samples(), &vec![0, 0, 0, 9, 0, 255]);
    assert_eq!(mask.get(2, 1), 255);
    assert_eq!(mask.get(1, 1), 0);
    assert_eq!(mask.clone().into_samples(), vec![0, 0, 0, 9, 0, 255]);
}

#[test]
fn mask_refuses_a_wrong_sample_count() {
    assert_eq!(Mask::from_samples(2, 2, vec![0; 3]).err(), Some(EngineError::DimensionMismatch));
    assert_eq!(Mask::from_samples(2, 2, vec![0; 5]).err(), Some(EngineError::DimensionMismatch));
    assert!(Mask::from_samples(2, 2, vec![0; 4]).is_ok());
}

#[test]
fn binary_and_uniform_are_told_apart() {
    let mask = Mask::from_samples(2, 2, vec![0, 255, 255, 0]).unwrap();
    assert!(mask.is_binary());
    assert!(!mask.is_uniform());
    let mask = Mask::from_samples(2, 2, vec![7, 7, 7, 7]).unwrap();
    assert!(!mask.is_binary());
    assert!(mask.is_uniform());
    let mask = Mask::from_samples(2, 2, vec![255, 255, 255, 254]).unwrap();
    assert!(!mask.is_binary());
    assert!(!mask.is_uniform());
    assert!(Mask::new(0, 0).unwrap().is_uniform());
}

#[test]
fn every_error_has_its_own_message() {
    let all = [
        EngineError::InvalidDimensions,
        EngineError::OutOfRange,
        EngineError::DimensionMismatch,
        EngineError::TooLarge,
    ];
    assert_eq!(EngineError::InvalidDimensions.message(), "buffer has zero width or height");
    for (i, a) in all.iter().enumerate() {
        for b in all.iter().skip(i + 1) {
            assert_ne!(a.message(), b.message());
        }
    }
}
