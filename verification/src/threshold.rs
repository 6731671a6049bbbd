use vstd::prelude::*;
use crate::buffer::{pixels_of, PixelBuffer, PixelGrid};
use crate::error::EngineError;
use crate::flood::{corner_seeds, flood_mask, is_white_close, lemma_isolated_stays_foreground};
use crate::grid::{adjacent, lemma_index_in_range, Point, Rgba};
use crate::mask::{Mask, MaskGrid};

verus! {

/// Whether a pixel is bright enough to count as background: each of red,
/// green and blue is at least `threshold`. Alpha is not looked at.
pub open spec fn is_bright(pixel: Rgba, threshold: u8) -> bool {
    &&& pixel.r >= threshold
    &&& pixel.g >= threshold
    &&& pixel.b >= threshold
}

/// The mask by brightness: `255` for every bright pixel, `0` for every other,
/// each pixel judged by itself.
pub open spec fn threshold_mask(image: PixelGrid, threshold: u8) -> MaskGrid {
    MaskGrid {
        width: image.width,
        height: image.height,
        samples: Seq::new(
            image.pixels.len(),
            |i: int|
                if is_bright(image.pixels[i], threshold) {
                    255u8
                } else {
                    0u8
                },
        ),
    }
}

/// Whether `pixel` is bright under `threshold`.
pub fn bright(pixel: Rgba, threshold: u8) -> (b: bool)
    ensures
        b == is_bright(pixel, threshold),
{
    pixel.r >= threshold && pixel.g >= threshold && pixel.b >= threshold
}

/// The mask of `image` by brightness: `255` where red, green and blue are all
/// at least `threshold`, `0` elsewhere. Connectivity plays no part, so a
/// bright region inside the subject is marked too. An image with a zero side
/// is refused.
pub fn build_mask(image: &PixelBuffer, threshold: u8) -> (r: Result<Mask, EngineError>)
    ensures
        image@.is_empty() ==> r == Err::<Mask, EngineError>(EngineError::InvalidDimensions),
        !image@.is_empty() ==> (r matches Ok(mask) && mask@ == threshold_mask(image@, threshold)
            && mask@.is_binary()),
{
    let width: u32 = image.width();
    let height: u32 = image.height();
    if width == 0 || height == 0 {
        return Err(EngineError::InvalidDimensions);
    }
    let samples: &Vec<u8> = image.samples();
    let count: usize = samples.len() / 4;
    assert(samples.len() == samples@.len());
    let mut marks: Vec<u8> = Vec::new();
    let mut i: usize = 0;
    while i < count
        invariant
            i <= count,
            count == image@.pixels.len(),
            samples@.len() == 4 * count,
            samples@.len() <= usize::MAX,
            pixels_of(samples@) == image@.pixels,
            marks@.len() == i,
            forall|j: int|
                0 <= j < i ==> #[trigger] marks@[j] == (if is_bright(image@.pixels[j], threshold) {
                    255u8
                } else {
                    0u8
                }),
        decreases count - i,
    {
        let pixel = Rgba {
            r: samples[4 * i],
            g: samples[4 * i + 1],
            b: samples[4 * i + 2],
            a: samples[4 * i + 3],
        };
        assert(pixel == pixels_of(samples@)[i as int]);
        if bright(pixel, threshold) {
            marks.push(255);
        } else {
            marks.push(0);
        }
        i += 1;
    }
    assert(marks@ =~= threshold_mask(image@, threshold).samples);
    Mask::from_samples(width, height, marks)
}

/// What the mask by brightness holds at a position: `255` if the pixel there
/// is bright, `0` if it is not, whatever surrounds it.
pub proof fn lemma_threshold_mask_at(image: PixelGrid, threshold: u8, p: Point)
    requires
        image.wf(),
        image.contains(p),
    ensures
        threshold_mask(image, threshold).at(p) == (if is_bright(image.at(p), threshold) {
            255u8
        } else {
            0u8
        }),
{
    lemma_index_in_range(image.width, image.height, p);
}

/// The two builders differ on an isolated bright pixel: a pixel that is no
/// corner, and whose neighbours are not white-close, is foreground by
/// connectivity and, if it is bright, background by brightness.
pub proof fn lemma_builders_differ_on_isolated_pixel(
    image: PixelGrid,
    tolerance: u8,
    threshold: u8,
    p: Point,
)
    requires
        image.wf(),
        image.contains(p),
        !corner_seeds(image.width, image.height).contains(p),
        forall|q: Point|
            image.contains(q) && #[trigger] adjacent(q, p) ==> !is_white_close(image.at(q), tolerance),
        is_bright(image.at(p), threshold),
    ensures
        flood_mask(image, tolerance).at(p) == 0,
        threshold_mask(image, threshold).at(p) == 255,
{
    lemma_isolated_stays_foreground(image, tolerance, p);
    lemma_threshold_mask_at(image, threshold, p);
}

} // verus!
