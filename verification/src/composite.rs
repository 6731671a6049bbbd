use vstd::prelude::*;
use crate::buffer::{pixels_of, PixelBuffer, PixelGrid};
use crate::error::EngineError;
use crate::grid::{lemma_index_in_range, Point, Rgba};
use crate::mask::{Mask, MaskGrid};

verus! {

/// The alpha that a mask intensity turns into: background-ness inverted.
pub open spec fn alpha_of(intensity: u8) -> u8 {
    (255 - intensity) as u8
}

/// The image with its alpha channel taken from the mask: red, green and blue
/// as they were, alpha the inverted mask intensity.
pub open spec fn composited(image: PixelGrid, mask: MaskGrid) -> PixelGrid {
    PixelGrid {
        width: image.width,
        height: image.height,
        pixels: Seq::new(
            image.pixels.len(),
            |i: int|
                Rgba {
                    r: image.pixels[i].r,
                    g: image.pixels[i].g,
                    b: image.pixels[i].b,
                    a: alpha_of(mask.samples[i]),
                },
        ),
    }
}

/// Why the compositor refuses its input, if it does.
pub open spec fn composite_error(image: PixelGrid, mask: MaskGrid) -> Option<EngineError> {
    if image.is_empty() || mask.is_empty() {
        Some(EngineError::InvalidDimensions)
    } else if mask.width != image.width || mask.height != image.height {
        Some(EngineError::DimensionMismatch)
    } else {
        None
    }
}

/// Merges `image` and `mask` into a new buffer of the same size. Red, green
/// and blue pass through; alpha is `255` minus the mask intensity, so
/// foreground (`0`) comes out opaque and background (`255`) transparent, with
/// a soft edge where the mask is continuous. Neither input is changed.
///
/// A buffer with a zero side and a mask of another size than the image are
/// refused, in this order.
pub fn composite(image: &PixelBuffer, mask: &Mask) -> (r: Result<PixelBuffer, EngineError>)
    ensures
        match composite_error(image@, mask@) {
            Some(e) => r == Err::<PixelBuffer, EngineError>(e),
            None => r matches Ok(out) && out@ == composited(image@, mask@),
        },
{
    let width: u32 = image.width();
    let height: u32 = image.height();
    if width == 0 || height == 0 || mask.width() == 0 || mask.height() == 0 {
        return Err(EngineError::InvalidDimensions);
    }
    if mask.width() != width || mask.height() != height {
        return Err(EngineError::DimensionMismatch);
    }
    let colours: &Vec<u8> = image.samples();
    let marks: &Vec<u8> = mask.samples();
    let count: usize = marks.len();
    assert(colours.len() == colours@.len());
    let mut merged: Vec<u8> = Vec::new();
    let mut i: usize = 0;
    while i < count
        invariant
            i <= count,
            count == marks@.len(),
            colours@.len() == 4 * count,
            colours@.len() <= usize::MAX,
            merged@.len() == 4 * i,
            forall|j: int|
                0 <= j < i ==> {
                    &&& #[trigger] merged@[4 * j] == colours@[4 * j]
                    &&& merged@[4 * j + 1] == colours@[4 * j + 1]
                    &&& merged@[4 * j + 2] == colours@[4 * j + 2]
                    &&& merged@[4 * j + 3] == alpha_of(marks@[j])
                },
        decreases count - i,
    {
        let ghost before = merged@;
        merged.push(colours[4 * i]);
        merged.push(colours[4 * i + 1]);
        merged.push(colours[4 * i + 2]);
        merged.push(255 - marks[i]);
        assert forall|j: int| 0 <= j < i + 1 implies {
            &&& #[trigger] merged@[4 * j] == colours@[4 * j]
            &&& merged@[4 * j + 1] == colours@[4 * j + 1]
            &&& merged@[4 * j + 2] == colours@[4 * j + 2]
            &&& merged@[4 * j + 3] == alpha_of(marks@[j])
        } by {
            if j < i {
                assert(merged@[4 * j] == before[4 * j]);
                assert(merged@[4 * j + 1] == before[4 * j + 1]);
                assert(merged@[4 * j + 2] == before[4 * j + 2]);
                assert(merged@[4 * j + 3] == before[4 * j + 3]);
            }
        }
        i += 1;
    }
    proof {
        let target = composited(image@, mask@);
        assert(pixels_of(merged@).len() == target.pixels.len());
        assert forall|j: int| 0 <= j < count implies pixels_of(merged@)[j] == target.pixels[j] by {
            assert(merged@[4 * j] == colours@[4 * j]);
            assert(pixels_of(colours@)[j] == image@.pixels[j]);
        }
        assert(pixels_of(merged@) =~= target.pixels);
    }
    PixelBuffer::new(width, height, merged)
}

/// What the composite holds at a position: the colour of the image and the
/// inverted intensity of the mask.
pub proof fn lemma_composited_at(image: PixelGrid, mask: MaskGrid, p: Point)
    requires
        image.wf(),
        mask.wf(),
        mask.width == image.width,
        mask.height == image.height,
        image.contains(p),
    ensures
        composited(image, mask).at(p) == (Rgba {
            r: image.at(p).r,
            g: image.at(p).g,
            b: image.at(p).b,
            a: alpha_of(mask.at(p)),
        }),
{
    lemma_index_in_range(image.width, image.height, p);
}

/// On a binary mask alpha and intensity are complementary in `{0, 255}`:
/// alpha is `255` exactly where the mask is `0`, and `0` exactly where the
/// mask is `255`.
pub proof fn lemma_binary_mask_alpha(image: PixelGrid, mask: MaskGrid, i: int)
    requires
        mask.is_binary(),
        image.pixels.len() == mask.samples.len(),
        0 <= i < mask.samples.len(),
    ensures
        composited(image, mask).pixels[i].a == 255 <==> mask.samples[i] == 0,
        composited(image, mask).pixels[i].a == 0 <==> mask.samples[i] == 255,
        composited(image, mask).pixels[i].a == 0 || composited(image, mask).pixels[i].a == 255,
        composited(image, mask).pixels[i].a + mask.samples[i] == 255,
{
    assert(mask.samples[i] == 0 || mask.samples[i] == 255);
}

/// The composite has the size of the image and its colours, whatever the mask.
pub proof fn lemma_composite_keeps_colour(image: PixelGrid, mask: MaskGrid, i: int)
    requires
        0 <= i < image.pixels.len(),
    ensures
        composited(image, mask).width == image.width,
        composited(image, mask).height == image.height,
        composited(image, mask).pixels.len() == image.pixels.len(),
        composited(image, mask).pixels[i].r == image.pixels[i].r,
        composited(image, mask).pixels[i].g == image.pixels[i].g,
        composited(image, mask).pixels[i].b == image.pixels[i].b,
{
}

} // verus!
