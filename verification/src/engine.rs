use vstd::prelude::*;
use crate::blur::{accepts_masks, blur_with, may_blur};
use crate::buffer::{buffer_outcome, PixelBuffer, PixelGrid};
use crate::composite::{composite, composited};
use crate::error::EngineError;
use crate::flood::flood_mask;
use crate::mask::{mask_outcome, Mask, MaskGrid};
use crate::threshold::threshold_mask;

verus! {

/// How the background is told from the subject.
#[derive(Clone, Copy, Debug, PartialEq, Eq, Structural)]
pub enum Algorithm {
    /// Hard edge: background is what a flood fill from the corners gets to
    /// through white-close pixels under `tolerance`.
    FloodFill { tolerance: u8 },
    /// Soft edge: background is every pixel at least `threshold` bright, and
    /// the mask is then smoothed with a Gaussian whose deviation, in pixels,
    /// is the single-precision number with the bit pattern `sigma_bits`.
    ThresholdBlur { threshold: u8, sigma_bits: u32 },
}

/// Whether `outcome` is something that building the mask of `image` with
/// `algorithm` may give.
pub open spec fn may_build<F: FnOnce(u32, u32, Vec<u8>, u32) -> Vec<u8>>(
    image: PixelGrid,
    algorithm: Algorithm,
    filter: F,
    outcome: Result<MaskGrid, EngineError>,
) -> bool {
    if image.is_empty() {
        outcome == Err::<MaskGrid, EngineError>(EngineError::InvalidDimensions)
    } else {
        match algorithm {
            Algorithm::FloodFill { tolerance } => outcome == Ok::<MaskGrid, EngineError>(
                flood_mask(image, tolerance),
            ),
            Algorithm::ThresholdBlur { threshold, sigma_bits } => may_blur(
                threshold_mask(image, threshold),
                sigma_bits,
                filter,
                outcome,
            ),
        }
    }
}

/// What compositing `image` with the outcome of mask building gives.
pub open spec fn composited_outcome(image: PixelGrid, mask: Result<MaskGrid, EngineError>) -> Result<
    PixelGrid,
    EngineError,
> {
    match mask {
        Ok(grid) => Ok(composited(image, grid)),
        Err(e) => Err(e),
    }
}

/// Builds the mask of `image` with `algorithm`, smoothing included. `filter`
/// is the Gaussian filter that `blur_with` asks for; the flood fill does not
/// call it. The mask has the size of the image.
pub fn build_mask<F: FnOnce(u32, u32, Vec<u8>, u32) -> Vec<u8>>(
    image: &PixelBuffer,
    algorithm: Algorithm,
    filter: F,
) -> (r: Result<Mask, EngineError>)
    requires
        accepts_masks(filter),
    ensures
        may_build(image@, algorithm, filter, mask_outcome(r)),
        r matches Ok(mask) ==> mask@.wf() && mask@.width == image@.width && mask@.height
            == image@.height && !image@.is_empty(),
{
    proof {
        use_type_invariant(image);
        image.lemma_view_wf();
    }
    match algorithm {
        Algorithm::FloodFill { tolerance } => {
            let built = crate::flood::build_mask(image, tolerance);
            proof {
                if !image@.is_empty() {
                    lemma_flood_mask_size(image@, tolerance);
                }
            }
            built
        },
        Algorithm::ThresholdBlur { threshold, sigma_bits } => {
            match crate::threshold::build_mask(image, threshold) {
                Ok(hard) => blur_with(&hard, sigma_bits, filter),
                Err(e) => Err(e),
            }
        },
    }
}

/// Removes the background of `image`: builds the mask with `algorithm`,
/// smoothing included, and composites it with the image. The result has the
/// size and the colours of `image`, and an alpha channel that is the inverted
/// mask. `filter` is the Gaussian filter that `blur_with` asks for.
pub fn remove_background<F: FnOnce(u32, u32, Vec<u8>, u32) -> Vec<u8>>(
    image: &PixelBuffer,
    algorithm: Algorithm,
    filter: F,
) -> (r: Result<PixelBuffer, EngineError>)
    requires
        accepts_masks(filter),
    ensures
        exists|mask: Result<MaskGrid, EngineError>| #[trigger]
            may_build(image@, algorithm, filter, mask) && buffer_outcome(r) == composited_outcome(
                image@,
                mask,
            ),
        r matches Ok(out) ==> out@.wf() && out@.width == image@.width && out@.height == image@.height,
{
    let built = build_mask(image, algorithm, filter);
    let ghost outcome = mask_outcome(built);
    let mask: Mask = match built {
        Ok(mask) => mask,
        Err(e) => {
            assert(may_build(image@, algorithm, filter, outcome));
            return Err(e);
        },
    };
    let out = composite(image, &mask);
    proof {
        use_type_invariant(image);
        image.lemma_view_wf();
        assert(may_build(image@, algorithm, filter, outcome));
        assert(buffer_outcome(out) == composited_outcome(image@, outcome));
    }
    out
}

/// The builder's mask has the size of the image and one sample per pixel.
pub proof fn lemma_flood_mask_size(image: PixelGrid, tolerance: u8)
    requires
        image.wf(),
    ensures
        flood_mask(image, tolerance).wf(),
        flood_mask(image, tolerance).width == image.width,
        flood_mask(image, tolerance).height == image.height,
{
}

/// Source image, mask and output share one width and one height: the mask
/// of either builder has the size of the image, smoothed samples are taken
/// only at that size, and the composite has the size of the image.
pub proof fn lemma_sizes_preserved(
    image: PixelGrid,
    tolerance: u8,
    threshold: u8,
    smoothed: Seq<u8>,
    mask: MaskGrid,
)
    requires
        image.wf(),
    ensures
        flood_mask(image, tolerance).wf(),
        flood_mask(image, tolerance).width == image.width,
        flood_mask(image, tolerance).height == image.height,
        threshold_mask(image, threshold).wf(),
        threshold_mask(image, threshold).width == image.width,
        threshold_mask(image, threshold).height == image.height,
        crate::blur::smoothed_mask(threshold_mask(image, threshold), smoothed) matches Ok(soft) ==> soft.wf()
            && soft.width == image.width && soft.height == image.height,
        composited(image, mask).wf(),
        composited(image, mask).width == image.width,
        composited(image, mask).height == image.height,
{
}

} // verus!
