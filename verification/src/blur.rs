use vstd::prelude::*;
use crate::error::EngineError;
use crate::mask::{mask_outcome, Mask, MaskGrid};

verus! {

/// Whether the deviation whose IEEE 754 single-precision bit pattern is
/// `sigma_bits` is at most zero: plus or minus zero, a negative number, or
/// minus infinity. A pattern that is not a number is not at most zero.
pub open spec fn sigma_is_not_positive(sigma_bits: u32) -> bool {
    sigma_bits == 0 || 0x8000_0000 <= sigma_bits <= 0xFF80_0000
}

/// Whether smoothing leaves the mask as it is: the deviation is at most zero,
/// or every intensity is the same, so that there is no edge to feather.
pub open spec fn blur_keeps(mask: MaskGrid, sigma_bits: u32) -> bool {
    sigma_is_not_positive(sigma_bits) || mask.is_uniform()
}

/// What smoothing does with a mask.
#[derive(Clone, Copy, Debug, PartialEq, Eq, Structural)]
pub enum BlurPlan {
    /// The mask stays as it is.
    Keep,
    /// The mask goes through the Gaussian filter.
    Smooth,
}

/// What smoothing does with `mask` under the given deviation, or why it refuses.
pub open spec fn blur_plan(mask: MaskGrid, sigma_bits: u32) -> Result<BlurPlan, EngineError> {
    if mask.is_empty() {
        Err(EngineError::InvalidDimensions)
    } else if blur_keeps(mask, sigma_bits) {
        Ok(BlurPlan::Keep)
    } else {
        Ok(BlurPlan::Smooth)
    }
}

/// Whether the deviation with the given bit pattern is at most zero.
pub fn sigma_not_positive(sigma_bits: u32) -> (b: bool)
    ensures
        b == sigma_is_not_positive(sigma_bits),
{
    sigma_bits == 0 || (0x8000_0000 <= sigma_bits && sigma_bits <= 0xFF80_0000)
}

/// Decides what smoothing does with `mask`. The deviation is given by the bit
/// pattern of a single-precision number, in pixels. A mask with a zero side is
/// refused; a deviation of at most zero, or a mask whose intensities are all
/// the same, keeps the mask; anything else sends it through the filter.
pub fn plan_blur(mask: &Mask, sigma_bits: u32) -> (r: Result<BlurPlan, EngineError>)
    ensures
        r == blur_plan(mask@, sigma_bits),
{
    if mask.width() == 0 || mask.height() == 0 {
        return Err(EngineError::InvalidDimensions);
    }
    if sigma_not_positive(sigma_bits) || mask.is_uniform() {
        Ok(BlurPlan::Keep)
    } else {
        Ok(BlurPlan::Smooth)
    }
}

/// Whether `filter` may be called on every mask that smoothing sends it:
/// sides that are not zero, one sample per position, and a deviation that is
/// not at most zero.
pub open spec fn accepts_masks<F: FnOnce(u32, u32, Vec<u8>, u32) -> Vec<u8>>(filter: F) -> bool {
    forall|width: u32, height: u32, samples: Vec<u8>, sigma_bits: u32|
        width > 0 && height > 0 && samples@.len() == width * height && !sigma_is_not_positive(sigma_bits)
            ==> #[trigger] filter.requires((width, height, samples, sigma_bits))
}

/// Whether `outcome` is something that smoothing `mask` with `filter` may
/// give: the refusal or the kept mask where the plan says so, and otherwise
/// what `filter` may return for the mask's samples, taken as the new mask.
pub open spec fn may_blur<F: FnOnce(u32, u32, Vec<u8>, u32) -> Vec<u8>>(
    mask: MaskGrid,
    sigma_bits: u32,
    filter: F,
    outcome: Result<MaskGrid, EngineError>,
) -> bool {
    match blur_plan(mask, sigma_bits) {
        Err(e) => outcome == Err::<MaskGrid, EngineError>(e),
        Ok(BlurPlan::Keep) => outcome == Ok::<MaskGrid, EngineError>(mask),
        Ok(BlurPlan::Smooth) => exists|given: Vec<u8>, smoothed: Vec<u8>|
            {
                &&& given@ == mask.samples
                &&& #[trigger] filter.ensures(
                    (mask.width as u32, mask.height as u32, given, sigma_bits),
                    smoothed,
                )
                &&& outcome == smoothed_mask(mask, smoothed@)
            },
    }
}

/// Smooths `mask` into a continuous mask of the same size, so that the hard
/// edge of a binary mask becomes a gradient. `mask` is not changed.
///
/// The Gaussian filter itself computes in floating point and is handed in as
/// `filter`: it gets the width, the height, the samples row by row and the bit
/// pattern of the deviation, and gives the smoothed samples. It is called only
/// where `plan_blur` says `Smooth`, and at most once. What it gives is taken
/// as the new mask if it has one sample per position, and refused otherwise.
/// Every intensity of the result lies in `[0, 255]`.
pub fn blur_with<F: FnOnce(u32, u32, Vec<u8>, u32) -> Vec<u8>>(mask: &Mask, sigma_bits: u32, filter: F) -> (r:
    Result<Mask, EngineError>)
    requires
        accepts_masks(filter),
    ensures
        may_blur(mask@, sigma_bits, filter, mask_outcome(r)),
        r matches Ok(out) ==> out@.wf() && out@.width == mask@.width && out@.height == mask@.height
            && (forall|i: int| 0 <= i < out@.samples.len() ==> 0 <= #[trigger] out@.samples[i] <= 255),
{
    let width: u32 = mask.width();
    let height: u32 = mask.height();
    match plan_blur(mask, sigma_bits) {
        Err(e) => Err(e),
        Ok(BlurPlan::Keep) => {
            proof {
                use_type_invariant(mask);
                mask.lemma_view_wf();
            }
            Ok(mask.clone())
        },
        Ok(BlurPlan::Smooth) => {
            let given: Vec<u8> = mask.samples().clone();
            assert(given@ == mask@.samples);
            let ghost sent = given;
            let smoothed: Vec<u8> = filter(width, height, given, sigma_bits);
            let r = take_smoothed(mask, smoothed);
            assert(filter.ensures((mask@.width as u32, mask@.height as u32, sent, sigma_bits), smoothed));
            assert(mask_outcome(r) == smoothed_mask(mask@, smoothed@));
            r
        },
    }
}

/// The mask that smoothed samples make of `mask`, or the refusal of samples
/// that do not fit it.
pub open spec fn smoothed_mask(mask: MaskGrid, smoothed: Seq<u8>) -> Result<MaskGrid, EngineError> {
    if smoothed.len() == mask.width * mask.height {
        Ok(MaskGrid { width: mask.width, height: mask.height, samples: smoothed })
    } else {
        Err(EngineError::DimensionMismatch)
    }
}

/// Takes what the filter made of `mask`: a mask of the same size over
/// `smoothed`, if there is one sample per position.
pub fn take_smoothed(mask: &Mask, smoothed: Vec<u8>) -> (r: Result<Mask, EngineError>)
    ensures
        mask_outcome(r) == smoothed_mask(mask@, smoothed@),
        r matches Ok(out) ==> out@.wf(),
{
    proof {
        use_type_invariant(mask);
        mask.lemma_view_wf();
    }
    Mask::from_samples(mask.width(), mask.height(), smoothed)
}

/// Blurring a uniform mask is a no-op, whatever the deviation and whatever
/// the filter: the only outcome is the mask itself.
pub proof fn lemma_uniform_mask_is_kept<F: FnOnce(u32, u32, Vec<u8>, u32) -> Vec<u8>>(
    mask: MaskGrid,
    sigma_bits: u32,
    filter: F,
    outcome: Result<MaskGrid, EngineError>,
)
    requires
        !mask.is_empty(),
        mask.is_uniform(),
        may_blur(mask, sigma_bits, filter, outcome),
    ensures
        outcome == Ok::<MaskGrid, EngineError>(mask),
{
}

/// With a deviation of at most zero smoothing is the identity, whatever the
/// mask and whatever the filter.
pub proof fn lemma_no_deviation_keeps_mask<F: FnOnce(u32, u32, Vec<u8>, u32) -> Vec<u8>>(
    mask: MaskGrid,
    sigma_bits: u32,
    filter: F,
    outcome: Result<MaskGrid, EngineError>,
)
    requires
        !mask.is_empty(),
        sigma_is_not_positive(sigma_bits),
        may_blur(mask, sigma_bits, filter, outcome),
    ensures
        outcome == Ok::<MaskGrid, EngineError>(mask),
{
}

/// Whatever smoothing gives has the size of the mask it was given, and
/// intensities in `[0, 255]`.
pub proof fn lemma_blur_keeps_size<F: FnOnce(u32, u32, Vec<u8>, u32) -> Vec<u8>>(
    mask: MaskGrid,
    sigma_bits: u32,
    filter: F,
    outcome: Result<MaskGrid, EngineError>,
)
    requires
        mask.wf(),
        may_blur(mask, sigma_bits, filter, outcome),
    ensures
        outcome matches Ok(out) ==> out.wf() && out.width == mask.width && out.height == mask.height
            && (forall|i: int| 0 <= i < out.samples.len() ==> 0 <= #[trigger] out.samples[i] <= 255),
{
}

} // verus!
