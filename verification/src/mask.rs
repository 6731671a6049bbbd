use vstd::prelude::*;
use crate::error::EngineError;
use crate::grid::{in_grid, index_of, lemma_index_in_range, lemma_index_injective, Point};

verus! {

/// What a mask is, mathematically: a size and one intensity in `[0, 255]` per
/// position, row by row. `255` is background, `0` is foreground, and a value
/// between them a degree of background-ness.
pub struct MaskGrid {
    pub width: nat,
    pub height: nat,
    pub samples: Seq<u8>,
}

impl MaskGrid {
    /// There is exactly one sample per position.
    pub open spec fn wf(self) -> bool {
        &&& self.width <= u32::MAX
        &&& self.height <= u32::MAX
        &&& self.samples.len() == self.width * self.height
    }

    /// The mask has no position at all.
    pub open spec fn is_empty(self) -> bool {
        self.width == 0 || self.height == 0
    }

    pub open spec fn contains(self, p: Point) -> bool {
        in_grid(self.width, self.height, p)
    }

    /// The intensity at `p`.
    pub open spec fn at(self, p: Point) -> u8 {
        self.samples[index_of(self.width, p)]
    }

    /// This mask with the intensity at `p` replaced by `value`.
    pub open spec fn with(self, p: Point, value: u8) -> MaskGrid {
        MaskGrid { samples: self.samples.update(index_of(self.width, p), value), ..self }
    }

    /// The mask of the given size that marks nothing.
    pub open spec fn blank(width: nat, height: nat) -> MaskGrid {
        MaskGrid { width, height, samples: Seq::new(width * height, |i: int| 0u8) }
    }

    /// Every intensity is `0` or `255`.
    pub open spec fn is_binary(self) -> bool {
        forall|i: int| 0 <= i < self.samples.len() ==> self.samples[i] == 0 || self.samples[i] == 255
    }

    /// Every intensity is the same.
    pub open spec fn is_uniform(self) -> bool {
        forall|i: int| 0 <= i < self.samples.len() ==> #[trigger] self.samples[i] == self.samples[0]
    }

    /// Replacing the intensity at one position changes that position and no other.
    pub proof fn lemma_with(self, p: Point, value: u8, q: Point)
        requires
            self.wf(),
            self.contains(p),
            self.contains(q),
        ensures
            self.with(p, value).wf(),
            self.with(p, value).at(q) == (if q == p { value } else { self.at(q) }),
    {
        lemma_index_in_range(self.width, self.height, p);
        lemma_index_in_range(self.width, self.height, q);
        if q != p {
            if index_of(self.width, p) == index_of(self.width, q) {
                lemma_index_injective(self.width, self.height, p, q);
            }
        }
    }
}

/// A single-channel buffer of intensities, one per pixel of an image.
#[derive(Debug)]
pub struct Mask {
    width: u32,
    height: u32,
    data: Vec<u8>,
}

impl View for Mask {
    type V = MaskGrid;

    closed spec fn view(&self) -> MaskGrid {
        MaskGrid { width: self.width as nat, height: self.height as nat, samples: self.data@ }
    }
}

impl Clone for Mask {
    /// A copy with the same size and the same samples.
    fn clone(&self) -> (copy: Mask)
        ensures
            copy@ == self@,
    {
        proof {
            use_type_invariant(self);
        }
        let data: Vec<u8> = self.data.clone();
        assert(data@ == self.data@);
        Mask { width: self.width, height: self.height, data }
    }
}

impl Mask {
    #[verifier::type_invariant]
    pub closed spec fn well_formed(&self) -> bool {
        self.data@.len() == self.width * self.height
    }

    /// A mask that exists has one sample per position.
    pub proof fn lemma_view_wf(&self)
        requires
            self.well_formed(),
        ensures
            self@.wf(),
    {
    }

    /// A mask of the given size with every intensity `0`.
    pub fn new(width: u32, height: u32) -> (r: Result<Mask, EngineError>)
        ensures
            width * height > isize::MAX ==> r == Err::<Mask, EngineError>(EngineError::TooLarge),
            width * height <= isize::MAX ==> (r matches Ok(m) && m@ == MaskGrid::blank(
                width as nat,
                height as nat,
            )),
    {
        let count: u64 = area(width, height);
        if count > isize::MAX as u64 {
            return Err(EngineError::TooLarge);
        }
        let data: Vec<u8> = vec![0u8; count as usize];
        let mask = Mask { width, height, data };
        assert(mask@.samples =~= MaskGrid::blank(width as nat, height as nat).samples);
        Ok(mask)
    }

    /// A mask of the given size that holds `samples`, row by row.
    pub fn from_samples(width: u32, height: u32, samples: Vec<u8>) -> (r: Result<Mask, EngineError>)
        ensures
            samples@.len() != width * height ==> r == Err::<Mask, EngineError>(
                EngineError::DimensionMismatch,
            ),
            samples@.len() == width * height ==> (r matches Ok(m) && m@ == (MaskGrid {
                width: width as nat,
                height: height as nat,
                samples: samples@,
            })),
    {
        if samples.len() as u64 != area(width, height) {
            return Err(EngineError::DimensionMismatch);
        }
        Ok(Mask { width, height, data: samples })
    }

    pub fn width(&self) -> (w: u32)
        ensures
            w == self@.width,
    {
        self.width
    }

    pub fn height(&self) -> (h: u32)
        ensures
            h == self@.height,
    {
        self.height
    }

    /// The intensities, row by row.
    pub fn samples(&self) -> (s: &Vec<u8>)
        ensures
            s@ == self@.samples,
            self@.wf(),
    {
        proof {
            use_type_invariant(self);
        }
        &self.data
    }

    /// Gives up the mask for its intensities, row by row.
    pub fn into_samples(self) -> (s: Vec<u8>)
        ensures
            s@ == self@.samples,
            self@.wf(),
    {
        proof {
            use_type_invariant(&self);
        }
        self.data
    }

    /// The intensity at column `x`, row `y`.
    pub fn get(&self, x: u32, y: u32) -> (value: u8)
        requires
            self@.contains(Point { x, y }),
        ensures
            value == self@.at(Point { x, y }),
    {
        proof {
            use_type_invariant(self);
            assert(self.data.len() == self.data@.len());
        }
        let i: usize = offset(self.width, x, y, Ghost(self.height));
        self.data[i]
    }

    /// The intensity at column `x`, row `y`, if the mask has such a position.
    pub fn checked_get(&self, x: u32, y: u32) -> (r: Result<u8, EngineError>)
        ensures
            r == (if self@.contains(Point { x, y }) {
                Ok::<u8, EngineError>(self@.at(Point { x, y }))
            } else {
                Err::<u8, EngineError>(EngineError::OutOfRange)
            }),
    {
        if x < self.width && y < self.height {
            Ok(self.get(x, y))
        } else {
            Err(EngineError::OutOfRange)
        }
    }

    /// Sets the intensity at column `x`, row `y`.
    pub fn set(&mut self, x: u32, y: u32, value: u8)
        requires
            old(self)@.contains(Point { x, y }),
        ensures
            final(self)@ == old(self)@.with(Point { x, y }, value),
    {
        proof {
            use_type_invariant(&*self);
            assert(self.data.len() == self.data@.len());
        }
        let i: usize = offset(self.width, x, y, Ghost(self.height));
        self.data[i] = value;
    }

    /// Whether every intensity is `0` or `255`.
    pub fn is_binary(&self) -> (b: bool)
        ensures
            b == self@.is_binary(),
    {
        let mut i: usize = 0;
        while i < self.data.len()
            invariant
                i <= self.data@.len(),
                forall|j: int| 0 <= j < i ==> self.data@[j] == 0 || self.data@[j] == 255,
            decreases self.data@.len() - i,
        {
            if self.data[i] != 0 && self.data[i] != 255 {
                assert(self@.samples[i as int] != 0 && self@.samples[i as int] != 255);
                return false;
            }
            i += 1;
        }
        true
    }

    /// Whether every intensity is the same.
    pub fn is_uniform(&self) -> (b: bool)
        ensures
            b == self@.is_uniform(),
    {
        let mut i: usize = 1;
        while i < self.data.len()
            invariant
                1 <= i,
                forall|j: int| 0 <= j < i && j < self.data@.len() ==> #[trigger] self.data@[j] == self.data@[0],
            decreases self.data@.len() - i,
        {
            if self.data[i] != self.data[0] {
                assert(self@.samples[i as int] != self@.samples[0]);
                return false;
            }
            i += 1;
        }
        true
    }
}

/// What a result that may hold a mask stands for: the mask's model, or the error.
pub open spec fn mask_outcome(r: Result<Mask, EngineError>) -> Result<MaskGrid, EngineError> {
    match r {
        Ok(mask) => Ok(mask@),
        Err(e) => Err(e),
    }
}

/// The number of positions in a grid of the given size.
pub(crate) fn area(width: u32, height: u32) -> (n: u64)
    ensures
        n == width * height,
{
    assert(width * height <= 0xFFFF_FFFF * 0xFFFF_FFFF) by (nonlinear_arith)
        requires
            width <= 0xFFFF_FFFF,
            height <= 0xFFFF_FFFF,
    ;
    (width as u64) * (height as u64)
}

/// The row-major index of column `x`, row `y`.
pub(crate) fn offset(width: u32, x: u32, y: u32, Ghost(height): Ghost<u32>) -> (i: usize)
    requires
        x < width,
        y < height,
        width * height <= usize::MAX,
    ensures
        i == index_of(width as nat, Point { x, y }),
        i < width * height,
{
    proof {
        lemma_index_in_range(width as nat, height as nat, Point { x, y });
        assert(0 <= y * width <= y * width + x) by (nonlinear_arith);
    }
    (y as usize) * (width as usize) + (x as usize)
}

} // verus!
