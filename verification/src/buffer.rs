use vstd::prelude::*;
use crate::error::EngineError;
use crate::grid::{in_grid, index_of, lemma_index_in_range, Point, Rgba};
use crate::mask::area;

verus! {

/// What a colour buffer is, mathematically: a size and one pixel per position,
/// row by row.
pub struct PixelGrid {
    pub width: nat,
    pub height: nat,
    pub pixels: Seq<Rgba>,
}

impl PixelGrid {
    /// There is exactly one pixel per position.
    pub open spec fn wf(self) -> bool {
        &&& self.width <= u32::MAX
        &&& self.height <= u32::MAX
        &&& self.pixels.len() == self.width * self.height
    }

    /// The buffer has no position at all.
    pub open spec fn is_empty(self) -> bool {
        self.width == 0 || self.height == 0
    }

    pub open spec fn contains(self, p: Point) -> bool {
        in_grid(self.width, self.height, p)
    }

    /// The pixel at `p`.
    pub open spec fn at(self, p: Point) -> Rgba {
        self.pixels[index_of(self.width, p)]
    }
}

/// The pixels that interleaved red, green, blue and alpha samples spell out.
pub open spec fn pixels_of(samples: Seq<u8>) -> Seq<Rgba> {
    Seq::new(
        (samples.len() / 4) as nat,
        |i: int|
            Rgba {
                r: samples[4 * i],
                g: samples[4 * i + 1],
                b: samples[4 * i + 2],
                a: samples[4 * i + 3],
            },
    )
}

/// A colour image held in memory: four samples per pixel, row by row. It is
/// read, never written: every stage that changes pixels makes a new buffer.
#[derive(Debug)]
pub struct PixelBuffer {
    width: u32,
    height: u32,
    data: Vec<u8>,
}

impl View for PixelBuffer {
    type V = PixelGrid;

    closed spec fn view(&self) -> PixelGrid {
        PixelGrid {
            width: self.width as nat,
            height: self.height as nat,
            pixels: pixels_of(self.data@),
        }
    }
}

impl Clone for PixelBuffer {
    /// A copy with the same size and the same samples.
    fn clone(&self) -> (copy: PixelBuffer)
        ensures
            copy@ == self@,
    {
        proof {
            use_type_invariant(self);
        }
        let data: Vec<u8> = self.data.clone();
        assert(data@ == self.data@);
        PixelBuffer { width: self.width, height: self.height, data }
    }
}

impl PixelBuffer {
    #[verifier::type_invariant]
    pub closed spec fn well_formed(&self) -> bool {
        self.data@.len() == 4 * (self.width * self.height)
    }

    /// A buffer that exists has one pixel per position.
    pub proof fn lemma_view_wf(&self)
        requires
            self.well_formed(),
        ensures
            self@.wf(),
    {
    }

    /// A buffer of the given size over interleaved RGBA `samples`, row by row.
    pub fn new(width: u32, height: u32, samples: Vec<u8>) -> (r: Result<PixelBuffer, EngineError>)
        ensures
            samples@.len() != 4 * (width * height) ==> r == Err::<PixelBuffer, EngineError>(
                EngineError::DimensionMismatch,
            ),
            samples@.len() == 4 * (width * height) ==> (r matches Ok(b) && b@ == (PixelGrid {
                width: width as nat,
                height: height as nat,
                pixels: pixels_of(samples@),
            })),
    {
        let count: u64 = area(width, height);
        let len: u64 = samples.len() as u64;
        if len % 4 != 0 || len / 4 != count {
            return Err(EngineError::DimensionMismatch);
        }
        Ok(PixelBuffer { width, height, data: samples })
    }

    pub fn width(&self) -> (w: u32)
        ensures
            w == self@.width,
    {
        self.width
    }

    pub fn height(&self) -> (h: u32)
        ensures
            h == self@.height,
    {
        self.height
    }

    /// The interleaved RGBA samples, row by row.
    pub fn samples(&self) -> (s: &Vec<u8>)
        ensures
            self@.wf(),
            s@.len() == 4 * self@.pixels.len(),
            pixels_of(s@) == self@.pixels,
    {
        proof {
            use_type_invariant(self);
        }
        &self.data
    }

    /// Gives up the buffer for its interleaved RGBA samples, row by row.
    pub fn into_samples(self) -> (s: Vec<u8>)
        ensures
            self@.wf(),
            s@.len() == 4 * self@.pixels.len(),
            pixels_of(s@) == self@.pixels,
    {
        proof {
            use_type_invariant(&self);
        }
        self.data
    }

    /// The pixel at column `x`, row `y`.
    pub fn get(&self, x: u32, y: u32) -> (pixel: Rgba)
        requires
            self@.contains(Point { x, y }),
        ensures
            pixel == self@.at(Point { x, y }),
    {
        proof {
            use_type_invariant(self);
            assert(self.data.len() == self.data@.len());
            lemma_index_in_range(self.width as nat, self.height as nat, Point { x, y });
            assert(0 <= y * self.width <= y * self.width + x) by (nonlinear_arith);
        }
        let i: usize = 4 * ((y as usize) * (self.width as usize) + (x as usize));
        Rgba { r: self.data[i], g: self.data[i + 1], b: self.data[i + 2], a: self.data[i + 3] }
    }

    /// The pixel at column `x`, row `y`, if the buffer has such a position.
    pub fn checked_get(&self, x: u32, y: u32) -> (r: Result<Rgba, EngineError>)
        ensures
            r == (if self@.contains(Point { x, y }) {
                Ok::<Rgba, EngineError>(self@.at(Point { x, y }))
            } else {
                Err::<Rgba, EngineError>(EngineError::OutOfRange)
            }),
    {
        if x < self.width && y < self.height {
            Ok(self.get(x, y))
        } else {
            Err(EngineError::OutOfRange)
        }
    }
}

/// What a result that may hold a buffer stands for: the buffer's model, or the error.
pub open spec fn buffer_outcome(r: Result<PixelBuffer, EngineError>) -> Result<PixelGrid, EngineError> {
    match r {
        Ok(buffer) => Ok(buffer@),
        Err(e) => Err(e),
    }
}

} // verus!
