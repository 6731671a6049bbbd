use vstd::prelude::*;

verus! {

/// Why a stage of the engine refused its input.
#[derive(Clone, Copy, Debug, PartialEq, Eq, Structural)]
pub enum EngineError {
    /// A buffer has zero width or zero height.
    InvalidDimensions,
    /// A coordinate lies outside the buffer it addresses.
    OutOfRange,
    /// A sample array does not have the size its buffer states, or two buffers
    /// of one pipeline differ in size.
    DimensionMismatch,
    /// A buffer is larger than the machine can hold.
    TooLarge,
}

impl EngineError {
    /// The text of `message`.
    pub open spec fn message_text(self) -> Seq<char> {
        match self {
            EngineError::InvalidDimensions => "buffer has zero width or height"@,
            EngineError::OutOfRange => "coordinate outside the buffer"@,
            EngineError::DimensionMismatch => "buffer sizes do not match"@,
            EngineError::TooLarge => "buffer too large"@,
        }
    }

    /// A short description for people.
    pub fn message(&self) -> (text: String)
        ensures
            text@ == self.message_text(),
    {
        match self {
            EngineError::InvalidDimensions => "buffer has zero width or height".to_owned(),
            EngineError::OutOfRange => "coordinate outside the buffer".to_owned(),
            EngineError::DimensionMismatch => "buffer sizes do not match".to_owned(),
            EngineError::TooLarge => "buffer too large".to_owned(),
        }
    }
}

} // verus!
