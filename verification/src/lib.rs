//! Background removal by colour proximity.
//!
//! A colour buffer goes through a mask builder, optionally through a smoothing
//! pass, and through the compositor, which turns the mask into the alpha
//! channel of a new buffer:
//!
//! - `buffer` and `mask` hold the data: colour buffers and intensity masks;
//! - `flood` builds a mask by connectivity, `threshold` by brightness;
//! - `blur` decides whether a mask is smoothed and takes the smoothed samples;
//! - `composite` merges image and mask;
//! - `engine` runs one of the two pipelines from end to end.
//!
//! `catalog` and `color` read the answers of the paint catalogue that the
//! pictures come from.

pub mod blur;
pub mod buffer;
pub mod catalog;
pub mod color;
pub mod composite;
pub mod engine;
pub mod error;
pub mod flood;
pub mod grid;
pub mod mask;
pub mod threshold;
