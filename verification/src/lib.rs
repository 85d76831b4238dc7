//! A tensor-transform engine for raster images.
//!
//! Images are converted into a dense pixel tensor (rows of pixels of four
//! fixed-point channel values), transformed in tensor space (bilinear resize,
//! alpha-composited overlay, axis flips, scale-to-fit), and converted back.
//! Decoding, encoding and document assembly are left to callers; the library
//! only consumes and produces decoded raster images and tensors.

pub mod codec;
pub mod compose;
pub mod finder;
pub mod fit;
pub mod flip;
pub mod resample;
pub mod tensor;
