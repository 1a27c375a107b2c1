//! Compare two raster images by reducing each to a small color fingerprint.
//!
//! An image is decoded, normalized to 8-bit RGBA, downsampled to a 16x16
//! grid, and summarized as a sequence of squared-channel color transitions.
//! Two fingerprints are then compared positionally to yield a difference
//! measure from which a similarity percentage is derived.

pub mod comparer;
pub mod error;
pub mod fingerprint;
pub mod pixels;
pub mod raster;
