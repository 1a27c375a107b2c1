//! Errors reported while building an image fingerprint.

use vstd::prelude::*;

verus! {

/// Why an image could not be turned into a fingerprint.
#[derive(Clone, Copy, Debug, PartialEq, Eq, Structural)]
pub enum ImageError {
    /// The byte stream could not be decoded as an image.
    Decode,
    /// The decoded image uses a pixel layout outside the four supported
    /// 8-bit encodings.
    UnsupportedEncoding,
}

impl ImageError {
    /// A human-readable description of the error.
    pub fn message(&self) -> (s: &'static str)
        ensures
            *self is Decode ==> s@ == "failed to open or decode the image"@,
            *self is UnsupportedEncoding ==> s@ == "unsupported pixel encoding"@,
    {
        match self {
            ImageError::Decode => "failed to open or decode the image",
            ImageError::UnsupportedEncoding => "unsupported pixel encoding",
        }
    }
}

} // verus!
