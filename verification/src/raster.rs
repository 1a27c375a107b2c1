//! Decoding and resampling through the `image` crate.
//!
//! These are the only two operations this library does not carry out
//! itself: turning an encoded byte stream into raw pixels, and Gaussian
//! downsampling. Both are pure functions of their inputs, so each call is
//! described by an uninterpreted function of the bytes it was given.

use vstd::prelude::*;

use crate::error::ImageError;
use crate::pixels::{ImageModel, NormalizedImage, PixelEncoding, RawImage};

verus! {

/// The image that the `image` crate's decoder produces from an encoded byte
/// stream, when it accepts the stream: decoding is a function of the bytes
/// alone.
pub uninterp spec fn decoded_of(bytes: Seq<u8>) -> ImageModel;

/// Whether the `image` crate's decoder accepts an encoded byte stream:
/// acceptance, too, is a function of the bytes alone.
pub uninterp spec fn decode_accepts(bytes: Seq<u8>) -> bool;

/// Decode an encoded image (any container format the decoder knows, PNG and
/// JPEG among them) into its raw pixel buffer.
///
/// Relies on `image::load_from_memory` and the accessors of
/// `image::DynamicImage`: whether the bytes decode depends on the bytes
/// alone, a decoded image carries exactly
/// `width * height * bytes_per_pixel` buffer bytes, and `color()` names its
/// pixel layout. Pixel layouts other than the four supported 8-bit ones are
/// carried through as `PixelEncoding::Other`.
#[verifier::external_body]
pub(crate) fn decode_image(bytes: &Vec<u8>) -> (r: Result<RawImage, ImageError>)
    ensures
        r is Ok <==> decode_accepts(bytes@),
        r matches Ok(img) ==> img@ == decoded_of(bytes@) && img.wf(),
        r matches Err(e) ==> e == ImageError::Decode,
{
    let img = match image::load_from_memory(bytes.as_slice()) {
        Ok(decoded) => decoded,
        Err(_) => return Err(ImageError::Decode),
    };
    let encoding = match img.color() {
        image::ColorType::Rgb8 => PixelEncoding::Rgb8,
        image::ColorType::Rgba8 => PixelEncoding::Rgba8,
        image::ColorType::L8 => PixelEncoding::Luma8,
        image::ColorType::La8 => PixelEncoding::LumaA8,
        _ => PixelEncoding::Other,
    };
    Ok(RawImage { width: img.width(), height: img.height(), encoding, data: img.into_bytes() })
}

/// The RGBA bytes of an RGBA image of the given size, resampled to
/// `new_width` by `new_height` with a Gaussian filter: resampling is a
/// function of the pixels alone. One caveat: the Gaussian kernel evaluates
/// `f32::exp` through the platform math library, so the value this names is
/// fixed within any one build and run — the only scope the proofs here
/// use — but bit-identity across machines is not guaranteed.
pub uninterp spec fn resampled(
    new_width: nat,
    new_height: nat,
    width: nat,
    height: nat,
    data: Seq<u8>,
) -> Seq<u8>;

/// Resample a normalized RGBA image to the given dimensions, without
/// preserving the aspect ratio, using a Gaussian filter.
///
/// Relies on `image::DynamicImage::resize_exact`: the result always has
/// exactly the requested dimensions, four buffer bytes per pixel, even when
/// a source dimension is zero. The resampler allocates an output buffer of
/// `4 * new_width * new_height` entries and an intermediate one of
/// `4 * width * new_height`, and panics when either count overflows
/// `usize`, so both are bounded here.
#[verifier::external_body]
pub(crate) fn resample_rgba(img: &NormalizedImage, new_width: u32, new_height: u32) -> (r: Vec<
    u8,
>)
    requires
        img.wf(),
        4 * new_width * new_height <= usize::MAX,
        4 * img.width * new_height <= usize::MAX,
    ensures
        r@ == resampled(
            new_width as nat,
            new_height as nat,
            img.width as nat,
            img.height as nat,
            img.data@,
        ),
        r@.len() == 4 * new_width * new_height,
{
    let buffer = image::RgbaImage::from_raw(img.width, img.height, img.data.clone()).unwrap();
    let resized = image::DynamicImage::ImageRgba8(buffer).resize_exact(
        new_width,
        new_height,
        image::imageops::FilterType::Gaussian,
    );
    resized.into_rgba8().into_raw()
}

} // verus!
