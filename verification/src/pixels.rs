//! Pixel-level data model and color normalization.
//!
//! A decoded image arrives in one of four supported 8-bit pixel encodings.
//! Normalization rewrites its byte buffer into the canonical 4-channel
//! (R, G, B, A) layout; every later stage works on that layout only.

use vstd::prelude::*;

use crate::error::ImageError;

verus! {

/// Pixel layout of a decoded image.
#[derive(Clone, Copy, Debug, PartialEq, Eq, Structural)]
pub enum PixelEncoding {
    /// 8-bit red, green, blue.
    Rgb8,
    /// 8-bit red, green, blue, alpha.
    Rgba8,
    /// 8-bit grayscale.
    Luma8,
    /// 8-bit grayscale with alpha.
    LumaA8,
    /// Any other pixel layout; such an image cannot be normalized.
    Other,
}

/// Bytes per pixel of a supported encoding.
pub open spec fn bytes_per_pixel(enc: PixelEncoding) -> int {
    match enc {
        PixelEncoding::Rgb8 => 3,
        PixelEncoding::Rgba8 => 4,
        PixelEncoding::Luma8 => 1,
        PixelEncoding::LumaA8 => 2,
        PixelEncoding::Other => 1,
    }
}

/// Mathematical model of a decoded image: dimensions, pixel layout, and the
/// raw byte buffer in that layout.
pub ghost struct ImageModel {
    pub width: nat,
    pub height: nat,
    pub encoding: PixelEncoding,
    pub data: Seq<u8>,
}

impl ImageModel {
    /// The byte buffer holds exactly one pixel per grid point. Nothing is
    /// known about the buffer of an unsupported layout.
    pub open spec fn wf(self) -> bool {
        !(self.encoding is Other) ==> self.data.len() == self.width * self.height
            * bytes_per_pixel(self.encoding)
    }
}

/// A decoded image: dimensions, pixel layout, and the raw bytes of its
/// pixel buffer in row-major order.
pub struct RawImage {
    pub width: u32,
    pub height: u32,
    pub encoding: PixelEncoding,
    pub data: Vec<u8>,
}

impl View for RawImage {
    type V = ImageModel;

    open spec fn view(&self) -> ImageModel {
        ImageModel {
            width: self.width as nat,
            height: self.height as nat,
            encoding: self.encoding,
            data: self.data@,
        }
    }
}

impl RawImage {
    /// The buffer length matches the dimensions and pixel layout.
    pub open spec fn wf(&self) -> bool {
        self@.wf()
    }
}

/// An image guaranteed to be in 4-channel 8-bit (R, G, B, A) layout.
pub struct NormalizedImage {
    pub width: u32,
    pub height: u32,
    pub data: Vec<u8>,
}

impl NormalizedImage {
    /// Four bytes for every pixel of the image.
    pub open spec fn wf(&self) -> bool {
        self.data@.len() == 4 * self.width * self.height
    }
}

/// The RGBA bytes that normalization produces from a buffer in the given
/// encoding: RGB gains an opaque alpha, RGBA passes through unchanged, and
/// grayscale replicates its intensity to R, G and B, keeping its alpha when
/// it has one and becoming opaque otherwise.
pub open spec fn normalized_data(enc: PixelEncoding, data: Seq<u8>) -> Seq<u8> {
    match enc {
        PixelEncoding::Rgba8 => data,
        PixelEncoding::Rgb8 => Seq::new(
            (data.len() / 3) * 4,
            |i: int| if i % 4 < 3 {
                data[(i / 4) * 3 + i % 4]
            } else {
                255u8
            },
        ),
        PixelEncoding::Luma8 => Seq::new(
            data.len() * 4,
            |i: int| if i % 4 < 3 {
                data[i / 4]
            } else {
                255u8
            },
        ),
        PixelEncoding::LumaA8 => Seq::new(
            (data.len() / 2) * 4,
            |i: int| if i % 4 < 3 {
                data[(i / 4) * 2]
            } else {
                data[(i / 4) * 2 + 1]
            },
        ),
        PixelEncoding::Other => Seq::empty(),
    }
}

/// Normalizing a buffer that is already RGBA leaves it bitwise unchanged.
pub proof fn lemma_normalize_rgba_identity(data: Seq<u8>)
    ensures
        normalized_data(PixelEncoding::Rgba8, data) == data,
{
}

/// Convert a decoded image into the canonical RGBA layout.
///
/// The four supported encodings are mapped pixel for pixel as
/// `normalized_data` describes; any other pixel layout is rejected, which
/// must abort the whole comparison.
pub fn normalize(img: &RawImage) -> (r: Result<NormalizedImage, ImageError>)
    requires
        img.wf(),
    ensures
        match r {
            Ok(n) => {
                &&& !(img@.encoding is Other)
                &&& n.width == img.width
                &&& n.height == img.height
                &&& n.data@ == normalized_data(img@.encoding, img@.data)
                &&& n.wf()
            },
            Err(e) => img@.encoding is Other && e == ImageError::UnsupportedEncoding,
        },
{
    match img.encoding {
        PixelEncoding::Rgba8 => {
            let mut out: Vec<u8> = Vec::new();
            let mut i: usize = 0;
            while i < img.data.len()
                invariant
                    i <= img.data@.len(),
                    out@ == img.data@.take(i as int),
                decreases img.data@.len() - i,
            {
                out.push(img.data[i]);
                proof {
                    assert(out@ =~= img.data@.take(i + 1));
                }
                i = i + 1;
            }
            proof {
                assert(out@ =~= img.data@);
                lemma_buffer_pixels(img.width as int, img.height as int, 4, img.data@.len() as int);
            }
            Ok(NormalizedImage { width: img.width, height: img.height, data: out })
        },
        PixelEncoding::Rgb8 => {
            let npix = img.data.len() / 3;
            let mut out: Vec<u8> = Vec::new();
            let mut j: usize = 0;
            while j < npix
                invariant
                    j <= npix,
                    npix == img.data@.len() / 3,
                    img.data@.len() <= usize::MAX,
                    out@.len() == 4 * j,
                    forall|i: int|
                        0 <= i < 4 * j ==> out@[i] == normalized_data(
                            PixelEncoding::Rgb8,
                            img.data@,
                        )[i],
                decreases npix - j,
            {
                proof {
                    assert(3 * (j as int) + 2 < img.data@.len()) by (nonlinear_arith)
                        requires
                            0 <= j < npix,
                            npix == img.data@.len() / 3,
                    ;
                }
                out.push(img.data[3 * j]);
                out.push(img.data[3 * j + 1]);
                out.push(img.data[3 * j + 2]);
                out.push(255);
                proof {
                    assert forall|i: int| 0 <= i < 4 * (j + 1) implies out@[i] == normalized_data(
                        PixelEncoding::Rgb8,
                        img.data@,
                    )[i] by {
                        if 4 * (j as int) <= i {
                            lemma_expanded_pixel_matches(j as int, i);
                        }
                    }
                }
                j = j + 1;
            }
            proof {
                lemma_buffer_pixels(img.width as int, img.height as int, 3, img.data@.len() as int);
                assert(out@ =~= normalized_data(PixelEncoding::Rgb8, img.data@));
            }
            Ok(NormalizedImage { width: img.width, height: img.height, data: out })
        },
        PixelEncoding::Luma8 => {
            let npix = img.data.len();
            let mut out: Vec<u8> = Vec::new();
            let mut j: usize = 0;
            while j < npix
                invariant
                    j <= npix,
                    npix == img.data@.len(),
                    out@.len() == 4 * j,
                    forall|i: int|
                        0 <= i < 4 * j ==> out@[i] == normalized_data(
                            PixelEncoding::Luma8,
                            img.data@,
                        )[i],
                decreases npix - j,
            {
                let v = img.data[j];
                out.push(v);
                out.push(v);
                out.push(v);
                out.push(255);
                proof {
                    assert forall|i: int| 0 <= i < 4 * (j + 1) implies out@[i] == normalized_data(
                        PixelEncoding::Luma8,
                        img.data@,
                    )[i] by {
                        if 4 * (j as int) <= i {
                            lemma_expanded_pixel_matches(j as int, i);
                        }
                    }
                }
                j = j + 1;
            }
            proof {
                lemma_buffer_pixels(img.width as int, img.height as int, 1, img.data@.len() as int);
                assert(out@ =~= normalized_data(PixelEncoding::Luma8, img.data@));
            }
            Ok(NormalizedImage { width: img.width, height: img.height, data: out })
        },
        PixelEncoding::LumaA8 => {
            let npix = img.data.len() / 2;
            let mut out: Vec<u8> = Vec::new();
            let mut j: usize = 0;
            while j < npix
                invariant
                    j <= npix,
                    npix == img.data@.len() / 2,
                    img.data@.len() <= usize::MAX,
                    out@.len() == 4 * j,
                    forall|i: int|
                        0 <= i < 4 * j ==> out@[i] == normalized_data(
                            PixelEncoding::LumaA8,
                            img.data@,
                        )[i],
                decreases npix - j,
            {
                proof {
                    assert(2 * (j as int) + 1 < img.data@.len()) by (nonlinear_arith)
                        requires
                            0 <= j < npix,
                            npix == img.data@.len() / 2,
                    ;
                }
                let v = img.data[2 * j];
                out.push(v);
                out.push(v);
                out.push(v);
                out.push(img.data[2 * j + 1]);
                proof {
                    assert forall|i: int| 0 <= i < 4 * (j + 1) implies out@[i] == normalized_data(
                        PixelEncoding::LumaA8,
                        img.data@,
                    )[i] by {
                        if 4 * (j as int) <= i {
                            lemma_expanded_pixel_matches(j as int, i);
                        }
                    }
                }
                j = j + 1;
            }
            proof {
                lemma_buffer_pixels(img.width as int, img.height as int, 2, img.data@.len() as int);
                assert(out@ =~= normalized_data(PixelEncoding::LumaA8, img.data@));
            }
            Ok(NormalizedImage { width: img.width, height: img.height, data: out })
        },
        PixelEncoding::Other => Err(ImageError::UnsupportedEncoding),
    }
}

/// A buffer of `w * h` pixels at `s` bytes each holds `len / s` pixels, and
/// its RGBA expansion holds four bytes per pixel.
proof fn lemma_buffer_pixels(w: int, h: int, s: int, len: int)
    by (nonlinear_arith)
    requires
        1 <= s,
        0 <= w,
        0 <= h,
        len == w * h * s,
    ensures
        len / s == w * h,
        (len / s) * 4 == 4 * w * h,
        s == 4 ==> len == 4 * w * h,
{
}

/// Index arithmetic behind the pixel-expansion loops: an output byte index
/// within the four slots of pixel `j` decomposes into that pixel number and
/// a channel offset.
proof fn lemma_expanded_pixel_matches(j: int, i: int)
    requires
        0 <= j,
        4 * j <= i < 4 * j + 4,
    ensures
        i / 4 == j,
        i % 4 == i - 4 * j,
{
    assert(i / 4 == j && i % 4 == i - 4 * j) by (nonlinear_arith)
        requires
            0 <= j,
            4 * j <= i < 4 * j + 4,
    ;
}

} // verus!
