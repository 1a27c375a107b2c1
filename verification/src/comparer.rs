//! Pairwise comparison of image fingerprints.
//!
//! The comparer holds one fingerprint per input image together with a small
//! diagnostic map per image. The difference between two images is computed
//! positionally over their fingerprints, truncated to the shorter one; the
//! trailing entries of the longer fingerprint are deliberately ignored.

use vstd::prelude::*;

use std::collections::HashMap;

use crate::error::ImageError;
use crate::fingerprint::{
    delta_in_range, extract_fingerprint, fingerprint_spec, lemma_fingerprint_entries_in_range,
    ColorDelta,
};
use crate::pixels::{normalize, normalized_data};
use crate::raster::{decode_accepts, decode_image, decoded_of, resample_rgba, resampled};

verus! {

broadcast use vstd::std_specs::hash::group_hash_axioms;

/// The side of the square grid an image is downsampled to.
pub const GRID_SIDE: u32 = 16;

/// Absolute value of a mathematical integer.
pub open spec fn abs(x: int) -> int {
    if x < 0 {
        -x
    } else {
        x
    }
}

/// The smaller of two mathematical integers.
pub open spec fn spec_min(a: int, b: int) -> int {
    if a <= b {
        a
    } else {
        b
    }
}

/// Channel `c` of a fingerprint entry: 0 is R, 1 is G, 2 is B.
pub open spec fn channel(d: ColorDelta, c: int) -> int {
    if c == 0 {
        d.r as int
    } else if c == 1 {
        d.g as int
    } else {
        d.b as int
    }
}

/// Mathematical model of one held image: its fingerprint and its diagnostic
/// map.
pub ghost struct EntryModel {
    pub fingerprint: Seq<ColorDelta>,
    pub metadata: Map<usize, i32>,
}

/// Mathematical model of the comparer.
pub ghost struct ComparerModel {
    pub compare_with_first: bool,
    pub images: Seq<EntryModel>,
}

struct ImageEntry {
    fingerprint: Vec<ColorDelta>,
    metadata: HashMap<usize, i32>,
}

impl View for ImageEntry {
    type V = EntryModel;

    closed spec fn view(&self) -> EntryModel {
        EntryModel { fingerprint: self.fingerprint@, metadata: self.metadata@ }
    }
}

/// The fingerprint that the whole pipeline assigns to an encoded byte
/// stream: decode, normalize to RGBA, resample to the 16x16 grid with a
/// Gaussian filter, and delta-encode the squared channel values.
pub open spec fn fingerprint_from_bytes(bytes: Seq<u8>) -> Seq<ColorDelta> {
    let img = decoded_of(bytes);
    fingerprint_spec(
        resampled(
            GRID_SIDE as nat,
            GRID_SIDE as nat,
            img.width,
            img.height,
            normalized_data(img.encoding, img.data),
        ),
    )
}

/// An encoded byte stream the comparer can fingerprint: the decoder accepts
/// it, the decoded pixel layout is one of the four supported encodings, and
/// a 16-row resampling buffer for the decoded width is addressable (64
/// bytes per width unit: four channels by 16 rows).
pub open spec fn image_accepted(bytes: Seq<u8>) -> bool {
    &&& decode_accepts(bytes)
    &&& !(decoded_of(bytes).encoding is Other)
    &&& decoded_of(bytes).width <= usize::MAX as int / 64
}

/// The positional difference terms of two fingerprints: for each index up to
/// the shorter length, the absolute difference of each of the three
/// channels, in channel order. Trailing entries of the longer fingerprint
/// contribute nothing.
pub open spec fn difference_terms_spec(fp0: Seq<ColorDelta>, fp1: Seq<ColorDelta>) -> Seq<int> {
    Seq::new(
        (3 * spec_min(fp0.len() as int, fp1.len() as int)) as nat,
        |j: int| abs(channel(fp0[j / 3], j % 3) - channel(fp1[j / 3], j % 3)),
    )
}

/// Holds the fingerprints of the images under comparison, in argument
/// order, with a diagnostic map per image.
pub struct ImagesComparer {
    pub compare_with_first: bool,
    images: Vec<ImageEntry>,
}

impl View for ImagesComparer {
    type V = ComparerModel;

    closed spec fn view(&self) -> ComparerModel {
        ComparerModel {
            compare_with_first: self.compare_with_first,
            images: Seq::new(self.images@.len(), |k: int| self.images@[k]@),
        }
    }
}

impl ImagesComparer {
    /// Every fingerprint entry lies in the squared-channel delta range.
    pub open spec fn wf(&self) -> bool {
        forall|k: int, i: int|
            0 <= k < self@.images.len() && 0 <= i < self@.images[k].fingerprint.len()
                ==> delta_in_range(#[trigger] self@.images[k].fingerprint[i])
    }

    /// Build a comparer from the encoded bytes of the input images, in
    /// order: each is decoded, normalized, downsampled and fingerprinted.
    /// Construction succeeds exactly when every input is accepted; a byte
    /// stream the decoder rejects (or whose decoded width no resampling
    /// buffer could address) stops the run with `Decode`, and a decoded
    /// image in an unsupported pixel layout stops it with
    /// `UnsupportedEncoding`.
    pub fn new(images: &Vec<Vec<u8>>) -> (r: Result<ImagesComparer, ImageError>)
        ensures
            r is Ok <==> (forall|k: int|
                0 <= k < images@.len() ==> #[trigger] image_accepted(images@[k]@)),
            r matches Ok(c) ==> {
                &&& c.wf()
                &&& !c@.compare_with_first
                &&& c@.images.len() == images@.len()
                &&& forall|k: int|
                    0 <= k < images@.len() ==> (#[trigger] c@.images[k]).fingerprint
                        == fingerprint_from_bytes(images@[k]@) && c@.images[k].metadata
                        == Map::<usize, i32>::empty()
            },
            r matches Err(e) ==> ({
                ||| e == ImageError::Decode && (exists|k: int|
                    0 <= k < images@.len() && !(decode_accepts(#[trigger] images@[k]@)
                        && decoded_of(images@[k]@).width <= usize::MAX as int / 64))
                ||| e == ImageError::UnsupportedEncoding && (exists|k: int|
                    0 <= k < images@.len() && decode_accepts(#[trigger] images@[k]@)
                        && decoded_of(images@[k]@).encoding is Other)
            }),
    {
        let mut entries: Vec<ImageEntry> = Vec::new();
        let mut k: usize = 0;
        while k < images.len()
            invariant
                k <= images@.len(),
                entries@.len() == k,
                forall|j: int| 0 <= j < k as int ==> #[trigger] image_accepted(images@[j]@),
                forall|j: int|
                    0 <= j < k as int ==> (#[trigger] entries@[j])@.fingerprint
                        == fingerprint_from_bytes(images@[j]@) && entries@[j]@.metadata
                        == Map::<usize, i32>::empty(),
                forall|j: int, i: int|
                    0 <= j < k as int && 0 <= i < entries@[j]@.fingerprint.len()
                        ==> delta_in_range(#[trigger] entries@[j]@.fingerprint[i]),
            decreases images@.len() - k,
        {
            let img = match decode_image(&images[k]) {
                Ok(decoded) => decoded,
                Err(e) => {
                    proof {
                        assert(!decode_accepts(images@[k as int]@));
                        assert(!image_accepted(images@[k as int]@));
                    }
                    return Err(e);
                },
            };
            let norm = match normalize(&img) {
                Ok(n) => n,
                Err(e) => {
                    proof {
                        assert(decode_accepts(images@[k as int]@));
                        assert(decoded_of(images@[k as int]@).encoding is Other);
                        assert(!image_accepted(images@[k as int]@));
                    }
                    return Err(e);
                },
            };
            // An image so wide that a 16-row resampling buffer cannot be
            // addressed is rejected as undecodable; real decoders cannot
            // produce one.
            let width_limit = usize::MAX / 64;
            if norm.width as u64 > width_limit as u64 {
                proof {
                    assert(decoded_of(images@[k as int]@).width > usize::MAX as int / 64);
                    assert(!image_accepted(images@[k as int]@));
                }
                return Err(ImageError::Decode);
            }
            proof {
                assert(image_accepted(images@[k as int]@));
            }
            let grid = resample_rgba(&norm, GRID_SIDE, GRID_SIDE);
            let fp = extract_fingerprint(&grid);
            proof {
                lemma_fingerprint_entries_in_range(grid@);
            }
            entries.push(ImageEntry { fingerprint: fp, metadata: HashMap::new() });
            k = k + 1;
        }
        let comparer = ImagesComparer { compare_with_first: false, images: entries };
        proof {
            assert forall|k2: int| 0 <= k2 < images@.len() implies (
            #[trigger] comparer@.images[k2]).fingerprint == fingerprint_from_bytes(images@[k2]@)
                && comparer@.images[k2].metadata == Map::<usize, i32>::empty() by {
                assert(comparer@.images[k2] == entries@[k2]@);
            }
        }
        Ok(comparer)
    }

    /// How many images the comparer holds.
    pub fn image_count(&self) -> (n: usize)
        ensures
            n == self@.images.len(),
    {
        self.images.len()
    }

    /// The fingerprint of the image at position `k`.
    pub fn fingerprint_at(&self, k: usize) -> (fp: &Vec<ColorDelta>)
        requires
            k < self@.images.len(),
        ensures
            fp@ == self@.images[k as int].fingerprint,
    {
        &self.images[k].fingerprint
    }

    /// The diagnostic map of the image at position `k`.
    pub fn metadata_at(&self, k: usize) -> (m: &HashMap<usize, i32>)
        requires
            k < self@.images.len(),
        ensures
            m@ == self@.images[k as int].metadata,
    {
        &self.images[k].metadata
    }

    /// The positional difference terms between the first two images'
    /// fingerprints: `|fp0[i].c - fp1[i].c|` for each channel `c` of each
    /// index `i` up to the shorter fingerprint, in raster-then-channel
    /// order. Every term is at most 65025 + 65025.
    pub fn difference_terms(&self) -> (terms: Vec<i32>)
        requires
            self.wf(),
            self@.images.len() >= 2,
        ensures
            terms@.len() == difference_terms_spec(
                self@.images[0].fingerprint,
                self@.images[1].fingerprint,
            ).len(),
            forall|j: int|
                0 <= j < terms@.len() ==> #[trigger] terms@[j] as int == difference_terms_spec(
                    self@.images[0].fingerprint,
                    self@.images[1].fingerprint,
                )[j],
            forall|j: int| 0 <= j < terms@.len() ==> 0 <= #[trigger] terms@[j] <= 130050,
    {
        let ghost spec_terms = difference_terms_spec(
            self@.images[0].fingerprint,
            self@.images[1].fingerprint,
        );
        let len0 = self.images[0].fingerprint.len();
        let len1 = self.images[1].fingerprint.len();
        let n = if len0 <= len1 {
            len0
        } else {
            len1
        };
        let mut terms: Vec<i32> = Vec::new();
        let mut i: usize = 0;
        while i < n
            invariant
                i <= n,
                n as int == spec_min(
                    self@.images[0].fingerprint.len() as int,
                    self@.images[1].fingerprint.len() as int,
                ),
                self.wf(),
                self@.images.len() >= 2,
                n <= self@.images[0].fingerprint.len(),
                n <= self@.images[1].fingerprint.len(),
                spec_terms == difference_terms_spec(
                    self@.images[0].fingerprint,
                    self@.images[1].fingerprint,
                ),
                terms@.len() == 3 * i,
                forall|j: int| 0 <= j < 3 * i ==> #[trigger] terms@[j] as int == spec_terms[j],
                forall|j: int| 0 <= j < 3 * i ==> 0 <= #[trigger] terms@[j] <= 130050,
            decreases n - i,
        {
            let d0 = self.images[0].fingerprint[i];
            let d1 = self.images[1].fingerprint[i];
            proof {
                assert(d0 == self@.images[0].fingerprint[i as int]);
                assert(d1 == self@.images[1].fingerprint[i as int]);
            }
            terms.push(abs_diff(d0.r, d1.r));
            terms.push(abs_diff(d0.g, d1.g));
            terms.push(abs_diff(d0.b, d1.b));
            proof {
                assert forall|j: int| 0 <= j < 3 * (i + 1) implies #[trigger] terms@[j] as int
                    == spec_terms[j] && 0 <= terms@[j] <= 130050 by {
                    if 3 * (i as int) <= j {
                        lemma_term_index(i as int, j);
                    }
                }
            }
            i = i + 1;
        }
        terms
    }

    /// Record the integer-truncated aggregate difference against the second
    /// image in the first image's diagnostic map, under key 1. A purely
    /// diagnostic side effect; the similarity computation never reads it.
    pub fn compare(&mut self, diff: i32)
        requires
            old(self)@.images.len() >= 2,
        ensures
            final(self)@.images.len() == old(self)@.images.len(),
            final(self)@.compare_with_first == old(self)@.compare_with_first,
            final(self)@.images[0].fingerprint == old(self)@.images[0].fingerprint,
            final(self)@.images[0].metadata == old(self)@.images[0].metadata.insert(1usize, diff),
            forall|k: int|
                1 <= k < final(self)@.images.len() ==> #[trigger] final(self)@.images[k] == old(
                    self,
                )@.images[k],
            final(self).wf() <==> old(self).wf(),
    {
        let ghost old_model = self@;
        let mut entry = self.images.remove(0);
        entry.metadata.insert(1, diff);
        self.images.insert(0, entry);
        proof {
            let new_model = self@;
            assert forall|k: int| 1 <= k < new_model.images.len() implies #[trigger] new_model.images[k]
                == old_model.images[k] by {
                assert(self.images@[k] == old(self).images@[k]);
            }
            assert(new_model.images[0].fingerprint == old_model.images[0].fingerprint);
            assert forall|k: int|
                0 <= k < new_model.images.len() implies #[trigger] new_model.images[k].fingerprint
                == old_model.images[k].fingerprint by {
            }
            if old(self).wf() {
                assert forall|k: int, i: int|
                    0 <= k < new_model.images.len() && 0 <= i
                        < new_model.images[k].fingerprint.len() implies delta_in_range(
                    #[trigger] new_model.images[k].fingerprint[i],
                ) by {
                    assert(new_model.images[k].fingerprint == old_model.images[k].fingerprint);
                    assert(delta_in_range(old_model.images[k].fingerprint[i]));
                }
            }
            if self.wf() {
                assert forall|k: int, i: int|
                    0 <= k < old_model.images.len() && 0 <= i
                        < old_model.images[k].fingerprint.len() implies delta_in_range(
                    #[trigger] old_model.images[k].fingerprint[i],
                ) by {
                    assert(new_model.images[k].fingerprint == old_model.images[k].fingerprint);
                    assert(delta_in_range(new_model.images[k].fingerprint[i]));
                }
            }
        }
    }
}

/// The absolute difference of two fingerprint channels.
fn abs_diff(a: i32, b: i32) -> (r: i32)
    requires
        -65025 <= a <= 65025,
        -65025 <= b <= 65025,
    ensures
        r as int == abs(a - b),
        0 <= r <= 130050,
{
    if a >= b {
        a - b
    } else {
        b - a
    }
}

/// A term index within the three channel slots of fingerprint index `i`
/// decomposes into that index and a channel number.
proof fn lemma_term_index(i: int, j: int)
    requires
        0 <= i,
        3 * i <= j < 3 * i + 3,
    ensures
        j / 3 == i,
        j % 3 == j - 3 * i,
{
    assert(j / 3 == i && j % 3 == j - 3 * i) by (nonlinear_arith)
        requires
            0 <= i,
            3 * i <= j < 3 * i + 3,
    ;
}

/// Two identical fingerprints — as when an image is compared against
/// itself — yield only zero difference terms, from which the derived
/// similarity percentage is exactly 100.
pub proof fn lemma_identical_fingerprints_zero_difference(fp0: Seq<ColorDelta>, fp1: Seq<
    ColorDelta,
>)
    requires
        fp0 == fp1,
    ensures
        difference_terms_spec(fp0, fp1).len() == 3 * fp0.len(),
        forall|j: int|
            0 <= j < difference_terms_spec(fp0, fp1).len() ==> #[trigger] difference_terms_spec(
                fp0,
                fp1,
            )[j] == 0,
{
}

/// Identical input bytes give identical fingerprints through the whole
/// pipeline, so an image compared against itself has only zero difference
/// terms: the basis of full self-similarity.
pub proof fn lemma_same_bytes_zero_difference(bytes: Seq<u8>)
    ensures
        forall|j: int|
            0 <= j < difference_terms_spec(
                fingerprint_from_bytes(bytes),
                fingerprint_from_bytes(bytes),
            ).len() ==> #[trigger] difference_terms_spec(
                fingerprint_from_bytes(bytes),
                fingerprint_from_bytes(bytes),
            )[j] == 0,
{
    lemma_identical_fingerprints_zero_difference(
        fingerprint_from_bytes(bytes),
        fingerprint_from_bytes(bytes),
    );
}

} // verus!
