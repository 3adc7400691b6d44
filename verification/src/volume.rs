//! Slices of a NIfTI volume.
//!
//! The three leading dimensions of a volume are taken as height, width and
//! number of slices, in that order. The raw buffer holds 16-bit
//! little-endian samples, slice after slice. One gray window, found over
//! the whole buffer, serves every slice.

use vstd::prelude::*;
use crate::intensity::{
    get_min_max, highest_sample, lemma_sample_range, lowest_sample, read_sample, sample_at,
    samples, scale_pix_val, scaled_gray,
};
use crate::location::{index_location, single_bits};
use crate::slice::{ImageSlice, SliceView};

verus! {

/// The in-memory volume of the `nifti` crate. Nothing of it is seen here
/// but what the two names below stand for.
#[verifier::external_type_specification]
#[verifier::external_body]
pub struct ExInMemNiftiVolume(nifti::InMemNiftiVolume);

/// The extents of a volume, one for each of its dimensions: what
/// `NiftiVolume::dim` returns for it.
pub uninterp spec fn volume_shape(volume: nifti::InMemNiftiVolume) -> Seq<u16>;

/// The raw voxel bytes of a volume: what `InMemNiftiVolume::raw_data`
/// returns for it.
pub uninterp spec fn volume_bytes(volume: nifti::InMemNiftiVolume) -> Seq<u8>;

/// `nifti::NiftiVolume::dim` on an in-memory volume: the slice it returns
/// is what `volume_shape` names.
#[verifier::external_body]
fn volume_dim(volume: &nifti::InMemNiftiVolume) -> (dims: &[u16])
    ensures
        dims@ == volume_shape(*volume),
{
    nifti::NiftiVolume::dim(volume)
}

/// `nifti::InMemNiftiVolume::raw_data`: the slice it returns is what
/// `volume_bytes` names.
#[verifier::external_body]
fn volume_raw_data(volume: &nifti::InMemNiftiVolume) -> (raw: &[u8])
    ensures
        raw@ == volume_bytes(*volume),
{
    volume.raw_data()
}

/// Byte `t` of the pixel buffer of slice `k`, where a slice has `plane`
/// pixels: three equal gray bytes and an opaque alpha for each sample.
pub open spec fn pixel_byte(raw: Seq<u8>, plane: int, k: int, t: int) -> u8 {
    if t % 4 == 3 {
        255u8
    } else {
        scaled_gray(
            lowest_sample(samples(raw)),
            highest_sample(samples(raw)),
            sample_at(raw, k * plane + t / 4),
        ) as u8
    }
}

/// Slice `k` of a volume of the given height and width.
pub open spec fn volume_slice(
    height: u16,
    width: u16,
    raw: Seq<u8>,
    file_name: Seq<char>,
    k: int,
) -> SliceView {
    SliceView {
        file_name,
        width: width as nat,
        height: height as nat,
        pixels: Seq::new(
            (4 * (height * width)) as nat,
            |t: int| pixel_byte(raw, height * width, k, t),
        ),
        location: Some(single_bits(k as nat) as u32),
    }
}

/// Whether a raw buffer can be cut into the slices that the dimensions
/// announce: there are three dimensions, and the buffer holds whole
/// samples, enough of them for every slice.
pub open spec fn decodable(dims: Seq<u16>, raw: Seq<u8>) -> bool {
    &&& dims.len() >= 3
    &&& raw.len() % 2 == 0
    &&& dims[0] * dims[1] * dims[2] * 2 <= raw.len()
}

/// The slices are those of the volume: one for each index along the third
/// dimension, in ascending order of index.
pub open spec fn decodes_to(
    slices: Seq<ImageSlice>,
    dims: Seq<u16>,
    raw: Seq<u8>,
    file_name: Seq<char>,
) -> bool {
    &&& slices.len() == dims[2]
    &&& forall|k: int|
        0 <= k < slices.len() ==> (#[trigger] slices[k])@ == volume_slice(
            dims[0],
            dims[1],
            raw,
            file_name,
            k,
        )
}

/// Tests whether a raw buffer can be cut into slices.
pub fn is_decodable(dims: &[u16], raw: &[u8]) -> (ok: bool)
    ensures
        ok == decodable(dims@, raw@),
{
    if dims.len() < 3 || raw.len() % 2 != 0 {
        return false;
    }
    let height: u64 = dims[0] as u64;
    let width: u64 = dims[1] as u64;
    let count: u64 = dims[2] as u64;
    assert(height * width <= 0xffff * 0xffff && height * width * count <= 0xffff * 0xffff * 0xffff)
        by (nonlinear_arith)
        requires
            height <= 0xffff,
            width <= 0xffff,
            count <= 0xffff,
    ;
    height * width * count * 2 <= raw.len() as u64
}

/// Renders the samples of slice `k` as RGBA bytes.
fn render_plane(raw: &[u8], plane: usize, k: usize, min: u16, max: u16) -> (pixels: Vec<u8>)
    requires
        raw@.len() % 2 == 0,
        (k + 1) * plane * 2 <= raw@.len(),
        min == lowest_sample(samples(raw@)),
        max == highest_sample(samples(raw@)),
    ensures
        pixels@ =~= Seq::new(
            (4 * plane) as nat,
            |t: int| pixel_byte(raw@, plane as int, k as int, t),
        ),
{
    let len: usize = raw.len();
    assert(k * plane + plane == (k + 1) * plane) by (nonlinear_arith);
    assert(k * plane >= 0) by (nonlinear_arith);
    let base: usize = k * plane;
    let mut pixels: Vec<u8> = Vec::new();
    let mut j: usize = 0;
    while j < plane
        invariant
            j <= plane,
            len == raw@.len(),
            base == k * plane,
            (base + plane) * 2 <= len,
            min == lowest_sample(samples(raw@)),
            max == highest_sample(samples(raw@)),
            pixels@.len() == 4 * j,
            forall|t: int|
                0 <= t < 4 * j ==> pixels@[t] == pixel_byte(raw@, plane as int, k as int, t),
        decreases plane - j,
    {
        let val = read_sample(raw, base + j);
        proof {
            lemma_sample_range(samples(raw@));
        }
        let gray = scale_pix_val(min, max, val);
        let ghost before = pixels@;
        pixels.push(gray);
        pixels.push(gray);
        pixels.push(gray);
        pixels.push(255);
        proof {
            assert forall|t: int| 0 <= t < 4 * (j + 1) implies pixels@[t] == pixel_byte(
                raw@,
                plane as int,
                k as int,
                t,
            ) by {
                if t < 4 * j {
                    assert(pixels@[t] == before[t]);
                } else {
                    assert(t / 4 == j);
                }
            }
        }
        j = j + 1;
    }
    pixels
}

/// Cuts a raw buffer into slices: one for each index along the third
/// dimension, each `dims[0]` rows of `dims[1]` pixels, located at its
/// index.
pub fn volume_slices(dims: &[u16], raw: &[u8], file_name: &String) -> (slices: Vec<ImageSlice>)
    requires
        decodable(dims@, raw@),
    ensures
        decodes_to(slices@, dims@, raw@, file_name@),
{
    let height: u16 = dims[0];
    let width: u16 = dims[1];
    let count: u16 = dims[2];
    assert(height * width <= 0xffff * 0xffff) by (nonlinear_arith)
        requires
            height <= 0xffff,
            width <= 0xffff,
    ;
    let plane: usize = (height as usize) * (width as usize);
    let (min, max) = get_min_max(raw);
    let mut slices: Vec<ImageSlice> = Vec::new();
    let mut k: u16 = 0;
    while k < count
        invariant
            k <= count,
            decodable(dims@, raw@),
            height == dims@[0],
            width == dims@[1],
            count == dims@[2],
            plane == height * width,
            min == lowest_sample(samples(raw@)),
            max == highest_sample(samples(raw@)),
            slices@.len() == k,
            forall|i: int|
                0 <= i < k ==> (#[trigger] slices@[i])@ == volume_slice(
                    height,
                    width,
                    raw@,
                    file_name@,
                    i,
                ),
        decreases count - k,
    {
        assert((k + 1) * plane * 2 <= plane * count * 2) by (nonlinear_arith)
            requires
                k + 1 <= count,
                plane >= 0,
        ;
        let pixels = render_plane(raw, plane, k as usize, min, max);
        let made = ImageSlice::new(
            file_name.clone(),
            width as u32,
            height as u32,
            pixels,
            Some(index_location(k)),
        );
        assert(width * height == height * width) by (nonlinear_arith);
        let slice = made.unwrap();
        slices.push(slice);
        k = k + 1;
    }
    slices
}

/// Cuts a volume into slices.
pub fn nifi_to_rgba(volume: nifti::InMemNiftiVolume, file_name: String) -> (slices: Vec<
    ImageSlice,
>)
    requires
        decodable(volume_shape(volume), volume_bytes(volume)),
    ensures
        decodes_to(slices@, volume_shape(volume), volume_bytes(volume), file_name@),
{
    volume_slices(volume_dim(&volume), volume_raw_data(&volume), &file_name)
}

/// Cuts a volume into slices where its buffer fits its dimensions, and
/// returns `None` where it does not.
pub fn try_nifi_to_rgba(volume: nifti::InMemNiftiVolume, file_name: String) -> (slices: Option<
    Vec<ImageSlice>,
>)
    ensures
        slices is Some <==> decodable(volume_shape(volume), volume_bytes(volume)),
        slices matches Some(s) ==> decodes_to(
            s@,
            volume_shape(volume),
            volume_bytes(volume),
            file_name@,
        ),
{
    if is_decodable(volume_dim(&volume), volume_raw_data(&volume)) {
        Some(nifi_to_rgba(volume, file_name))
    } else {
        None
    }
}

} // verus!
