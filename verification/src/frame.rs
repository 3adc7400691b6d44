//! Slices of DICOM objects.
//!
//! A DICOM object holds one frame. Its slice location is optional, and so
//! is a successful decode: an object whose pixels cannot be decoded still
//! gives a slice, one without pixels, so that the rest of a series loads.
//!
//! The slice location is read here. The pixels are decoded by the caller,
//! who hands over the frame or tells that there is none: the decoders can
//! fail hard on broken pixel data, and nothing that could be tested
//! before the call tells such data apart.

use vstd::prelude::*;
use crate::slice::{ImageSlice, SliceView};

verus! {

/// A DICOM object read from a file, of the `dicom` crate; opaque here.
#[verifier::external_type_specification]
#[verifier::external_body]
#[verifier::reject_recursive_types(O)]
pub struct ExFileDicomObject<O>(dicom::object::FileDicomObject<O>);

/// The data set of a DICOM object, of the `dicom` crate; opaque here.
#[verifier::external_type_specification]
#[verifier::external_body]
#[verifier::reject_recursive_types(D)]
pub struct ExInMemDicomObject<D>(dicom::object::InMemDicomObject<D>);

/// The standard attribute dictionary of the `dicom` crate; opaque here.
#[verifier::external_type_specification]
#[verifier::external_body]
pub struct ExStandardDataDictionary(dicom::object::StandardDataDictionary);

/// One attribute of a DICOM object, of the `dicom` crate; opaque here.
#[verifier::external_type_specification]
#[verifier::external_body]
#[verifier::reject_recursive_types(I)]
#[verifier::reject_recursive_types(P)]
pub struct ExDataElement<I, P>(dicom::core::DataElement<I, P>);

/// The group of the slice location attribute.
pub const SLICE_LOCATION_GROUP: u16 = 0x0020;

/// The element of the slice location attribute within its group.
pub const SLICE_LOCATION_ELEMENT: u16 = 0x1041;

/// The frame of an object that is to be decoded.
pub const FIRST_FRAME: u32 = 0;

/// The attributes of an object that hold a number: for each tag, as
/// group and element, of an attribute that `InMemDicomObject::element`
/// finds and `DataElement::to_float32` converts, the bits of that
/// single-precision number.
pub uninterp spec fn object_numbers(obj: dicom::object::DefaultDicomObject) -> Map<(u16, u16), u32>;

/// The number that an attribute holds: what `DataElement::to_float32`
/// returns for it, as the bits of the single-precision number, and `None`
/// where it returns an error.
pub uninterp spec fn element_number(element: dicom::object::mem::InMemElement) -> Option<u32>;

/// The number that an object holds at a tag, if any.
pub open spec fn number_at(numbers: Map<(u16, u16), u32>, group: u16, element: u16) -> Option<
    u32,
> {
    if numbers.dom().contains((group, element)) {
        Some(numbers[(group, element)])
    } else {
        None
    }
}

/// `InMemDicomObject::element`: the attribute with the given tag, or
/// `None` where the object has no such attribute. The attribute that is
/// found holds the number that the object holds at the tag, or none where
/// the object holds none there; and where no attribute is found the
/// object holds no number at the tag.
#[verifier::external_body]
fn find_element<'a>(obj: &'a dicom::object::DefaultDicomObject, group: u16, element: u16) -> (found:
    Option<&'a dicom::object::mem::InMemElement>)
    ensures
        match found {
            Some(attribute) => element_number(*attribute) == number_at(
                object_numbers(*obj),
                group,
                element,
            ),
            None => number_at(object_numbers(*obj), group, element) is None,
        },
{
    obj.element(dicom::core::Tag(group, element)).ok()
}

/// `DataElement::to_float32`: the bits of the attribute's value as a
/// single-precision number, or `None` where the value is no number. The
/// result is what `element_number` names.
#[verifier::external_body]
fn element_float_bits(element: &dicom::object::mem::InMemElement) -> (bits: Option<u32>)
    ensures
        bits == element_number(*element),
{
    match element.to_float32() {
        Ok(value) => Some(value.to_bits()),
        Err(_) => None,
    }
}

/// A decoded frame: RGBA bytes with the extent they are meant for.
#[derive(Debug, Clone)]
pub struct Frame {
    /// RGBA bytes, row by row.
    pub rgba: Vec<u8>,
    /// Pixels per row.
    pub width: u32,
    /// Number of rows.
    pub height: u32,
}

/// Whether a frame was decoded and its buffer fits its extent.
pub open spec fn usable(frame: Option<Frame>) -> bool {
    frame matches Some(f) && f.rgba@.len() == f.width * f.height * 4
}

/// The slice that a DICOM object gives: its frame where that is usable,
/// and a slice without pixels and extent where it is not; located where
/// the object tells its slice location.
pub open spec fn slice_of_frame(
    file_name: Seq<char>,
    location: Option<u32>,
    frame: Option<Frame>,
) -> SliceView {
    if usable(frame) {
        SliceView {
            file_name,
            width: frame.unwrap().width as nat,
            height: frame.unwrap().height as nat,
            pixels: frame.unwrap().rgba@,
            location,
        }
    } else {
        SliceView { file_name, width: 0, height: 0, pixels: Seq::empty(), location }
    }
}

/// Makes the slice of a DICOM object from what was read and decoded.
pub fn frame_slice(file_name: String, location: Option<u32>, frame: Option<Frame>) -> (slice:
    ImageSlice)
    ensures
        slice@ == slice_of_frame(file_name@, location, frame),
{
    match frame {
        Some(f) => {
            if is_consistent(&f) {
                ImageSlice::new(file_name, f.width, f.height, f.rgba, location).unwrap()
            } else {
                ImageSlice::unavailable(file_name, location)
            }
        },
        None => ImageSlice::unavailable(file_name, location),
    }
}

/// Tests whether the buffer of a frame holds four bytes for each pixel.
pub fn is_consistent(frame: &Frame) -> (ok: bool)
    ensures
        ok == (frame.rgba@.len() == frame.width * frame.height * 4),
{
    assert(frame.width * frame.height <= 0xffff_ffff * 0xffff_ffff) by (nonlinear_arith)
        requires
            frame.width <= 0xffff_ffff,
            frame.height <= 0xffff_ffff,
    ;
    let pixels: u64 = (frame.width as u64) * (frame.height as u64);
    let len: usize = frame.rgba.len();
    len % 4 == 0 && (len / 4) as u64 == pixels
}

/// Reads the slice location of an object: the number that the object
/// holds at the tag of the slice location, or `None` where it holds none
/// there.
fn slice_location(obj: &dicom::object::DefaultDicomObject) -> (location: Option<u32>)
    ensures
        location == number_at(
            object_numbers(*obj),
            SLICE_LOCATION_GROUP,
            SLICE_LOCATION_ELEMENT,
        ),
{
    match find_element(obj, SLICE_LOCATION_GROUP, SLICE_LOCATION_ELEMENT) {
        Some(element) => element_float_bits(element),
        None => None,
    }
}

/// Makes the slice of a DICOM object: located where the object has a
/// slice location, and with the pixels of the frame that was decoded
/// from it, where one was and its bytes are four for each pixel.
pub fn load_dicom_file(
    obj: &dicom::object::DefaultDicomObject,
    file_name: String,
    frame: Option<Frame>,
) -> (slice: ImageSlice)
    ensures
        slice@ == slice_of_frame(
            file_name@,
            number_at(object_numbers(*obj), SLICE_LOCATION_GROUP, SLICE_LOCATION_ELEMENT),
            frame,
        ),
{
    let location = slice_location(obj);
    frame_slice(file_name, location, frame)
}

/// Makes the image of a frame for display by itself: a slice without a
/// location that holds the frame. Returns `None` where no frame was
/// decoded, or one whose bytes are not four for each pixel.
pub fn load_image(file_name: String, frame: Option<Frame>) -> (image: Option<ImageSlice>)
    ensures
        image is Some <==> usable(frame),
        image matches Some(slice) ==> slice@ == slice_of_frame(file_name@, None, frame),
{
    match frame {
        Some(f) => ImageSlice::new(file_name, f.width, f.height, f.rgba, None),
        None => None,
    }
}

} // verus!
