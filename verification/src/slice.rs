//! One decoded 2D bitmap with the attributes that the viewer needs.

use vstd::prelude::*;

verus! {

/// What a slice holds, as plain mathematical values.
pub struct SliceView {
    /// The label of the source that the slice was decoded from.
    pub file_name: Seq<char>,
    /// Pixels per row.
    pub width: nat,
    /// Number of rows.
    pub height: nat,
    /// RGBA bytes, row by row from the top, four to a pixel.
    pub pixels: Seq<u8>,
    /// The spatial location as a single-precision bit pattern, if the
    /// source has one.
    pub location: Option<u32>,
}

impl SliceView {
    /// The pixel buffer holds four bytes for each pixel of the bitmap.
    pub open spec fn well_formed(self) -> bool {
        self.pixels.len() == self.width * self.height * 4
    }

    /// A slice that stands for a failed decode: no pixels, no extent.
    pub open spec fn unavailable(self) -> bool {
        self.pixels.len() == 0 && self.width == 0 && self.height == 0
    }
}

/// A decoded slice. Its pixel buffer always holds `width * height * 4`
/// bytes; a source that could not be decoded is a slice without pixels and
/// with zero extent.
#[derive(Debug)]
pub struct ImageSlice {
    file_name: String,
    width: u32,
    height: u32,
    rgba_vec: Vec<u8>,
    location: Option<u32>,
}

impl View for ImageSlice {
    type V = SliceView;

    closed spec fn view(&self) -> SliceView {
        SliceView {
            file_name: self.file_name@,
            width: self.width as nat,
            height: self.height as nat,
            pixels: self.rgba_vec@,
            location: self.location,
        }
    }
}

impl Clone for ImageSlice {
    fn clone(&self) -> (copy: Self)
        ensures
            copy@ == self@,
    {
        proof {
            use_type_invariant(self);
        }
        ImageSlice {
            file_name: self.file_name.clone(),
            width: self.width,
            height: self.height,
            rgba_vec: self.rgba_vec.clone(),
            location: self.location,
        }
    }
}

impl ImageSlice {
    #[verifier::type_invariant]
    spec fn pixel_count_matches(&self) -> bool {
        self.rgba_vec@.len() == self.width * self.height * 4
    }

    /// Builds a slice from a decoded bitmap, or `None` where the buffer
    /// does not hold four bytes for each pixel.
    pub fn new(
        file_name: String,
        width: u32,
        height: u32,
        rgba_vec: Vec<u8>,
        location: Option<u32>,
    ) -> (made: Option<ImageSlice>)
        ensures
            made is Some <==> rgba_vec@.len() == width * height * 4,
            made matches Some(s) ==> s@ == (SliceView {
                file_name: file_name@,
                width: width as nat,
                height: height as nat,
                pixels: rgba_vec@,
                location,
            }),
    {
        assert(width * height <= 0xffff_ffff * 0xffff_ffff) by (nonlinear_arith)
            requires
                width <= 0xffff_ffff,
                height <= 0xffff_ffff,
        ;
        let pixels: u64 = (width as u64) * (height as u64);
        let len: usize = rgba_vec.len();
        if len % 4 == 0 && (len / 4) as u64 == pixels {
            Some(ImageSlice { file_name, width, height, rgba_vec, location })
        } else {
            None
        }
    }

    /// The slice that stands for a source whose pixels could not be
    /// decoded.
    pub fn unavailable(file_name: String, location: Option<u32>) -> (made: ImageSlice)
        ensures
            made@ == (SliceView {
                file_name: file_name@,
                width: 0,
                height: 0,
                pixels: Seq::empty(),
                location,
            }),
            made@.unavailable(),
    {
        ImageSlice { file_name, width: 0, height: 0, rgba_vec: Vec::new(), location }
    }

    /// The label of the source.
    pub fn file_name(&self) -> (name: &String)
        ensures
            name@ == self@.file_name,
    {
        &self.file_name
    }

    /// Pixels per row.
    pub fn width(&self) -> (width: u32)
        ensures
            width == self@.width,
    {
        self.width
    }

    /// Number of rows.
    pub fn height(&self) -> (height: u32)
        ensures
            height == self@.height,
    {
        self.height
    }

    /// The RGBA bytes, of which there are four for each pixel.
    pub fn rgba_vec(&self) -> (pixels: &Vec<u8>)
        ensures
            pixels@ == self@.pixels,
            pixels@.len() == self@.width * self@.height * 4,
            self@.well_formed(),
    {
        proof {
            use_type_invariant(self);
        }
        &self.rgba_vec
    }

    /// The spatial location, as a single-precision bit pattern.
    pub fn location(&self) -> (location: Option<u32>)
        ensures
            location == self@.location,
    {
        self.location
    }

    /// Whether the slice has pixels to show.
    pub fn is_available(&self) -> (available: bool)
        ensures
            available == (self@.pixels.len() > 0),
            self@.well_formed(),
    {
        proof {
            use_type_invariant(self);
        }
        self.rgba_vec.len() > 0
    }

    /// Gives up the slice for its parts: label, width, height, pixels and
    /// location.
    pub fn into_parts(self) -> (parts: (String, u32, u32, Vec<u8>, Option<u32>))
        ensures
            parts.0@ == self@.file_name,
            parts.1 == self@.width,
            parts.2 == self@.height,
            parts.3@ == self@.pixels,
            parts.4 == self@.location,
            self@.well_formed(),
    {
        proof {
            use_type_invariant(&self);
        }
        (self.file_name, self.width, self.height, self.rgba_vec, self.location)
    }
}

} // verus!
