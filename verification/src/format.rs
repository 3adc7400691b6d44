//! The format of a file, told from its name alone.
//!
//! Only the extension is looked at, never the content: a name that ends in
//! `.gz` is taken for a NIfTI volume, a name without an extension for a
//! DICOM object, and any other name for a plain image.

use vstd::prelude::*;
use vstd::string::StrSliceExecFns;
use crate::text::{after_last, last_index};

verus! {

/// What a file is taken for.
#[derive(Debug, Clone, Copy, PartialEq, Eq, Structural)]
pub enum FileFormat {
    /// A compressed NIfTI volume.
    Nifti,
    /// A DICOM object.
    Dicom,
    /// A file with some other extension.
    Image,
}

/// The extension of a file name: what follows its last dot. A name
/// without a dot has none, nor has a name whose only dot is its first
/// character, nor has the name `..`.
pub open spec fn extension(name: Seq<char>) -> Option<Seq<char>> {
    let dot = last_index(name, '.');
    if dot <= 0 || (name.len() == 2 && name[0] == '.') {
        None
    } else {
        Some(name.subrange(dot + 1, name.len() as int))
    }
}

/// The format that a file name stands for.
pub open spec fn format_of(name: Seq<char>) -> FileFormat {
    match extension(name) {
        None => FileFormat::Dicom,
        Some(ext) => if ext.len() == 2 && ext[0] == 'g' && ext[1] == 'z' {
            FileFormat::Nifti
        } else {
            FileFormat::Image
        },
    }
}

/// Tells the format of a file from its name.
pub fn classify(name: &str) -> (format: FileFormat)
    ensures
        format == format_of(name@),
{
    let len: usize = name.unicode_len();
    let after: usize = after_last(name, '.');
    if after <= 1 {
        return FileFormat::Dicom;
    }
    if len == 2 && name.get_char(0) == '.' {
        return FileFormat::Dicom;
    }
    if len - after == 2 && name.get_char(after) == 'g' && name.get_char(after + 1) == 'z' {
        FileFormat::Nifti
    } else {
        FileFormat::Image
    }
}

} // verus!
