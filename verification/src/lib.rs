//! Decoding of medical image volumes into ordered stacks of RGBA slices.
//!
//! A path is scanned for series ([`scanner`]), each of its files is told
//! apart by its name ([`format`]), a DICOM object gives one slice
//! ([`frame`]) and a NIfTI volume one slice for each plane ([`volume`],
//! with the gray window of [`intensity`]), and the slices gathered are put
//! in display order ([`loader`], [`ordering`], [`location`]). The state of
//! a viewer that shows them is kept in [`viewer`].

pub mod format;
pub mod frame;
pub mod intensity;
pub mod loader;
pub mod location;
pub mod ordering;
pub mod scanner;
pub mod slice;
pub mod text;
pub mod viewer;
pub mod volume;
