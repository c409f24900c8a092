//! Frame extraction and geometry correction for video thumbnails.
//!
//! The crate holds the computational core of a thumbnail service: parsing
//! display-rotation metadata, fixed-point matrix math and pixel remapping,
//! aspect-preserving scale planning, stride repair of decoded frames, and
//! tiled atlas composition.  Container access, decoding and image encoding
//! are left to the caller, which hands the library plain values.

pub mod atlas;
pub mod digits;
pub mod error;
pub mod file;
pub mod frame;
pub mod math;
pub mod sampling;
pub mod scale;
pub mod video;
