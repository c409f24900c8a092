//! Error taxonomy for the frame-extraction pipeline.

use vstd::prelude::*;

verus! {

/// What went wrong while producing an image.
#[derive(Clone, Copy, Debug, PartialEq, Eq, Structural)]
pub enum ErrorKind {
    /// The path could not be opened as a media container.
    NotReadable,
    /// The container holds no video stream.
    StreamNotFound,
    /// The container is unseekable or the target position is out of range.
    SeekFailure,
    /// A non-recoverable codec failure.
    DecodeError,
    /// The display-matrix side data is malformed.
    ConversionError,
    /// The final image could not be encoded.
    EncodeFailure,
}

/// A structured pipeline failure: a kind plus a human-readable message.
#[derive(Debug)]
pub struct VideoError {
    pub kind: ErrorKind,
    pub message: String,
}

impl VideoError {
    /// Builds an error of the given kind carrying the given message.
    pub fn new(kind: ErrorKind, message: String) -> (e: VideoError)
        ensures
            e.kind == kind,
            e.message@ == message@,
    {
        VideoError { kind, message }
    }

    /// The human-readable message, for callers that report the failure.
    pub fn message(&self) -> (m: &String)
        ensures
            m@ == self.message@,
    {
        &self.message
    }
}

} // verus!
