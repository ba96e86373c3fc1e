//! The ways in which compilation fails.

use vstd::prelude::*;

verus! {

/// An invariant of the final frame sequence that does not hold.
#[derive(Clone, Copy, Debug, PartialEq, Eq, Structural)]
pub enum Violation {
    /// There is no frame at all.
    Empty,
    /// The number of frames differs from the configured one.
    FrameCount,
    /// Some frame has no rows.
    ZeroHeight,
    /// Some row has no pixels.
    ZeroWidth,
    /// Two frames differ in height.
    UnalignedHeights,
    /// Two rows differ in width.
    UnalignedWidths,
    /// A dimension, a counter or a chunk does not fit the 32-bit fields of the format.
    Oversize,
}

/// Why a document could not be compiled. Every error is fatal: no bytes are produced.
#[derive(Clone, Copy, Debug, PartialEq, Eq, Structural)]
pub enum CompileError {
    /// A layer or frame marker is not followed by an index.
    Syntax,
    /// A palette entry in use is not `#RRGGBB` or `#RRGGBBAA`.
    ColorFormat,
    /// The frames handed to the encoder break one of its invariants.
    Validation(Violation),
    /// The `order` option names a frame that does not exist.
    Index,
}

/// The text of the message for a violated invariant.
pub open spec fn violation_text(v: Violation) -> Seq<char> {
    match v {
        Violation::Empty => "Image is empty"@,
        Violation::FrameCount => "Frame counts does not match."@,
        Violation::ZeroHeight => "Height is zero"@,
        Violation::ZeroWidth => "Width is zero"@,
        Violation::UnalignedHeights => "Unaligned heights."@,
        Violation::UnalignedWidths => "Unaligned widths."@,
        Violation::Oversize => "Image is too large."@,
    }
}

/// The text of the message for an error.
pub open spec fn error_text(e: CompileError) -> Seq<char> {
    match e {
        CompileError::Syntax => "Marker without an index."@,
        CompileError::ColorFormat => "Malformed color."@,
        CompileError::Validation(v) => violation_text(v),
        CompileError::Index => "Frame index out of range."@,
    }
}

impl Violation {
    /// A message that tells this violation from the others.
    pub fn message(&self) -> (text: String)
        ensures
            text@ == violation_text(*self),
    {
        match self {
            Violation::Empty => "Image is empty".to_owned(),
            Violation::FrameCount => "Frame counts does not match.".to_owned(),
            Violation::ZeroHeight => "Height is zero".to_owned(),
            Violation::ZeroWidth => "Width is zero".to_owned(),
            Violation::UnalignedHeights => "Unaligned heights.".to_owned(),
            Violation::UnalignedWidths => "Unaligned widths.".to_owned(),
            Violation::Oversize => "Image is too large.".to_owned(),
        }
    }
}

impl CompileError {
    /// A message that describes this error.
    pub fn message(&self) -> (text: String)
        ensures
            text@ == error_text(*self),
    {
        match self {
            CompileError::Syntax => "Marker without an index.".to_owned(),
            CompileError::ColorFormat => "Malformed color.".to_owned(),
            CompileError::Validation(v) => v.message(),
            CompileError::Index => "Frame index out of range.".to_owned(),
        }
    }
}

} // verus!
