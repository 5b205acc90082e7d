use vstd::prelude::*;

verus! {

/// Why a stream, a segment or an image could not be decoded.
#[derive(Debug, Clone, Copy, PartialEq, Eq, Structural)]
pub enum DecodeError {
    /// The input ended before a header, a payload or a field inside it was read.
    UnexpectedEof,
    /// A segment header does not start with the marker `"PG"`.
    InvalidMagic,
    /// A segment header names no known segment type.
    InvalidSegmentType,
    /// A composition state byte is none of `0x00`, `0x40`, `0x80`.
    InvalidCompositionState,
    /// A palette update flag is neither `0x00` nor `0x80`.
    InvalidPaletteUpdateFlag,
    /// An object cropped flag is neither `0x00` nor `0x40`.
    InvalidCroppedFlag,
    /// A last-in-sequence flag is none of `0x40`, `0x80`, `0xC0`.
    InvalidLastInSequenceFlag,
    /// A display set does not start with a presentation composition segment.
    ExpectedPcs,
    /// A second presentation composition segment came before the end segment.
    UnexpectedPcs,
    /// A run-length code breaks the grammar or is cut short.
    InvalidRle,
    /// The run-length data expands to another number of pixels than the object's size.
    RleLengthMismatch,
    /// The first display set of a stream does not start an epoch.
    MissingEpochStart,
    /// A composition selects a palette that the current epoch has not defined.
    UnknownPalette,
    /// A last fragment arrived for an object that was already complete.
    ObjectAlreadyFinished,
    /// A composition's cropping rectangle reaches outside its object.
    InvalidCropping,
}

} // verus!
