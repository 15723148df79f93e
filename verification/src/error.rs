use vstd::prelude::*;

verus! {

/// Every terminal failure of the codec, with the identifiers a caller needs
/// to locate the offending animation, line, frame, sheet and marker.
#[derive(Debug)]
#[non_exhaustive]
pub enum SpriteBotStorageError {
    /// Reading a sheet's pixel data failed: sheet kind, animation name, cause.
    ErrorImageRead(String, String, image::ImageError),
    /// A cell side is zero: animation name, sheet kind, axis name.
    SpriteSizeZero(String, String, String),
    /// A sheet side is not a multiple of the cell side: animation name,
    /// sheet kind, axis name.
    SpriteSizeNotMultiple(String, String, String),
    /// The three sheets of the named animation slice into unequal grids.
    SpriteSizeNotIdentical(String),
    /// A line's frame count disagrees with the metadata's duration list:
    /// animation name, frames in the line, durations declared.
    InconsistantDuration(String, usize, usize),
    /// No pixel of the wanted color: animation name, line, frame, sheet kind,
    /// color name.
    ColorNotFoundInPixelData(String, usize, usize, String, String),
    /// More than one pixel of the wanted color: animation name, line, frame,
    /// sheet kind, color name.
    ColorDuplicateInPixelDate(String, usize, usize, String, String),
    /// A declared duration does not fit in a frame's one-byte field.
    TooLargeDuration,
    /// A packed sheet dimension would not fit the supported range.
    TooLargeGeneratedSheet,
    /// The head offset coincides with a hand offset, which re-encoding rejects.
    InvalidHeadPosition,
    /// Producing a sheet's byte stream failed: cause, file name.
    WriteImageError(image::ImageError, String),
    /// A found marker coordinate does not fit in sixteen unsigned bits.
    OffsetTooLarge,
}

} // verus!
