//! The ways in which decoding a symbol can fail.

use vstd::prelude::*;

verus! {

/// The outcome of decoding: success, or the reason for the failure.
#[derive(Copy, Clone, Debug, Hash, PartialEq, Eq, PartialOrd, Ord, Structural)]
pub enum QuircDecodeError {
    QuircSuccess,
    /// The number of modules per side is not of the form `4k + 17`.
    QuircErrorInvalidGridSize,
    /// The version that the size gives is not between 1 and 40.
    QuircErrorInvalidVersion,
    /// Neither copy of the format word could be corrected.
    QuircErrorFormatEcc,
    /// A block of codewords could not be corrected.
    QuircErrorDataEcc,
    /// Kept for callers that report a data type they do not know.
    QuircErrorUnknownDataType,
    /// A segment is longer than the room left for the payload.
    QuircErrorDataOverflow,
    /// The bit stream ended inside a segment.
    QuircErrorDataUnderflow,
}

/// The text that describes each outcome.
pub open spec fn spec_error_message(err: QuircDecodeError) -> Seq<char> {
    match err {
        QuircDecodeError::QuircSuccess => "Success"@,
        QuircDecodeError::QuircErrorInvalidGridSize => "Invalid grid size"@,
        QuircDecodeError::QuircErrorInvalidVersion => "Invalid version"@,
        QuircDecodeError::QuircErrorFormatEcc => "Format data ECC failure"@,
        QuircDecodeError::QuircErrorDataEcc => "ECC failure"@,
        QuircDecodeError::QuircErrorUnknownDataType => "Unknown data type"@,
        QuircDecodeError::QuircErrorDataOverflow => "Data overflow"@,
        QuircDecodeError::QuircErrorDataUnderflow => "Data underflow"@,
    }
}

/// Returns the fixed text for an outcome.
pub fn error_message(err: QuircDecodeError) -> (text: &'static str)
    ensures
        text@ == spec_error_message(err),
{
    match err {
        QuircDecodeError::QuircSuccess => "Success",
        QuircDecodeError::QuircErrorInvalidGridSize => "Invalid grid size",
        QuircDecodeError::QuircErrorInvalidVersion => "Invalid version",
        QuircDecodeError::QuircErrorFormatEcc => "Format data ECC failure",
        QuircDecodeError::QuircErrorDataEcc => "ECC failure",
        QuircDecodeError::QuircErrorUnknownDataType => "Unknown data type",
        QuircDecodeError::QuircErrorDataOverflow => "Data overflow",
        QuircDecodeError::QuircErrorDataUnderflow => "Data underflow",
    }
}

} // verus!
