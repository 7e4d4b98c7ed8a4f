//! Why a file could not be settled.
use vstd::prelude::*;

verus! {

/// What went wrong while settling one file.
#[derive(Clone, Debug, PartialEq, Eq)]
pub enum EngineError {
    /// A tag that the weight table does not hold: the table is out of date.
    UnknownTag(String),
    /// Two offset tags of one file name different offsets.
    ConflictingOffsets,
    /// A name pattern matched without the capture groups it must have.
    MissingCaptureGroup,
    /// A dated tag value that does not parse.
    BadTimestamp,
    /// Captures of a name pattern that do not make a date-time.
    BadNameCapture,
    /// A reading outside the range of instants that can be held.
    OutOfRange,
    /// The fallback zone could not be looked up or applied.
    ZoneUnavailable,
    /// Neither metadata nor the file system gave any time at all.
    NoTimestamp,
}

} // verus!
