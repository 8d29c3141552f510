//! The error taxonomy of the analysis.
//!
//! Header-level faults abort a parse; per-box decode faults are captured as
//! values and never abort the tree walk; per-track sample-table faults abort
//! only that track's extraction.

use vstd::prelude::*;
use crate::boxes::FourCC;

verus! {

/// A fault that aborts a parse or one track's sample extraction.
#[derive(Clone, Copy, Debug)]
pub enum AnalysisError {
    /// An impossible size field, a header running past the end of the data,
    /// or a declared size smaller than the header, at the given file offset.
    MalformedHeader { at: u64 },
    /// A sample-table box of the track was present but malformed.
    InvalidSampleTable { track_id: u32 },
}

/// Why a single box's payload could not be decoded.
#[derive(Clone, Copy, Debug, PartialEq, Eq, Structural)]
pub enum DecodeErrorKind {
    /// The declared entry count needs more bytes than the payload holds.
    Short,
    /// A field violates an invariant of its box type.
    InvalidField,
    /// A version or field width this decoder does not handle.
    Unsupported,
}

/// A failed decode of one box's payload.
#[derive(Clone, Copy, Debug)]
pub struct DecodeError {
    pub box_type: FourCC,
    pub kind: DecodeErrorKind,
}

} // verus!
