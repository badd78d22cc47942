//! The run's failure taxonomy for the parts this library decides: front
//! matter that cannot be parsed, required metadata that is absent, and a
//! rendering fault.  Failures of the surrounding input/output (a missing
//! input directory, a failed write) belong to the caller.

use vstd::prelude::*;

verus! {

/// Why an ingestion or rendering run failed.
#[derive(Clone, Copy, Debug, PartialEq, Eq, Structural)]
pub enum TilError {
    /// The note's leading metadata block could not be parsed as key/value
    /// data (or was absent, or a known field had the wrong shape).
    MalformedFrontMatter,
    /// The note's metadata lacks a usable `title` or `date`.
    MissingRequiredField,
    /// A rendering step could not produce its output (for instance, the
    /// highlighter theme for the stylesheet is unknown).
    RenderFault,
}

} // verus!
