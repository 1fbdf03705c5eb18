//! Artifact handling for a PLONK proving pipeline: canonical binary and
//! fixed-width hex display codecs for proofs, verification keys and reference
//! strings, the non-clobbering output guard, and the aggregation consistency
//! check that binds a recursive proof to the proofs it aggregates.

pub mod aggregation;
pub mod artifacts;
pub mod bytes;
pub mod codec;
pub mod display;
pub mod field;
pub mod hexenc;
pub mod listfile;
pub mod pipeline;

pub use display::{ProofStr, VerificationKeyStr};

use vstd::prelude::*;

verus! {

/// What can go wrong while running a pipeline stage.
#[derive(Clone, Copy, Debug, PartialEq, Eq, Structural)]
pub enum PipelineError {
    /// An output path already holds a file and overwriting was not requested.
    DuplicateOutput,
    /// An input artifact failed to decode: wrong size, a non-canonical field
    /// value, or a point off the curve.
    MalformedArtifact,
    /// The proving engine could not produce the requested artifact.
    ProvingEngineError,
}

} // verus!
