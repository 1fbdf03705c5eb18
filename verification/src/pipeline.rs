//! Orchestration discipline that does not depend on the proving engine: the
//! non-clobbering output guard applied before every artifact write, the
//! default circuit-file choice, and how a verification verdict maps to a
//! process exit status.

use vstd::prelude::*;
use vstd::string::StringExecFns;
use crate::PipelineError;

verus! {

/// The exit status that signals an explicitly invalid, but successfully
/// evaluated, proof; distinct from 0 (valid) and from a crash.
pub const INVALID_PROOF_EXIT: i32 = 400;

/// Non-clobbering discipline: an output path may be written only when
/// overwriting was requested or nothing exists there yet. With an existing
/// file and no overwrite request this always fails, and with the overwrite
/// request it always succeeds, whatever exists.
pub fn guard_output(exists: bool, overwrite: bool) -> (r: Result<(), PipelineError>)
    ensures
        r is Ok <==> (overwrite || !exists),
        r is Err ==> r == Err::<(), PipelineError>(PipelineError::DuplicateOutput),
{
    if overwrite || !exists {
        Ok(())
    } else {
        Err(PipelineError::DuplicateOutput)
    }
}

/// Guards every output path of a stage before anything is written, so a
/// duplicate is found while no file is yet half-produced: the stage may write
/// only when overwriting was requested or none of its outputs exists.
pub fn guard_outputs(present: &Vec<bool>, overwrite: bool) -> (r: Result<(), PipelineError>)
    ensures
        r is Err <==> !overwrite && (exists|i: int|
            0 <= i < present@.len() && #[trigger] present@[i]),
        r is Err ==> r == Err::<(), PipelineError>(PipelineError::DuplicateOutput),
{
    if overwrite {
        return Ok(());
    }
    let n = present.len();
    let mut i: usize = 0;
    while i < n
        invariant
            !overwrite,
            0 <= i <= n,
            n == present@.len(),
            forall|j: int| 0 <= j < i ==> !present@[j],
        decreases n - i,
    {
        if present[i] {
            proof {
                assert(0 <= (i as int) < present@.len() && present@[i as int]);
            }
            return Err(PipelineError::DuplicateOutput);
        }
        i = i + 1;
    }
    Ok(())
}

/// The circuit file a stage works on: an explicit name wins; otherwise the
/// binary constraint file is chosen whenever it exists or the JSON fallback
/// does not.
pub fn resolve_circuit_file(filename: Option<String>, r1cs_exists: bool, json_exists: bool) -> (r:
    String)
    ensures
        filename matches Some(s) ==> r@ == s@,
        filename is None && (r1cs_exists || !json_exists) ==> r@ == "circuit.r1cs"@,
        filename is None && !(r1cs_exists || !json_exists) ==> r@ == "circuit.json"@,
{
    match filename {
        Some(s) => s,
        None => {
            if r1cs_exists || !json_exists {
                String::from_str("circuit.r1cs")
            } else {
                String::from_str("circuit.json")
            }
        },
    }
}

/// The process exit status for a completed verification: zero for a valid
/// proof, the distinguished non-zero status for an invalid one.
pub fn verification_exit_code(valid: bool) -> (r: i32)
    ensures
        valid <==> r == 0,
        !valid ==> r == INVALID_PROOF_EXIT,
{
    if valid {
        0
    } else {
        INVALID_PROOF_EXIT
    }
}

} // verus!
