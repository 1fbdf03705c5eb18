use plonkit::aggregation::{check_aggregated_input, flatten_public_inputs, AggregationOutcome};
use plonkit::artifacts::{AggregatedProof, Proof};
use plonkit::codec::{Fr, G1El};
use plonkit::pipeline::{
    guard_output, guard_outputs, resolve_circuit_file, verification_exit_code,
    INVALID_PROOF_EXIT,
};
use plonkit::PipelineError;

fn fr(last: u8) -> Fr {
    let mut v = vec![0u8; 32];
    v[31] = last;
    Fr { bytes: v }
}

fn g1_gen() -> G1El {
    let mut v = vec![0u8; 64];
    v[31] = 1;
    v[63] = 2;
    G1El { bytes: v }
}

fn proof_with_inputs(inputs: Vec<Fr>) -> Proof {
    let k = inputs.len();
    Proof {
        n: 8,
        num_inputs: k,
        input_values: inputs,
        wire_commitments: vec![g1_gen(), g1_gen(), g1_gen(), g1_gen()],
        grand_product_commitment: g1_gen(),
        quotient_poly_commitments: vec![g1_gen(), g1_gen(), g1_gen(), g1_gen()],
        wire_values_at_z: vec![fr(1), fr(2), fr(3), fr(4)],
        wire_values_at_z_omega: vec![fr(5)],
        grand_product_at_z_omega: fr(6),
        quotient_polynomial_at_z: fr(7),
        linearization_polynomial_at_z: fr(8),
        permutation_polynomials_at_z: vec![fr(9), fr(10), fr(11)],
        opening_at_z_proof: g1_gen(),
        opening_at_z_omega_proof: g1_gen(),
    }
}

#[test]
fn guard_blocks_existing_output() {
    assert_eq!(guard_output(true, false), Err(PipelineError::DuplicateOutput));
}

#[test]
fn guard_overwrite_always_succeeds() {
    assert_eq!(guard_output(true, true), Ok(()));
    assert_eq!(guard_output(false, true), Ok(()));
}

#[test]
fn guard_fresh_path_succeeds() {
    assert_eq!(guard_output(false, false), Ok(()));
}

#[test]
fn guard_outputs_checks_every_path_first() {
    assert_eq!(guard_outputs(&vec![false, false, false], false), Ok(()));
    assert_eq!(
        guard_outputs(&vec![false, true, false], false),
        Err(PipelineError::DuplicateOutput)
    );
    assert_eq!(guard_outputs(&vec![true, true], true), Ok(()));
    assert_eq!(guard_outputs(&Vec::new(), false), Ok(()));
}

#[test]
fn resolve_circuit_file_explicit_name_wins() {
    let r = resolve_circuit_file(Some("my.r1cs".to_string()), false, true);
    assert_eq!(r, "my.r1cs");
}

#[test]
fn resolve_circuit_file_defaults() {
    assert_eq!(resolve_circuit_file(None, true, true), "circuit.r1cs");
    assert_eq!(resolve_circuit_file(None, true, false), "circuit.r1cs");
    assert_eq!(resolve_circuit_file(None, false, false), "circuit.r1cs");
    assert_eq!(resolve_circuit_file(None, false, true), "circuit.json");
}

#[test]
fn verification_exit_codes() {
    assert_eq!(verification_exit_code(true), 0);
    assert_eq!(verification_exit_code(false), INVALID_PROOF_EXIT);
    assert_ne!(INVALID_PROOF_EXIT, 0);
}

#[test]
fn list_file_entries() {
    let text = b"proof_a.bin\nproof_b.bin\n\nproof_c.bin\r\n".to_vec();
    let entries = plonkit::listfile::parse_list_file(&text);
    assert_eq!(entries.len(), 3);
    assert_eq!(entries[0], b"proof_a.bin".to_vec());
    assert_eq!(entries[1], b"proof_b.bin".to_vec());
    assert_eq!(entries[2], b"proof_c.bin".to_vec());
}

#[test]
fn list_file_without_final_newline() {
    let text = b"only.bin".to_vec();
    let entries = plonkit::listfile::parse_list_file(&text);
    assert_eq!(entries, vec![b"only.bin".to_vec()]);
    assert!(plonkit::listfile::parse_list_file(&Vec::new()).is_empty());
}

#[test]
fn aggregation_match_and_mismatch() {
    let candidate = AggregatedProof { inner: proof_with_inputs(vec![fr(42)]) };
    assert_eq!(check_aggregated_input(&fr(42), &candidate), AggregationOutcome::Match);
    assert_eq!(check_aggregated_input(&fr(43), &candidate), AggregationOutcome::Mismatch);
}

#[test]
fn flatten_preserves_proof_order() {
    let p1 = proof_with_inputs(vec![fr(1), fr(2)]);
    let p2 = proof_with_inputs(vec![fr(3), fr(4)]);
    let forward = flatten_public_inputs(&vec![p1.clone(), p2.clone()]);
    let backward = flatten_public_inputs(&vec![p2, p1]);
    let fwd: Vec<Vec<u8>> = forward.into_iter().map(|f| f.bytes).collect();
    let bwd: Vec<Vec<u8>> = backward.into_iter().map(|f| f.bytes).collect();
    assert_eq!(fwd.len(), 4);
    assert_eq!(bwd.len(), 4);
    assert_ne!(fwd, bwd);
    assert_eq!(fwd[0][31], 1);
    assert_eq!(fwd[3][31], 4);
    assert_eq!(bwd[0][31], 3);
}
