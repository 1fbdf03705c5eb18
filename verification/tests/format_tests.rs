use bellman_ce::pairing::bn256::{Bn256, Fr as EngineFr, G1Affine};
use bellman_ce::pairing::ff::PrimeField;
use bellman_ce::pairing::CurveAffine;
use bellman_ce::plonk::better_cs::cs::PlonkCsWidth4WithNextStepParams;
use bellman_ce::plonk::better_cs::keys::Proof as EngineProof;

use plonkit::artifacts::{encode_proof, Proof};
use plonkit::codec::{Fr, G1El};

fn fr(last: u8) -> Fr {
    let mut v = vec![0u8; 32];
    v[31] = last;
    Fr { bytes: v }
}

fn engine_fr(n: u64) -> EngineFr {
    EngineFr::from_str(&n.to_string()).unwrap()
}

fn g1_gen() -> G1El {
    let mut v = vec![0u8; 64];
    v[31] = 1;
    v[63] = 2;
    G1El { bytes: v }
}

fn g1_inf() -> G1El {
    let mut v = vec![0u8; 64];
    v[0] = 0x40;
    G1El { bytes: v }
}

/// The library's binary proof form is byte-identical to what the proving
/// engine itself writes for the same logical proof.
#[test]
fn proof_binary_format_matches_engine_writer() {
    let mut ep = EngineProof::<Bn256, PlonkCsWidth4WithNextStepParams>::empty();
    ep.n = 8;
    ep.num_inputs = 2;
    ep.input_values = vec![engine_fr(42), engine_fr(7)];
    ep.wire_commitments = vec![G1Affine::one(), G1Affine::zero(), G1Affine::one(), G1Affine::one()];
    ep.grand_product_commitment = G1Affine::one();
    ep.quotient_poly_commitments =
        vec![G1Affine::one(), G1Affine::one(), G1Affine::zero(), G1Affine::one()];
    ep.wire_values_at_z = vec![engine_fr(1), engine_fr(2), engine_fr(3), engine_fr(4)];
    ep.wire_values_at_z_omega = vec![engine_fr(5)];
    ep.grand_product_at_z_omega = engine_fr(6);
    ep.quotient_polynomial_at_z = engine_fr(7);
    ep.linearization_polynomial_at_z = engine_fr(8);
    ep.permutation_polynomials_at_z = vec![engine_fr(9), engine_fr(0), engine_fr(11)];
    ep.opening_at_z_proof = G1Affine::one();
    ep.opening_at_z_omega_proof = G1Affine::zero();
    let mut engine_bytes: Vec<u8> = Vec::new();
    ep.write(&mut engine_bytes).unwrap();

    let p = Proof {
        n: 8,
        num_inputs: 2,
        input_values: vec![fr(42), fr(7)],
        wire_commitments: vec![g1_gen(), g1_inf(), g1_gen(), g1_gen()],
        grand_product_commitment: g1_gen(),
        quotient_poly_commitments: vec![g1_gen(), g1_gen(), g1_inf(), g1_gen()],
        wire_values_at_z: vec![fr(1), fr(2), fr(3), fr(4)],
        wire_values_at_z_omega: vec![fr(5)],
        grand_product_at_z_omega: fr(6),
        quotient_polynomial_at_z: fr(7),
        linearization_polynomial_at_z: fr(8),
        permutation_polynomials_at_z: vec![fr(9), fr(0), fr(11)],
        opening_at_z_proof: g1_gen(),
        opening_at_z_omega_proof: g1_inf(),
    };
    assert_eq!(encode_proof(&p), engine_bytes);
}

/// The library decodes what the engine writes.
#[test]
fn engine_written_proof_decodes() {
    let mut ep = EngineProof::<Bn256, PlonkCsWidth4WithNextStepParams>::empty();
    ep.n = 16;
    ep.num_inputs = 1;
    ep.input_values = vec![engine_fr(123456789)];
    ep.wire_commitments = vec![G1Affine::one(); 4];
    ep.grand_product_commitment = G1Affine::one();
    ep.quotient_poly_commitments = vec![G1Affine::one(); 4];
    ep.wire_values_at_z = vec![engine_fr(1); 4];
    ep.wire_values_at_z_omega = vec![engine_fr(2)];
    ep.grand_product_at_z_omega = engine_fr(3);
    ep.quotient_polynomial_at_z = engine_fr(4);
    ep.linearization_polynomial_at_z = engine_fr(5);
    ep.permutation_polynomials_at_z = vec![engine_fr(6); 3];
    ep.opening_at_z_proof = G1Affine::one();
    ep.opening_at_z_omega_proof = G1Affine::one();
    let mut engine_bytes: Vec<u8> = Vec::new();
    ep.write(&mut engine_bytes).unwrap();

    let p = plonkit::artifacts::decode_proof(&engine_bytes).expect("engine output must decode");
    assert_eq!(p.n, 16);
    assert_eq!(p.num_inputs, 1);
    assert_eq!(p.input_values[0].bytes[28..32], [0x07, 0x5b, 0xcd, 0x15]);
}
