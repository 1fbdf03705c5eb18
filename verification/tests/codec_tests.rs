use plonkit::artifacts::{
    decode_aggregated, decode_proof, decode_srs, decode_vk, encode_aggregated, encode_proof,
    encode_srs, encode_vk, AggregatedProof, MonomialSrs, Proof, VerificationKey,
};
use plonkit::codec::{Fr, G1El, G2El};
use plonkit::display::{proof_to_display, vk_to_display};
use plonkit::field::{fq_check, fr_check, g1_on_curve_check};
use plonkit::hexenc::to_hex_string;
use plonkit::PipelineError;

const FR_MODULUS_HEX: &str = "30644e72e131a029b85045b68181585d2833e84879b9709143e1f593f0000001";
const G2_GEN_HEX: &str = "198e9393920d483a7260bfb731fb5d25f1aa493335a9e71297e485b7aef312c21800deef121f1e76426a00665e5c4479674322d4f75edadd46debd5cd992f6ed090689d0585ff075ec9e99ad690c3395bc4b313370b38ef355acdadcd122975b12c85ea5db8c6deb4aab71808dcb408fe3d1e7690c43d37b4ce6cc0166fa7daa";

fn fr_bytes(last: u8) -> Vec<u8> {
    let mut v = vec![0u8; 32];
    v[31] = last;
    v
}

fn fr(last: u8) -> Fr {
    Fr { bytes: fr_bytes(last) }
}

fn g1_gen() -> G1El {
    let mut v = vec![0u8; 64];
    v[31] = 1;
    v[63] = 2;
    G1El { bytes: v }
}

fn g1_inf() -> G1El {
    let mut v = vec![0u8; 64];
    v[0] = 0x40;
    G1El { bytes: v }
}

fn g2_gen() -> G2El {
    G2El { bytes: hex::decode(G2_GEN_HEX).unwrap() }
}

fn sample_proof(num_inputs: usize) -> Proof {
    let input_values: Vec<Fr> = (0..num_inputs).map(|i| fr(10 + i as u8)).collect();
    Proof {
        n: 8,
        num_inputs,
        input_values,
        wire_commitments: vec![g1_gen(), g1_inf(), g1_gen(), g1_gen()],
        grand_product_commitment: g1_gen(),
        quotient_poly_commitments: vec![g1_gen(), g1_gen(), g1_inf(), g1_gen()],
        wire_values_at_z: vec![fr(1), fr(2), fr(3), fr(4)],
        wire_values_at_z_omega: vec![fr(5)],
        grand_product_at_z_omega: fr(6),
        quotient_polynomial_at_z: fr(7),
        linearization_polynomial_at_z: fr(8),
        permutation_polynomials_at_z: vec![fr(9), fr(0), fr(11)],
        opening_at_z_proof: g1_gen(),
        opening_at_z_omega_proof: g1_inf(),
    }
}

fn sample_vk() -> VerificationKey {
    VerificationKey {
        n: 8,
        num_inputs: 2,
        selector_commitments: vec![g1_gen(), g1_gen(), g1_inf(), g1_gen(), g1_gen(), g1_gen()],
        next_step_selector_commitments: vec![g1_gen()],
        permutation_commitments: vec![g1_gen(), g1_inf(), g1_gen(), g1_gen()],
        non_residues: vec![fr(5), fr(7), fr(10)],
        g2_elements: vec![g2_gen(), g2_gen()],
    }
}

#[test]
fn hex_matches_reference_encoder() {
    let bytes: Vec<u8> = vec![0x00, 0x01, 0x0f, 0x10, 0xab, 0xff];
    assert_eq!(to_hex_string(&bytes), hex::encode(&bytes));
    let fr_zero = fr_bytes(0);
    assert_eq!(to_hex_string(&fr_zero), hex::encode(&fr_zero));
}

#[test]
fn hex_fixed_width_including_zero() {
    let zero = fr_bytes(0);
    let one = fr_bytes(1);
    let max = hex::decode(FR_MODULUS_HEX).unwrap();
    assert_eq!(to_hex_string(&zero).len(), 64);
    assert_eq!(to_hex_string(&one).len(), 64);
    assert_eq!(to_hex_string(&max).len(), 64);
    assert_eq!(
        to_hex_string(&zero),
        "0000000000000000000000000000000000000000000000000000000000000000"
    );
}

#[test]
fn fr_check_bounds() {
    assert!(fr_check(&fr_bytes(0)));
    assert!(fr_check(&fr_bytes(255)));
    let modulus = hex::decode(FR_MODULUS_HEX).unwrap();
    assert!(!fr_check(&modulus));
    let mut below = modulus.clone();
    below[31] = 0;
    assert!(fr_check(&below));
    assert!(!fr_check(&vec![0u8; 31]));
    assert!(!fr_check(&vec![0u8; 33]));
    assert!(fq_check(&fr_bytes(3)));
}

#[test]
fn g1_curve_membership() {
    let x = fr_bytes(1);
    let y = fr_bytes(2);
    assert!(g1_on_curve_check(&x, &y));
    let y_bad = fr_bytes(3);
    assert!(!g1_on_curve_check(&x, &y_bad));
    let zero = fr_bytes(0);
    // (0, 0) does not satisfy y^2 = x^3 + 3
    assert!(!g1_on_curve_check(&zero, &zero));
}

#[test]
fn proof_round_trip() {
    let p = sample_proof(2);
    let bytes = encode_proof(&p);
    assert_eq!(bytes.len(), 1112 + 32 * 2);
    let q = decode_proof(&bytes).expect("valid encoding must decode");
    assert_eq!(p, q);
}

#[test]
fn proof_round_trip_no_inputs() {
    let p = sample_proof(0);
    let bytes = encode_proof(&p);
    assert_eq!(bytes.len(), 1112);
    let q = decode_proof(&bytes).expect("valid encoding must decode");
    assert_eq!(p, q);
}

#[test]
fn encoding_is_deterministic() {
    let p = sample_proof(3);
    assert_eq!(encode_proof(&p), encode_proof(&sample_proof(3)));
    let v = sample_vk();
    assert_eq!(encode_vk(&v), encode_vk(&sample_vk()));
}

#[test]
fn truncated_proof_rejected() {
    let p = sample_proof(2);
    let mut bytes = encode_proof(&p);
    bytes.pop();
    assert_eq!(decode_proof(&bytes), Err(PipelineError::MalformedArtifact));
}

#[test]
fn corrupted_count_frame_rejected() {
    let p = sample_proof(1);
    let mut bytes = encode_proof(&p);
    // the wire-commitment count frame sits right after the input values
    let off = 16 + 32 + 7;
    bytes[off] = 5;
    assert_eq!(decode_proof(&bytes), Err(PipelineError::MalformedArtifact));
}

#[test]
fn noncanonical_field_value_rejected() {
    let p = sample_proof(1);
    let mut bytes = encode_proof(&p);
    let modulus = hex::decode(FR_MODULUS_HEX).unwrap();
    // overwrite the single input value with the modulus itself
    bytes[16..48].copy_from_slice(&modulus);
    assert_eq!(decode_proof(&bytes), Err(PipelineError::MalformedArtifact));
}

#[test]
fn off_curve_point_rejected() {
    let p = sample_proof(1);
    let mut bytes = encode_proof(&p);
    // first wire commitment: flip its y coordinate to 3
    let off = 16 + 32 + 8;
    bytes[off + 63] = 3;
    assert_eq!(decode_proof(&bytes), Err(PipelineError::MalformedArtifact));
}

#[test]
fn vk_round_trip() {
    let v = sample_vk();
    let bytes = encode_vk(&v);
    assert_eq!(bytes.len(), 1104);
    let w = decode_vk(&bytes).expect("valid encoding must decode");
    assert_eq!(v, w);
}

#[test]
fn vk_truncation_rejected() {
    let v = sample_vk();
    let mut bytes = encode_vk(&v);
    bytes.pop();
    assert_eq!(decode_vk(&bytes), Err(PipelineError::MalformedArtifact));
}

#[test]
fn vk_rejects_g2_infinity() {
    let v = sample_vk();
    let mut bytes = encode_vk(&v);
    // replace the first pairing generator with the infinity sentinel
    for b in bytes[848..976].iter_mut() {
        *b = 0;
    }
    bytes[848] = 0x40;
    assert_eq!(decode_vk(&bytes), Err(PipelineError::MalformedArtifact));
}

#[test]
fn srs_round_trip() {
    let srs = MonomialSrs {
        g1_bases: vec![g1_gen(), g1_inf(), g1_gen()],
        g2_bases: vec![g2_gen(), g2_gen()],
    };
    let bytes = encode_srs(&srs);
    assert_eq!(bytes.len(), 272 + 64 * 3);
    let back = decode_srs(&bytes).expect("valid encoding must decode");
    assert_eq!(srs, back);
}

#[test]
fn srs_truncation_rejected() {
    let srs = MonomialSrs { g1_bases: vec![g1_gen()], g2_bases: vec![g2_gen(), g2_gen()] };
    let mut bytes = encode_srs(&srs);
    bytes.pop();
    assert_eq!(decode_srs(&bytes), Err(PipelineError::MalformedArtifact));
}

#[test]
fn aggregated_round_trip() {
    let a = AggregatedProof { inner: sample_proof(1) };
    let bytes = encode_aggregated(&a);
    let b = decode_aggregated(&bytes).expect("valid encoding must decode");
    assert_eq!(a, b);
}

#[test]
fn aggregated_requires_single_input() {
    let two = sample_proof(2);
    let bytes = encode_proof(&two);
    assert_eq!(decode_aggregated(&bytes), Err(PipelineError::MalformedArtifact));
}

#[test]
fn proof_display_mirrors_schema() {
    let p = sample_proof(2);
    let d = proof_to_display(&p);
    assert_eq!(d.n, 8);
    assert_eq!(d.num_inputs, 2);
    assert_eq!(d.input_values.len(), 2);
    assert_eq!(d.input_values[0], hex::encode(&p.input_values[0].bytes));
    assert_eq!(d.input_values[0].len(), 64);
    assert_eq!(d.wire_commitments.len(), 4);
    assert_eq!(d.wire_commitments[0].len(), 128);
    assert_eq!(d.wire_commitments[1], hex::encode(&p.wire_commitments[1].bytes));
    assert_eq!(d.grand_product_commitment, hex::encode(&p.grand_product_commitment.bytes));
    assert_eq!(d.permutation_polynomials_at_z[1].len(), 64);
}

#[test]
fn vk_display_mirrors_schema() {
    let v = sample_vk();
    let d = vk_to_display(&v);
    assert_eq!(d.n, 8);
    assert_eq!(d.num_inputs, 2);
    assert_eq!(d.selector_commitments.len(), 6);
    assert_eq!(d.selector_commitments[2], hex::encode(&v.selector_commitments[2].bytes));
    assert_eq!(d.g2_elements.len(), 2);
    assert_eq!(d.g2_elements[0], G2_GEN_HEX);
    assert_eq!(d.non_residues[0].len(), 64);
}

#[test]
fn mutated_byte_never_decodes_to_same_proof() {
    let p = sample_proof(2);
    let bytes = encode_proof(&p);
    for pos in [0usize, 7, 15, 16, 47, 80, 90, 300, 700, 1100] {
        let mut mutated = bytes.clone();
        mutated[pos] ^= 1;
        match decode_proof(&mutated) {
            Ok(q) => assert_ne!(q, p, "byte {} silently ignored", pos),
            Err(e) => assert_eq!(e, PipelineError::MalformedArtifact),
        }
    }
}

#[test]
fn public_inputs_display_record() {
    let p = sample_proof(3);
    let d = plonkit::display::public_inputs_to_display(&p);
    assert_eq!(d.len(), 3);
    for (i, s) in d.iter().enumerate() {
        assert_eq!(s.len(), 64);
        assert_eq!(*s, hex::encode(&p.input_values[i].bytes));
    }
}

#[test]
fn schema_invariant_on_decode() {
    let p = sample_proof(4);
    let bytes = encode_proof(&p);
    let q = decode_proof(&bytes).unwrap();
    assert_eq!(q.num_inputs, q.input_values.len());
}
