//! The artifact schemas and their authoritative binary codec: a fixed layout
//! of u64 frames, 32-byte field elements and uncompressed curve points.
//! Encoding is a total function of the value; decoding accepts exactly the
//! well-formed encodings, so the two round-trip.

use vstd::prelude::*;
use crate::bytes::{
    be_val, bytes_eq, nat_be, lemma_nat_be_len, lemma_nat_be_val, lemma_pow256_values,
    push_u64_be, read_u64_be,
};
use crate::field::fr_bytes_valid;
use crate::codec::{
    Fr, G1El, G2El, cat_all, views_of, g1_enc_valid, g2_enc_valid, g2_infinity_bytes,
    g2_infinity_vec, lemma_cat_all_uniform, lemma_concat_subrange_left,
    push_bytes, push_fr_vec, push_g1_vec, push_g2_vec, read_fr_at, read_g1_at, read_g2_at,
    check_u64_at,
};
use crate::PipelineError;

verus! {

/// The mathematical content of a proof artifact: header sizes and the
/// canonical byte forms of each schema slot.
#[verifier::ext_equal]
pub ghost struct ProofV {
    pub n: nat,
    pub num_inputs: nat,
    pub input_values: Seq<Seq<u8>>,
    pub wire_commitments: Seq<Seq<u8>>,
    pub grand_product_commitment: Seq<u8>,
    pub quotient_poly_commitments: Seq<Seq<u8>>,
    pub wire_values_at_z: Seq<Seq<u8>>,
    pub wire_values_at_z_omega: Seq<Seq<u8>>,
    pub grand_product_at_z_omega: Seq<u8>,
    pub quotient_polynomial_at_z: Seq<u8>,
    pub linearization_polynomial_at_z: Seq<u8>,
    pub permutation_polynomials_at_z: Seq<Seq<u8>>,
    pub opening_at_z_proof: Seq<u8>,
    pub opening_at_z_omega_proof: Seq<u8>,
}

/// Schema validity: every slot canonical, the fixed widths of the four-wire
/// scheme, and the public-input count equal to the number of input values.
#[verifier::opaque]
pub open spec fn proof_valid_v(p: ProofV) -> bool {
    &&& p.n <= usize::MAX as nat
    &&& p.n < 0x10000000000000000
    &&& p.num_inputs <= usize::MAX as nat
    &&& p.num_inputs < 0x10000000000000000
    &&& p.num_inputs == p.input_values.len()
    &&& forall|i: int|
        0 <= i < p.input_values.len() ==> fr_bytes_valid(#[trigger] p.input_values[i])
    &&& p.wire_commitments.len() == 4
    &&& forall|i: int|
        0 <= i < p.wire_commitments.len() ==> g1_enc_valid(#[trigger] p.wire_commitments[i])
    &&& g1_enc_valid(p.grand_product_commitment)
    &&& p.quotient_poly_commitments.len() == 4
    &&& forall|i: int|
        0 <= i < p.quotient_poly_commitments.len() ==> g1_enc_valid(
            #[trigger] p.quotient_poly_commitments[i],
        )
    &&& p.wire_values_at_z.len() == 4
    &&& forall|i: int|
        0 <= i < p.wire_values_at_z.len() ==> fr_bytes_valid(#[trigger] p.wire_values_at_z[i])
    &&& p.wire_values_at_z_omega.len() == 1
    &&& forall|i: int|
        0 <= i < p.wire_values_at_z_omega.len() ==> fr_bytes_valid(
            #[trigger] p.wire_values_at_z_omega[i],
        )
    &&& fr_bytes_valid(p.grand_product_at_z_omega)
    &&& fr_bytes_valid(p.quotient_polynomial_at_z)
    &&& fr_bytes_valid(p.linearization_polynomial_at_z)
    &&& p.permutation_polynomials_at_z.len() == 3
    &&& forall|i: int|
        0 <= i < p.permutation_polynomials_at_z.len() ==> fr_bytes_valid(
            #[trigger] p.permutation_polynomials_at_z[i],
        )
    &&& g1_enc_valid(p.opening_at_z_proof)
    &&& g1_enc_valid(p.opening_at_z_omega_proof)
}

/// Total length of a proof encoding with `k` public inputs.
pub open spec fn proof_enc_len(k: nat) -> nat {
    1112 + 32 * k
}

/// The canonical binary form: two u64 header frames, the input values, then
/// each commitment and evaluation group behind its u64 count frame.
#[verifier::opaque]
pub open spec fn encoded_proof(p: ProofV) -> Seq<u8> {
    nat_be(p.n, 8) + nat_be(p.num_inputs, 8) + cat_all(p.input_values) + nat_be(4, 8) + cat_all(
        p.wire_commitments,
    ) + p.grand_product_commitment + nat_be(4, 8) + cat_all(p.quotient_poly_commitments) + nat_be(
        4,
        8,
    ) + cat_all(p.wire_values_at_z) + nat_be(1, 8) + cat_all(p.wire_values_at_z_omega)
        + p.grand_product_at_z_omega + p.quotient_polynomial_at_z + p.linearization_polynomial_at_z
        + nat_be(3, 8) + cat_all(p.permutation_polynomials_at_z) + p.opening_at_z_proof
        + p.opening_at_z_omega_proof
}

/// Where every slot of a proof with `k` inputs sits inside its encoding.
#[verifier::opaque]
pub open spec fn proof_layout(p: ProofV, s: Seq<u8>) -> bool {
    let k = p.num_inputs as int;
    &&& s.len() == proof_enc_len(p.num_inputs)
    &&& be_val(s.subrange(0, 8)) == p.n
    &&& be_val(s.subrange(8, 16)) == p.num_inputs
    &&& forall|i: int|
        0 <= i < k ==> s.subrange(16 + 32 * i, 48 + 32 * i) == #[trigger] p.input_values[i]
    &&& be_val(s.subrange(16 + 32 * k, 24 + 32 * k)) == 4
    &&& forall|i: int|
        0 <= i < 4 ==> s.subrange(24 + 32 * k + 64 * i, 88 + 32 * k + 64 * i)
            == #[trigger] p.wire_commitments[i]
    &&& s.subrange(280 + 32 * k, 344 + 32 * k) == p.grand_product_commitment
    &&& be_val(s.subrange(344 + 32 * k, 352 + 32 * k)) == 4
    &&& forall|i: int|
        0 <= i < 4 ==> s.subrange(352 + 32 * k + 64 * i, 416 + 32 * k + 64 * i)
            == #[trigger] p.quotient_poly_commitments[i]
    &&& be_val(s.subrange(608 + 32 * k, 616 + 32 * k)) == 4
    &&& forall|i: int|
        0 <= i < 4 ==> s.subrange(616 + 32 * k + 32 * i, 648 + 32 * k + 32 * i)
            == #[trigger] p.wire_values_at_z[i]
    &&& be_val(s.subrange(744 + 32 * k, 752 + 32 * k)) == 1
    &&& forall|i: int|
        0 <= i < 1 ==> s.subrange(752 + 32 * k + 32 * i, 784 + 32 * k + 32 * i)
            == #[trigger] p.wire_values_at_z_omega[i]
    &&& s.subrange(784 + 32 * k, 816 + 32 * k) == p.grand_product_at_z_omega
    &&& s.subrange(816 + 32 * k, 848 + 32 * k) == p.quotient_polynomial_at_z
    &&& s.subrange(848 + 32 * k, 880 + 32 * k) == p.linearization_polynomial_at_z
    &&& be_val(s.subrange(880 + 32 * k, 888 + 32 * k)) == 3
    &&& forall|i: int|
        0 <= i < 3 ==> s.subrange(888 + 32 * k + 32 * i, 920 + 32 * k + 32 * i)
            == #[trigger] p.permutation_polynomials_at_z[i]
    &&& s.subrange(984 + 32 * k, 1048 + 32 * k) == p.opening_at_z_proof
    &&& s.subrange(1048 + 32 * k, 1112 + 32 * k) == p.opening_at_z_omega_proof
}

/// Evaluates the u64 count frames used by the layouts.
pub proof fn lemma_small_frame_val(v: nat)
    requires
        v < 0x10000000000000000,
    ensures
        nat_be(v, 8).len() == 8,
        be_val(nat_be(v, 8)) == v,
{
    lemma_nat_be_len(v, 8);
    lemma_nat_be_val(v, 8);
    lemma_pow256_values();
    vstd::arithmetic::div_mod::lemma_small_mod(v, 0x10000000000000000);
}

/// The encoding of a valid proof satisfies the layout relation.
#[verifier::rlimit(60)]
pub proof fn lemma_proof_layout_of_encoded(p: ProofV)
    requires
        proof_valid_v(p),
    ensures
        proof_layout(p, encoded_proof(p)),
{
    reveal(proof_valid_v);
    reveal(encoded_proof);
    reveal(proof_layout);
    let k = p.num_inputs as int;
    lemma_small_frame_val(p.n);
    lemma_small_frame_val(p.num_inputs);
    lemma_small_frame_val(4);
    lemma_small_frame_val(1);
    lemma_small_frame_val(3);
    lemma_cat_all_uniform(p.input_values, 32);
    lemma_cat_all_uniform(p.wire_commitments, 64);
    lemma_cat_all_uniform(p.quotient_poly_commitments, 64);
    lemma_cat_all_uniform(p.wire_values_at_z, 32);
    lemma_cat_all_uniform(p.wire_values_at_z_omega, 32);
    lemma_cat_all_uniform(p.permutation_polynomials_at_z, 32);
    let s1 = nat_be(p.n, 8);
    let s2 = s1 + nat_be(p.num_inputs, 8);
    let s3 = s2 + cat_all(p.input_values);
    let s4 = s3 + nat_be(4, 8);
    let s5 = s4 + cat_all(p.wire_commitments);
    let s6 = s5 + p.grand_product_commitment;
    let s7 = s6 + nat_be(4, 8);
    let s8 = s7 + cat_all(p.quotient_poly_commitments);
    let s9 = s8 + nat_be(4, 8);
    let s10 = s9 + cat_all(p.wire_values_at_z);
    let s11 = s10 + nat_be(1, 8);
    let s12 = s11 + cat_all(p.wire_values_at_z_omega);
    let s13 = s12 + p.grand_product_at_z_omega;
    let s14 = s13 + p.quotient_polynomial_at_z;
    let s15 = s14 + p.linearization_polynomial_at_z;
    let s16 = s15 + nat_be(3, 8);
    let s17 = s16 + cat_all(p.permutation_polynomials_at_z);
    let s18 = s17 + p.opening_at_z_proof;
    let s19 = s18 + p.opening_at_z_omega_proof;
    let s = encoded_proof(p);
    assert(s == s19);
    assert(k * 32 == 32 * k) by (nonlinear_arith);
    assert(s2.len() == 16);
    assert(s3.len() == 16 + 32 * k);
    assert(s19.len() == 1112 + 32 * k);
    // Every byte below the length of an intermediate stage survives the later
    // concatenations, so each slot can be read off the final string.
    assert forall|a: int, b: int|
        0 <= a <= b <= s18.len() implies s.subrange(a, b) =~= s18.subrange(a, b) by {
        lemma_concat_subrange_left(s18, p.opening_at_z_omega_proof, a, b);
    }
    assert forall|a: int, b: int|
        0 <= a <= b <= s17.len() implies s.subrange(a, b) =~= s17.subrange(a, b) by {
        lemma_concat_subrange_left(s18, p.opening_at_z_omega_proof, a, b);
        lemma_concat_subrange_left(s17, p.opening_at_z_proof, a, b);
    }
    assert forall|a: int, b: int|
        0 <= a <= b <= s16.len() implies s.subrange(a, b) =~= s16.subrange(a, b) by {
        assert(s.subrange(a, b) =~= s17.subrange(a, b));
        lemma_concat_subrange_left(s16, cat_all(p.permutation_polynomials_at_z), a, b);
    }
    assert forall|a: int, b: int|
        0 <= a <= b <= s15.len() implies s.subrange(a, b) =~= s15.subrange(a, b) by {
        assert(s.subrange(a, b) =~= s16.subrange(a, b));
        lemma_concat_subrange_left(s15, nat_be(3, 8), a, b);
    }
    assert forall|a: int, b: int|
        0 <= a <= b <= s14.len() implies s.subrange(a, b) =~= s14.subrange(a, b) by {
        assert(s.subrange(a, b) =~= s15.subrange(a, b));
        lemma_concat_subrange_left(s14, p.linearization_polynomial_at_z, a, b);
    }
    assert forall|a: int, b: int|
        0 <= a <= b <= s13.len() implies s.subrange(a, b) =~= s13.subrange(a, b) by {
        assert(s.subrange(a, b) =~= s14.subrange(a, b));
        lemma_concat_subrange_left(s13, p.quotient_polynomial_at_z, a, b);
    }
    assert forall|a: int, b: int|
        0 <= a <= b <= s12.len() implies s.subrange(a, b) =~= s12.subrange(a, b) by {
        assert(s.subrange(a, b) =~= s13.subrange(a, b));
        lemma_concat_subrange_left(s12, p.grand_product_at_z_omega, a, b);
    }
    assert forall|a: int, b: int|
        0 <= a <= b <= s11.len() implies s.subrange(a, b) =~= s11.subrange(a, b) by {
        assert(s.subrange(a, b) =~= s12.subrange(a, b));
        lemma_concat_subrange_left(s11, cat_all(p.wire_values_at_z_omega), a, b);
    }
    assert forall|a: int, b: int|
        0 <= a <= b <= s10.len() implies s.subrange(a, b) =~= s10.subrange(a, b) by {
        assert(s.subrange(a, b) =~= s11.subrange(a, b));
        lemma_concat_subrange_left(s10, nat_be(1, 8), a, b);
    }
    assert forall|a: int, b: int|
        0 <= a <= b <= s9.len() implies s.subrange(a, b) =~= s9.subrange(a, b) by {
        assert(s.subrange(a, b) =~= s10.subrange(a, b));
        lemma_concat_subrange_left(s9, cat_all(p.wire_values_at_z), a, b);
    }
    assert forall|a: int, b: int|
        0 <= a <= b <= s8.len() implies s.subrange(a, b) =~= s8.subrange(a, b) by {
        assert(s.subrange(a, b) =~= s9.subrange(a, b));
        lemma_concat_subrange_left(s8, nat_be(4, 8), a, b);
    }
    assert forall|a: int, b: int|
        0 <= a <= b <= s7.len() implies s.subrange(a, b) =~= s7.subrange(a, b) by {
        assert(s.subrange(a, b) =~= s8.subrange(a, b));
        lemma_concat_subrange_left(s7, cat_all(p.quotient_poly_commitments), a, b);
    }
    assert forall|a: int, b: int|
        0 <= a <= b <= s6.len() implies s.subrange(a, b) =~= s6.subrange(a, b) by {
        assert(s.subrange(a, b) =~= s7.subrange(a, b));
        lemma_concat_subrange_left(s6, nat_be(4, 8), a, b);
    }
    assert forall|a: int, b: int|
        0 <= a <= b <= s5.len() implies s.subrange(a, b) =~= s5.subrange(a, b) by {
        assert(s.subrange(a, b) =~= s6.subrange(a, b));
        lemma_concat_subrange_left(s5, p.grand_product_commitment, a, b);
    }
    assert forall|a: int, b: int|
        0 <= a <= b <= s4.len() implies s.subrange(a, b) =~= s4.subrange(a, b) by {
        assert(s.subrange(a, b) =~= s5.subrange(a, b));
        lemma_concat_subrange_left(s4, cat_all(p.wire_commitments), a, b);
    }
    assert forall|a: int, b: int|
        0 <= a <= b <= s3.len() implies s.subrange(a, b) =~= s3.subrange(a, b) by {
        assert(s.subrange(a, b) =~= s4.subrange(a, b));
        lemma_concat_subrange_left(s3, nat_be(4, 8), a, b);
    }
    assert forall|a: int, b: int|
        0 <= a <= b <= s2.len() implies s.subrange(a, b) =~= s2.subrange(a, b) by {
        assert(s.subrange(a, b) =~= s3.subrange(a, b));
        lemma_concat_subrange_left(s2, cat_all(p.input_values), a, b);
    }
    // header frames
    assert(s.subrange(0, 8) =~= s2.subrange(0, 8));
    assert(s2.subrange(0, 8) =~= s1);
    assert(s.subrange(8, 16) =~= s2.subrange(8, 16));
    assert(s2.subrange(8, 16) =~= nat_be(p.num_inputs, 8));
    // input values
    assert forall|i: int| 0 <= i < k implies s.subrange(16 + 32 * i, 48 + 32 * i)
        == #[trigger] p.input_values[i] by {
        assert((i + 1) * 32 <= k * 32) by (nonlinear_arith)
            requires
                i + 1 <= k,
        ;
        assert(s.subrange(16 + 32 * i, 48 + 32 * i) =~= s3.subrange(16 + 32 * i, 48 + 32 * i));
        assert(s3.subrange(16 + 32 * i, 48 + 32 * i) =~= cat_all(p.input_values).subrange(
            32 * i,
            32 * (i + 1),
        ));
        assert(i * 32 == 32 * i && (i + 1) * 32 == 32 * (i + 1)) by (nonlinear_arith);
        assert(cat_all(p.input_values).subrange(i * 32, (i + 1) * 32) == p.input_values[i]);
    }
    // count frame and wire commitments
    assert(s.subrange(16 + 32 * k, 24 + 32 * k) =~= s4.subrange(16 + 32 * k, 24 + 32 * k));
    assert(s4.subrange(16 + 32 * k, 24 + 32 * k) =~= nat_be(4, 8));
    assert forall|i: int| 0 <= i < 4 implies s.subrange(24 + 32 * k + 64 * i, 88 + 32 * k + 64 * i)
        == #[trigger] p.wire_commitments[i] by {
        assert(s.subrange(24 + 32 * k + 64 * i, 88 + 32 * k + 64 * i) =~= s5.subrange(
            24 + 32 * k + 64 * i,
            88 + 32 * k + 64 * i,
        ));
        assert(s5.subrange(24 + 32 * k + 64 * i, 88 + 32 * k + 64 * i) =~= cat_all(
            p.wire_commitments,
        ).subrange(64 * i, 64 * (i + 1)));
        assert(i * 64 == 64 * i && (i + 1) * 64 == 64 * (i + 1)) by (nonlinear_arith);
        assert(cat_all(p.wire_commitments).subrange(i * 64, (i + 1) * 64)
            == p.wire_commitments[i]);
    }
    // grand product commitment
    assert(s.subrange(280 + 32 * k, 344 + 32 * k) =~= s6.subrange(280 + 32 * k, 344 + 32 * k));
    assert(s6.subrange(280 + 32 * k, 344 + 32 * k) =~= p.grand_product_commitment);
    // quotient commitments
    assert(s.subrange(344 + 32 * k, 352 + 32 * k) =~= s7.subrange(344 + 32 * k, 352 + 32 * k));
    assert(s7.subrange(344 + 32 * k, 352 + 32 * k) =~= nat_be(4, 8));
    assert forall|i: int| 0 <= i < 4 implies s.subrange(352 + 32 * k + 64 * i, 416 + 32 * k + 64 * i)
        == #[trigger] p.quotient_poly_commitments[i] by {
        assert(s.subrange(352 + 32 * k + 64 * i, 416 + 32 * k + 64 * i) =~= s8.subrange(
            352 + 32 * k + 64 * i,
            416 + 32 * k + 64 * i,
        ));
        assert(s8.subrange(352 + 32 * k + 64 * i, 416 + 32 * k + 64 * i) =~= cat_all(
            p.quotient_poly_commitments,
        ).subrange(64 * i, 64 * (i + 1)));
        assert(i * 64 == 64 * i && (i + 1) * 64 == 64 * (i + 1)) by (nonlinear_arith);
        assert(cat_all(p.quotient_poly_commitments).subrange(i * 64, (i + 1) * 64)
            == p.quotient_poly_commitments[i]);
    }
    // wire values at z
    assert(s.subrange(608 + 32 * k, 616 + 32 * k) =~= s9.subrange(608 + 32 * k, 616 + 32 * k));
    assert(s9.subrange(608 + 32 * k, 616 + 32 * k) =~= nat_be(4, 8));
    assert forall|i: int| 0 <= i < 4 implies s.subrange(616 + 32 * k + 32 * i, 648 + 32 * k + 32 * i)
        == #[trigger] p.wire_values_at_z[i] by {
        assert(s.subrange(616 + 32 * k + 32 * i, 648 + 32 * k + 32 * i) =~= s10.subrange(
            616 + 32 * k + 32 * i,
            648 + 32 * k + 32 * i,
        ));
        assert(s10.subrange(616 + 32 * k + 32 * i, 648 + 32 * k + 32 * i) =~= cat_all(
            p.wire_values_at_z,
        ).subrange(32 * i, 32 * (i + 1)));
        assert(i * 32 == 32 * i && (i + 1) * 32 == 32 * (i + 1)) by (nonlinear_arith);
        assert(cat_all(p.wire_values_at_z).subrange(i * 32, (i + 1) * 32)
            == p.wire_values_at_z[i]);
    }
    // wire values at z*omega
    assert(s.subrange(744 + 32 * k, 752 + 32 * k) =~= s11.subrange(744 + 32 * k, 752 + 32 * k));
    assert(s11.subrange(744 + 32 * k, 752 + 32 * k) =~= nat_be(1, 8));
    assert forall|i: int| 0 <= i < 1 implies s.subrange(752 + 32 * k + 32 * i, 784 + 32 * k + 32 * i)
        == #[trigger] p.wire_values_at_z_omega[i] by {
        assert(s.subrange(752 + 32 * k + 32 * i, 784 + 32 * k + 32 * i) =~= s12.subrange(
            752 + 32 * k + 32 * i,
            784 + 32 * k + 32 * i,
        ));
        assert(s12.subrange(752 + 32 * k + 32 * i, 784 + 32 * k + 32 * i) =~= cat_all(
            p.wire_values_at_z_omega,
        ).subrange(32 * i, 32 * (i + 1)));
        assert(i * 32 == 32 * i && (i + 1) * 32 == 32 * (i + 1)) by (nonlinear_arith);
        assert(cat_all(p.wire_values_at_z_omega).subrange(i * 32, (i + 1) * 32)
            == p.wire_values_at_z_omega[i]);
    }
    // single evaluations
    assert(s.subrange(784 + 32 * k, 816 + 32 * k) =~= s13.subrange(784 + 32 * k, 816 + 32 * k));
    assert(s13.subrange(784 + 32 * k, 816 + 32 * k) =~= p.grand_product_at_z_omega);
    assert(s.subrange(816 + 32 * k, 848 + 32 * k) =~= s14.subrange(816 + 32 * k, 848 + 32 * k));
    assert(s14.subrange(816 + 32 * k, 848 + 32 * k) =~= p.quotient_polynomial_at_z);
    assert(s.subrange(848 + 32 * k, 880 + 32 * k) =~= s15.subrange(848 + 32 * k, 880 + 32 * k));
    assert(s15.subrange(848 + 32 * k, 880 + 32 * k) =~= p.linearization_polynomial_at_z);
    // permutation evaluations
    assert(s.subrange(880 + 32 * k, 888 + 32 * k) =~= s16.subrange(880 + 32 * k, 888 + 32 * k));
    assert(s16.subrange(880 + 32 * k, 888 + 32 * k) =~= nat_be(3, 8));
    assert forall|i: int| 0 <= i < 3 implies s.subrange(888 + 32 * k + 32 * i, 920 + 32 * k + 32 * i)
        == #[trigger] p.permutation_polynomials_at_z[i] by {
        assert(s.subrange(888 + 32 * k + 32 * i, 920 + 32 * k + 32 * i) =~= s17.subrange(
            888 + 32 * k + 32 * i,
            920 + 32 * k + 32 * i,
        ));
        assert(s17.subrange(888 + 32 * k + 32 * i, 920 + 32 * k + 32 * i) =~= cat_all(
            p.permutation_polynomials_at_z,
        ).subrange(32 * i, 32 * (i + 1)));
        assert(i * 32 == 32 * i && (i + 1) * 32 == 32 * (i + 1)) by (nonlinear_arith);
        assert(cat_all(p.permutation_polynomials_at_z).subrange(i * 32, (i + 1) * 32)
            == p.permutation_polynomials_at_z[i]);
    }
    // openings
    assert(s.subrange(984 + 32 * k, 1048 + 32 * k) =~= s18.subrange(984 + 32 * k, 1048 + 32 * k));
    assert(s18.subrange(984 + 32 * k, 1048 + 32 * k) =~= p.opening_at_z_proof);
    assert(s.subrange(1048 + 32 * k, 1112 + 32 * k) =~= p.opening_at_z_omega_proof);
}

/// Reads `count` consecutive field elements starting at `base`.
pub fn read_fr_group(bytes: &Vec<u8>, base: usize, count: usize) -> (r: Option<Vec<Fr>>)
    requires
        base + 32 * count <= bytes@.len(),
    ensures
        r matches Some(v) ==> v@.len() == count && forall|j: int|
            0 <= j < count ==> (#[trigger] v@[j])@ == bytes@.subrange(
                base + 32 * j,
                base + 32 * j + 32,
            ) && fr_bytes_valid(v@[j]@),
        r is None ==> exists|j: int|
            0 <= j < count && !fr_bytes_valid(
                #[trigger] bytes@.subrange(base + 32 * j, base + 32 * j + 32),
            ),
{
    let total = bytes.len();
    let mut out: Vec<Fr> = Vec::new();
    let mut i: usize = 0;
    while i < count
        invariant
            0 <= i <= count,
            total == bytes@.len(),
            base + 32 * count <= total,
            out@.len() == i,
            forall|j: int|
                0 <= j < i ==> (#[trigger] out@[j])@ == bytes@.subrange(
                    base + 32 * j,
                    base + 32 * j + 32,
                ) && fr_bytes_valid(out@[j]@),
        decreases count - i,
    {
        match read_fr_at(bytes, base + 32 * i) {
            Some(f) => {
                out.push(f);
            },
            None => {
                return None;
            },
        }
        i = i + 1;
    }
    Some(out)
}

/// Reads `count` consecutive uncompressed G1 points starting at `base`.
pub fn read_g1_group(bytes: &Vec<u8>, base: usize, count: usize) -> (r: Option<Vec<G1El>>)
    requires
        base + 64 * count <= bytes@.len(),
    ensures
        r matches Some(v) ==> v@.len() == count && forall|j: int|
            0 <= j < count ==> (#[trigger] v@[j])@ == bytes@.subrange(
                base + 64 * j,
                base + 64 * j + 64,
            ) && g1_enc_valid(v@[j]@),
        r is None ==> exists|j: int|
            0 <= j < count && !g1_enc_valid(
                #[trigger] bytes@.subrange(base + 64 * j, base + 64 * j + 64),
            ),
{
    let total = bytes.len();
    let mut out: Vec<G1El> = Vec::new();
    let mut i: usize = 0;
    while i < count
        invariant
            0 <= i <= count,
            total == bytes@.len(),
            base + 64 * count <= total,
            out@.len() == i,
            forall|j: int|
                0 <= j < i ==> (#[trigger] out@[j])@ == bytes@.subrange(
                    base + 64 * j,
                    base + 64 * j + 64,
                ) && g1_enc_valid(out@[j]@),
        decreases count - i,
    {
        match read_g1_at(bytes, base + 64 * i) {
            Some(p) => {
                out.push(p);
            },
            None => {
                return None;
            },
        }
        i = i + 1;
    }
    Some(out)
}

/// A proof artifact of the four-wire scheme, every slot in canonical form.
#[derive(Clone, Debug, PartialEq, Eq)]
pub struct Proof {
    pub n: usize,
    pub num_inputs: usize,
    pub input_values: Vec<Fr>,
    pub wire_commitments: Vec<G1El>,
    pub grand_product_commitment: G1El,
    pub quotient_poly_commitments: Vec<G1El>,
    pub wire_values_at_z: Vec<Fr>,
    pub wire_values_at_z_omega: Vec<Fr>,
    pub grand_product_at_z_omega: Fr,
    pub quotient_polynomial_at_z: Fr,
    pub linearization_polynomial_at_z: Fr,
    pub permutation_polynomials_at_z: Vec<Fr>,
    pub opening_at_z_proof: G1El,
    pub opening_at_z_omega_proof: G1El,
}

impl View for Proof {
    type V = ProofV;

    open spec fn view(&self) -> ProofV {
        ProofV {
            n: self.n as nat,
            num_inputs: self.num_inputs as nat,
            input_values: views_of(self.input_values@),
            wire_commitments: views_of(self.wire_commitments@),
            grand_product_commitment: self.grand_product_commitment@,
            quotient_poly_commitments: views_of(self.quotient_poly_commitments@),
            wire_values_at_z: views_of(self.wire_values_at_z@),
            wire_values_at_z_omega: views_of(self.wire_values_at_z_omega@),
            grand_product_at_z_omega: self.grand_product_at_z_omega@,
            quotient_polynomial_at_z: self.quotient_polynomial_at_z@,
            linearization_polynomial_at_z: self.linearization_polynomial_at_z@,
            permutation_polynomials_at_z: views_of(self.permutation_polynomials_at_z@),
            opening_at_z_proof: self.opening_at_z_proof@,
            opening_at_z_omega_proof: self.opening_at_z_omega_proof@,
        }
    }
}

/// Validity of a proof artifact, stated over its mathematical content.
pub open spec fn proof_valid(p: Proof) -> bool {
    proof_valid_v(p@)
}

/// The authoritative binary form of a proof; deterministic by construction.
pub fn encode_proof(p: &Proof) -> (r: Vec<u8>)
    ensures
        r@ == encoded_proof(p@),
{
    let mut out: Vec<u8> = Vec::new();
    push_u64_be(&mut out, p.n as u64);
    push_u64_be(&mut out, p.num_inputs as u64);
    push_fr_vec(&mut out, &p.input_values);
    push_u64_be(&mut out, 4);
    push_g1_vec(&mut out, &p.wire_commitments);
    push_bytes(&mut out, &p.grand_product_commitment.bytes);
    push_u64_be(&mut out, 4);
    push_g1_vec(&mut out, &p.quotient_poly_commitments);
    push_u64_be(&mut out, 4);
    push_fr_vec(&mut out, &p.wire_values_at_z);
    push_u64_be(&mut out, 1);
    push_fr_vec(&mut out, &p.wire_values_at_z_omega);
    push_bytes(&mut out, &p.grand_product_at_z_omega.bytes);
    push_bytes(&mut out, &p.quotient_polynomial_at_z.bytes);
    push_bytes(&mut out, &p.linearization_polynomial_at_z.bytes);
    push_u64_be(&mut out, 3);
    push_fr_vec(&mut out, &p.permutation_polynomials_at_z);
    push_bytes(&mut out, &p.opening_at_z_proof.bytes);
    push_bytes(&mut out, &p.opening_at_z_omega_proof.bytes);
    proof {
        reveal(encoded_proof);
        assert(out@ =~= encoded_proof(p@));
    }
    out
}

/// Some valid proof encodes to exactly these bytes.
pub open spec fn proof_bytes_wf(s: Seq<u8>) -> bool {
    exists|pv: ProofV| proof_valid_v(pv) && encoded_proof(pv) == s
}

/// Header facts every proof encoding satisfies: enough bytes, a whole number
/// of input slots, and in-range header frames.
pub proof fn lemma_wf_header_facts(s: Seq<u8>)
    requires
        proof_bytes_wf(s),
    ensures
        s.len() >= 1112,
        (s.len() - 1112) % 32 == 0,
        be_val(s.subrange(0, 8)) <= usize::MAX as nat,
        be_val(s.subrange(8, 16)) == (s.len() - 1112) / 32,
{
    let pv = choose|pv: ProofV| proof_valid_v(pv) && encoded_proof(pv) == s;
    lemma_proof_layout_of_encoded(pv);
    reveal(proof_layout);
    reveal(proof_valid_v);
    let k = pv.num_inputs as int;
    assert(s.len() - 1112 == 32 * k);
    assert((32 * k) % 32 == 0 && (32 * k) / 32 == k) by (nonlinear_arith);
}

/// Body facts every proof encoding with `k` input slots satisfies: the count
/// frames hold the fixed widths and every element slot is canonical.
pub proof fn lemma_wf_body_facts(s: Seq<u8>, k: int)
    requires
        proof_bytes_wf(s),
        s.len() == 1112 + 32 * k,
        k >= 0,
    ensures
        forall|j: int|
            0 <= j < k ==> fr_bytes_valid(#[trigger] s.subrange(16 + 32 * j, 16 + 32 * j + 32)),
        be_val(s.subrange(16 + 32 * k, 16 + 32 * k + 8)) == 4,
        forall|j: int|
            0 <= j < 4 ==> g1_enc_valid(
                #[trigger] s.subrange(24 + 32 * k + 64 * j, 24 + 32 * k + 64 * j + 64),
            ),
        g1_enc_valid(s.subrange(280 + 32 * k, 280 + 32 * k + 64)),
        be_val(s.subrange(344 + 32 * k, 344 + 32 * k + 8)) == 4,
        forall|j: int|
            0 <= j < 4 ==> g1_enc_valid(
                #[trigger] s.subrange(352 + 32 * k + 64 * j, 352 + 32 * k + 64 * j + 64),
            ),
        be_val(s.subrange(608 + 32 * k, 608 + 32 * k + 8)) == 4,
        forall|j: int|
            0 <= j < 4 ==> fr_bytes_valid(
                #[trigger] s.subrange(616 + 32 * k + 32 * j, 616 + 32 * k + 32 * j + 32),
            ),
        be_val(s.subrange(744 + 32 * k, 744 + 32 * k + 8)) == 1,
        forall|j: int|
            0 <= j < 1 ==> fr_bytes_valid(
                #[trigger] s.subrange(736 + 32 * k + 16 + 32 * j, 736 + 32 * k + 16 + 32 * j + 32),
            ),
        fr_bytes_valid(s.subrange(784 + 32 * k, 784 + 32 * k + 32)),
        fr_bytes_valid(s.subrange(816 + 32 * k, 816 + 32 * k + 32)),
        fr_bytes_valid(s.subrange(848 + 32 * k, 848 + 32 * k + 32)),
        be_val(s.subrange(880 + 32 * k, 880 + 32 * k + 8)) == 3,
        forall|j: int|
            0 <= j < 3 ==> fr_bytes_valid(
                #[trigger] s.subrange(888 + 32 * k + 32 * j, 888 + 32 * k + 32 * j + 32),
            ),
        g1_enc_valid(s.subrange(984 + 32 * k, 984 + 32 * k + 64)),
        g1_enc_valid(s.subrange(1048 + 32 * k, 1048 + 32 * k + 64)),
{
    let pv = choose|pv: ProofV| proof_valid_v(pv) && encoded_proof(pv) == s;
    lemma_proof_layout_of_encoded(pv);
    reveal(proof_layout);
    reveal(proof_valid_v);
    let kk = pv.num_inputs as int;
    assert(32 * kk == 32 * k);
    assert(kk == k);
    assert forall|j: int| 0 <= j < k implies fr_bytes_valid(
        #[trigger] s.subrange(16 + 32 * j, 16 + 32 * j + 32),
    ) by {
        assert(s.subrange(16 + 32 * j, 48 + 32 * j) == pv.input_values[j]);
        assert(s.subrange(16 + 32 * j, 16 + 32 * j + 32) == s.subrange(16 + 32 * j, 48 + 32 * j));
    }
    assert forall|j: int| 0 <= j < 4 implies g1_enc_valid(
        #[trigger] s.subrange(24 + 32 * k + 64 * j, 24 + 32 * k + 64 * j + 64),
    ) by {
        assert(s.subrange(24 + 32 * k + 64 * j, 88 + 32 * k + 64 * j) == pv.wire_commitments[j]);
        assert(s.subrange(24 + 32 * k + 64 * j, 24 + 32 * k + 64 * j + 64) == s.subrange(
            24 + 32 * k + 64 * j,
            88 + 32 * k + 64 * j,
        ));
    }
    assert forall|j: int| 0 <= j < 4 implies g1_enc_valid(
        #[trigger] s.subrange(352 + 32 * k + 64 * j, 352 + 32 * k + 64 * j + 64),
    ) by {
        assert(s.subrange(352 + 32 * k + 64 * j, 416 + 32 * k + 64 * j)
            == pv.quotient_poly_commitments[j]);
        assert(s.subrange(352 + 32 * k + 64 * j, 352 + 32 * k + 64 * j + 64) == s.subrange(
            352 + 32 * k + 64 * j,
            416 + 32 * k + 64 * j,
        ));
    }
    assert forall|j: int| 0 <= j < 4 implies fr_bytes_valid(
        #[trigger] s.subrange(616 + 32 * k + 32 * j, 616 + 32 * k + 32 * j + 32),
    ) by {
        assert(s.subrange(616 + 32 * k + 32 * j, 648 + 32 * k + 32 * j) == pv.wire_values_at_z[j]);
        assert(s.subrange(616 + 32 * k + 32 * j, 616 + 32 * k + 32 * j + 32) == s.subrange(
            616 + 32 * k + 32 * j,
            648 + 32 * k + 32 * j,
        ));
    }
    assert forall|j: int| 0 <= j < 1 implies fr_bytes_valid(
        #[trigger] s.subrange(736 + 32 * k + 16 + 32 * j, 736 + 32 * k + 16 + 32 * j + 32),
    ) by {
        assert(s.subrange(752 + 32 * k + 32 * j, 784 + 32 * k + 32 * j)
            == pv.wire_values_at_z_omega[j]);
        assert(s.subrange(736 + 32 * k + 16 + 32 * j, 736 + 32 * k + 16 + 32 * j + 32)
            == s.subrange(752 + 32 * k + 32 * j, 784 + 32 * k + 32 * j));
    }
    assert forall|j: int| 0 <= j < 3 implies fr_bytes_valid(
        #[trigger] s.subrange(888 + 32 * k + 32 * j, 888 + 32 * k + 32 * j + 32),
    ) by {
        assert(s.subrange(888 + 32 * k + 32 * j, 920 + 32 * k + 32 * j)
            == pv.permutation_polynomials_at_z[j]);
        assert(s.subrange(888 + 32 * k + 32 * j, 888 + 32 * k + 32 * j + 32) == s.subrange(
            888 + 32 * k + 32 * j,
            920 + 32 * k + 32 * j,
        ));
    }
    assert(s.subrange(16 + 32 * k, 16 + 32 * k + 8) == s.subrange(16 + 32 * k, 24 + 32 * k));
    assert(s.subrange(344 + 32 * k, 344 + 32 * k + 8) == s.subrange(344 + 32 * k, 352 + 32 * k));
    assert(s.subrange(608 + 32 * k, 608 + 32 * k + 8) == s.subrange(608 + 32 * k, 616 + 32 * k));
    assert(s.subrange(744 + 32 * k, 744 + 32 * k + 8) == s.subrange(744 + 32 * k, 752 + 32 * k));
    assert(s.subrange(880 + 32 * k, 880 + 32 * k + 8) == s.subrange(880 + 32 * k, 888 + 32 * k));
    assert(s.subrange(280 + 32 * k, 280 + 32 * k + 64) == s.subrange(280 + 32 * k, 344 + 32 * k));
    assert(s.subrange(784 + 32 * k, 784 + 32 * k + 32) == s.subrange(784 + 32 * k, 816 + 32 * k));
    assert(s.subrange(816 + 32 * k, 816 + 32 * k + 32) == s.subrange(816 + 32 * k, 848 + 32 * k));
    assert(s.subrange(848 + 32 * k, 848 + 32 * k + 32) == s.subrange(848 + 32 * k, 880 + 32 * k));
    assert(s.subrange(984 + 32 * k, 984 + 32 * k + 64) == s.subrange(984 + 32 * k, 1048 + 32 * k));
    assert(s.subrange(1048 + 32 * k, 1048 + 32 * k + 64) == s.subrange(
        1048 + 32 * k,
        1112 + 32 * k,
    ));
}

/// Decodes the binary form of a proof. It accepts exactly the encodings of
/// valid proofs, so decoding an encoding recovers the encoded proof, and any
/// other input fails as a malformed artifact.
#[verifier::rlimit(100)]
pub fn decode_proof(bytes: &Vec<u8>) -> (r: Result<Proof, PipelineError>)
    ensures
        r matches Ok(p) ==> proof_valid_v(p@) && proof_layout(p@, bytes@) && bytes@
            == encoded_proof(p@),
        forall|pv: ProofV|
            proof_valid_v(pv) && encoded_proof(pv) == bytes@ ==> (r matches Ok(p) && p@ == pv),
        r is Err ==> r == Err::<Proof, PipelineError>(PipelineError::MalformedArtifact),
{
    let ghost wf = proof_bytes_wf(bytes@);
    proof {
        if wf {
            lemma_wf_header_facts(bytes@);
        }
        assert forall|pv: ProofV|
            proof_valid_v(pv) && encoded_proof(pv) == bytes@ implies proof_bytes_wf(bytes@) by {
        }
    }
    let total = bytes.len();
    if total < 1112 {
        return Err(PipelineError::MalformedArtifact);
    }
    let n64 = read_u64_be(bytes, 0);
    let ni64 = read_u64_be(bytes, 8);
    if n64 > (usize::MAX as u64) {
        return Err(PipelineError::MalformedArtifact);
    }
    let body = total - 1112;
    let q = body / 32;
    let rem = body % 32;
    if rem != 0 || (q as u64) != ni64 {
        return Err(PipelineError::MalformedArtifact);
    }
    let ni = q;
    let n_us = n64 as usize;
    let ni32 = body;
    proof {
        assert((32 * (ni as int)) % 32 == 0 && (32 * (ni as int)) / 32 == ni as int)
            by (nonlinear_arith);
        assert(total == 1112 + 32 * ni);
        if wf {
            lemma_wf_body_facts(bytes@, ni as int);
        }
    }
    let iv_end = 16 + ni32;
    let input_values = match read_fr_group(bytes, 16, ni) {
        Some(v) => v,
        None => {
            return Err(PipelineError::MalformedArtifact);
        },
    };
    if !check_u64_at(bytes, iv_end, 4) {
        proof {
            if wf {
                assert(bytes@.subrange((iv_end) as int, (iv_end) as int + 8) == bytes@.subrange(
                    16 + 32 * (ni as int),
                    16 + 32 * (ni as int) + 8,
                ));
            }
        }
        return Err(PipelineError::MalformedArtifact);
    }
    let wire_commitments = match read_g1_group(bytes, iv_end + 8, 4) {
        Some(v) => v,
        None => {
            proof {
                if wf {
                    let j = choose|j: int|
                        0 <= j < 4 && !g1_enc_valid(
                            #[trigger] bytes@.subrange(
                                (iv_end + 8) + 64 * j,
                                (iv_end + 8) + 64 * j + 64,
                            ),
                        );
                    assert(bytes@.subrange((iv_end + 8) + 64 * j, (iv_end + 8) + 64 * j + 64) == bytes@.subrange(
                        24 + 32 * (ni as int) + 64 * j,
                        24 + 32 * (ni as int) + 64 * j + 64,
                    ));
                }
            }
            return Err(PipelineError::MalformedArtifact);
        },
    };
    let grand_product_commitment = match read_g1_at(bytes, iv_end + 264) {
        Some(p) => p,
        None => {
            proof {
                if wf {
                    assert(bytes@.subrange((iv_end + 264) as int, (iv_end + 264) as int + 64) == bytes@.subrange(
                        280 + 32 * (ni as int),
                        280 + 32 * (ni as int) + 64,
                    ));
                }
            }
            return Err(PipelineError::MalformedArtifact);
        },
    };
    if !check_u64_at(bytes, iv_end + 328, 4) {
        proof {
            if wf {
                assert(bytes@.subrange((iv_end + 328) as int, (iv_end + 328) as int + 8) == bytes@.subrange(
                    344 + 32 * (ni as int),
                    344 + 32 * (ni as int) + 8,
                ));
            }
        }
        return Err(PipelineError::MalformedArtifact);
    }
    let quotient_poly_commitments = match read_g1_group(bytes, iv_end + 336, 4) {
        Some(v) => v,
        None => {
            proof {
                if wf {
                    let j = choose|j: int|
                        0 <= j < 4 && !g1_enc_valid(
                            #[trigger] bytes@.subrange(
                                (iv_end + 336) + 64 * j,
                                (iv_end + 336) + 64 * j + 64,
                            ),
                        );
                    assert(bytes@.subrange((iv_end + 336) + 64 * j, (iv_end + 336) + 64 * j + 64) == bytes@.subrange(
                        352 + 32 * (ni as int) + 64 * j,
                        352 + 32 * (ni as int) + 64 * j + 64,
                    ));
                }
            }
            return Err(PipelineError::MalformedArtifact);
        },
    };
    if !check_u64_at(bytes, iv_end + 592, 4) {
        proof {
            if wf {
                assert(bytes@.subrange((iv_end + 592) as int, (iv_end + 592) as int + 8) == bytes@.subrange(
                    608 + 32 * (ni as int),
                    608 + 32 * (ni as int) + 8,
                ));
            }
        }
        return Err(PipelineError::MalformedArtifact);
    }
    let wire_values_at_z = match read_fr_group(bytes, iv_end + 600, 4) {
        Some(v) => v,
        None => {
            proof {
                if wf {
                    let j = choose|j: int|
                        0 <= j < 4 && !fr_bytes_valid(
                            #[trigger] bytes@.subrange(
                                (iv_end + 600) + 32 * j,
                                (iv_end + 600) + 32 * j + 32,
                            ),
                        );
                    assert(bytes@.subrange((iv_end + 600) + 32 * j, (iv_end + 600) + 32 * j + 32) == bytes@.subrange(
                        616 + 32 * (ni as int) + 32 * j,
                        616 + 32 * (ni as int) + 32 * j + 32,
                    ));
                }
            }
            return Err(PipelineError::MalformedArtifact);
        },
    };
    if !check_u64_at(bytes, iv_end + 728, 1) {
        proof {
            if wf {
                assert(bytes@.subrange((iv_end + 728) as int, (iv_end + 728) as int + 8) == bytes@.subrange(
                    744 + 32 * (ni as int),
                    744 + 32 * (ni as int) + 8,
                ));
            }
        }
        return Err(PipelineError::MalformedArtifact);
    }
    let wire_values_at_z_omega = match read_fr_group(bytes, iv_end + 736, 1) {
        Some(v) => v,
        None => {
            proof {
                if wf {
                    let j = choose|j: int|
                        0 <= j < 1 && !fr_bytes_valid(
                            #[trigger] bytes@.subrange(
                                (iv_end + 736) + 32 * j,
                                (iv_end + 736) + 32 * j + 32,
                            ),
                        );
                    assert(bytes@.subrange((iv_end + 736) + 32 * j, (iv_end + 736) + 32 * j + 32) == bytes@.subrange(
                        736 + 32 * (ni as int) + 16 - 32 * (ni as int) + 32 * (ni as int) + 32 * j,
                        736 + 32 * (ni as int) + 16 - 32 * (ni as int) + 32 * (ni as int) + 32 * j + 32,
                    ));
                }
            }
            return Err(PipelineError::MalformedArtifact);
        },
    };
    let grand_product_at_z_omega = match read_fr_at(bytes, iv_end + 768) {
        Some(f) => f,
        None => {
            proof {
                if wf {
                    assert(bytes@.subrange((iv_end + 768) as int, (iv_end + 768) as int + 32) == bytes@.subrange(
                        784 + 32 * (ni as int),
                        784 + 32 * (ni as int) + 32,
                    ));
                }
            }
            return Err(PipelineError::MalformedArtifact);
        },
    };
    let quotient_polynomial_at_z = match read_fr_at(bytes, iv_end + 800) {
        Some(f) => f,
        None => {
            proof {
                if wf {
                    assert(bytes@.subrange((iv_end + 800) as int, (iv_end + 800) as int + 32) == bytes@.subrange(
                        816 + 32 * (ni as int),
                        816 + 32 * (ni as int) + 32,
                    ));
                }
            }
            return Err(PipelineError::MalformedArtifact);
        },
    };
    let linearization_polynomial_at_z = match read_fr_at(bytes, iv_end + 832) {
        Some(f) => f,
        None => {
            proof {
                if wf {
                    assert(bytes@.subrange((iv_end + 832) as int, (iv_end + 832) as int + 32) == bytes@.subrange(
                        848 + 32 * (ni as int),
                        848 + 32 * (ni as int) + 32,
                    ));
                }
            }
            return Err(PipelineError::MalformedArtifact);
        },
    };
    if !check_u64_at(bytes, iv_end + 864, 3) {
        proof {
            if wf {
                assert(bytes@.subrange((iv_end + 864) as int, (iv_end + 864) as int + 8) == bytes@.subrange(
                    880 + 32 * (ni as int),
                    880 + 32 * (ni as int) + 8,
                ));
            }
        }
        return Err(PipelineError::MalformedArtifact);
    }
    let permutation_polynomials_at_z = match read_fr_group(bytes, iv_end + 872, 3) {
        Some(v) => v,
        None => {
            proof {
                if wf {
                    let j = choose|j: int|
                        0 <= j < 3 && !fr_bytes_valid(
                            #[trigger] bytes@.subrange(
                                (iv_end + 872) + 32 * j,
                                (iv_end + 872) + 32 * j + 32,
                            ),
                        );
                    assert(bytes@.subrange((iv_end + 872) + 32 * j, (iv_end + 872) + 32 * j + 32) == bytes@.subrange(
                        888 + 32 * (ni as int) + 32 * j,
                        888 + 32 * (ni as int) + 32 * j + 32,
                    ));
                }
            }
            return Err(PipelineError::MalformedArtifact);
        },
    };
    let opening_at_z_proof = match read_g1_at(bytes, iv_end + 968) {
        Some(p) => p,
        None => {
            proof {
                if wf {
                    assert(bytes@.subrange((iv_end + 968) as int, (iv_end + 968) as int + 64) == bytes@.subrange(
                        984 + 32 * (ni as int),
                        984 + 32 * (ni as int) + 64,
                    ));
                }
            }
            return Err(PipelineError::MalformedArtifact);
        },
    };
    let opening_at_z_omega_proof = match read_g1_at(bytes, iv_end + 1032) {
        Some(p) => p,
        None => {
            proof {
                if wf {
                    assert(bytes@.subrange((iv_end + 1032) as int, (iv_end + 1032) as int + 64) == bytes@.subrange(
                        1048 + 32 * (ni as int),
                        1048 + 32 * (ni as int) + 64,
                    ));
                }
            }
            return Err(PipelineError::MalformedArtifact);
        },
    };
    let p = Proof {
        n: n_us,
        num_inputs: ni,
        input_values,
        wire_commitments,
        grand_product_commitment,
        quotient_poly_commitments,
        wire_values_at_z,
        wire_values_at_z_omega,
        grand_product_at_z_omega,
        quotient_polynomial_at_z,
        linearization_polynomial_at_z,
        permutation_polynomials_at_z,
        opening_at_z_proof,
        opening_at_z_omega_proof,
    };
    proof {
        reveal(proof_valid_v);
        reveal(proof_layout);
        assert(proof_valid_v(p@));
        assert(proof_layout(p@, bytes@));
        lemma_proof_layout_unique(p@, bytes@);
        assert forall|pv: ProofV|
            proof_valid_v(pv) && encoded_proof(pv) == bytes@ implies p@ == pv by {
            lemma_proof_layout_of_encoded(pv);
            assert(32 * (pv.num_inputs as int) == 32 * (p@.num_inputs as int));
            assert(pv.num_inputs == p@.num_inputs);
            assert(p@.input_values =~= pv.input_values);
            assert(p@.wire_commitments =~= pv.wire_commitments);
            assert(p@.quotient_poly_commitments =~= pv.quotient_poly_commitments);
            assert(p@.wire_values_at_z =~= pv.wire_values_at_z);
            assert(p@.wire_values_at_z_omega =~= pv.wire_values_at_z_omega);
            assert(p@.permutation_polynomials_at_z =~= pv.permutation_polynomials_at_z);
            assert(p@ =~= pv);
        }
    }
    Ok(p)
}

/// Determinism law: the binary encoding is a function of the proof's content
/// alone, so encoding the same logical value twice gives identical bytes.
pub proof fn lemma_proof_encoding_deterministic(p1: ProofV, p2: ProofV)
    requires
        p1 == p2,
    ensures
        encoded_proof(p1) == encoded_proof(p2),
{
}

/// Injectivity law: two valid proofs with the same binary encoding are the
/// same proof; together with the codec contracts this is the round trip.
pub proof fn lemma_proof_encoding_injective(p1: ProofV, p2: ProofV)
    requires
        proof_valid_v(p1),
        proof_valid_v(p2),
        encoded_proof(p1) == encoded_proof(p2),
    ensures
        p1 == p2,
{
    lemma_proof_layout_of_encoded(p1);
    lemma_proof_layout_of_encoded(p2);
    reveal(proof_valid_v);
    reveal(proof_layout);
    assert(32 * (p1.num_inputs as int) == 32 * (p2.num_inputs as int));
    assert(p1.num_inputs == p2.num_inputs);
    assert(p1.input_values =~= p2.input_values);
    assert(p1.wire_commitments =~= p2.wire_commitments);
    assert(p1.quotient_poly_commitments =~= p2.quotient_poly_commitments);
    assert(p1.wire_values_at_z =~= p2.wire_values_at_z);
    assert(p1.wire_values_at_z_omega =~= p2.wire_values_at_z_omega);
    assert(p1.permutation_polynomials_at_z =~= p2.permutation_polynomials_at_z);
    assert(p1 =~= p2);
}

/// Truncation law: dropping the last byte of a valid proof encoding leaves a
/// string that encodes no valid proof at all, so decoding it reports a
/// malformed artifact instead of a silently different value.
pub proof fn lemma_proof_truncation_rejected(p: ProofV, q: ProofV)
    requires
        proof_valid_v(p),
        proof_valid_v(q),
    ensures
        encoded_proof(q) != encoded_proof(p).drop_last(),
{
    lemma_proof_layout_of_encoded(p);
    lemma_proof_layout_of_encoded(q);
    reveal(proof_layout);
    let kp = p.num_inputs as int;
    let kq = q.num_inputs as int;
    if encoded_proof(q) == encoded_proof(p).drop_last() {
        assert(1112 + 32 * kq == 1111 + 32 * kp);
        assert(32 * (kp - kq) == 1);
        assert(false) by (nonlinear_arith)
            requires
                32 * (kp - kq) == 1,
        ;
    }
}

/// Schema law: a valid proof carries exactly as many input values as its
/// declared public-input count.
pub proof fn lemma_proof_schema_invariant(p: ProofV)
    requires
        proof_valid_v(p),
    ensures
        p.num_inputs == p.input_values.len(),
{
    reveal(proof_valid_v);
}

/// The mathematical content of a verification key artifact.
#[verifier::ext_equal]
pub ghost struct VerificationKeyV {
    pub n: nat,
    pub num_inputs: nat,
    pub selector_commitments: Seq<Seq<u8>>,
    pub next_step_selector_commitments: Seq<Seq<u8>>,
    pub permutation_commitments: Seq<Seq<u8>>,
    pub non_residues: Seq<Seq<u8>>,
    pub g2_elements: Seq<Seq<u8>>,
}

/// Schema validity of a verification key: the fixed widths of the four-wire
/// scheme, canonical slots, and the two pairing generators not at infinity.
#[verifier::opaque]
pub open spec fn vk_valid_v(v: VerificationKeyV) -> bool {
    &&& v.n <= usize::MAX as nat
    &&& v.n < 0x10000000000000000
    &&& v.num_inputs <= usize::MAX as nat
    &&& v.num_inputs < 0x10000000000000000
    &&& v.selector_commitments.len() == 6
    &&& forall|i: int|
        0 <= i < v.selector_commitments.len() ==> g1_enc_valid(
            #[trigger] v.selector_commitments[i],
        )
    &&& v.next_step_selector_commitments.len() == 1
    &&& forall|i: int|
        0 <= i < v.next_step_selector_commitments.len() ==> g1_enc_valid(
            #[trigger] v.next_step_selector_commitments[i],
        )
    &&& v.permutation_commitments.len() == 4
    &&& forall|i: int|
        0 <= i < v.permutation_commitments.len() ==> g1_enc_valid(
            #[trigger] v.permutation_commitments[i],
        )
    &&& v.non_residues.len() == 3
    &&& forall|i: int|
        0 <= i < v.non_residues.len() ==> fr_bytes_valid(#[trigger] v.non_residues[i])
    &&& v.g2_elements.len() == 2
    &&& forall|i: int|
        0 <= i < v.g2_elements.len() ==> g2_enc_valid(#[trigger] v.g2_elements[i])
            && #[trigger] v.g2_elements[i] != g2_infinity_bytes()
}

/// Total length of a verification key encoding: the same for every key.
pub open spec fn vk_enc_len() -> nat {
    1104
}

/// The canonical binary form of a verification key.
#[verifier::opaque]
pub open spec fn encoded_vk(v: VerificationKeyV) -> Seq<u8> {
    nat_be(v.n, 8) + nat_be(v.num_inputs, 8) + nat_be(6, 8) + cat_all(v.selector_commitments)
        + nat_be(1, 8) + cat_all(v.next_step_selector_commitments) + nat_be(4, 8) + cat_all(
        v.permutation_commitments,
    ) + nat_be(3, 8) + cat_all(v.non_residues) + cat_all(v.g2_elements)
}

/// Where every slot of a verification key sits inside its encoding.
#[verifier::opaque]
pub open spec fn vk_layout(v: VerificationKeyV, s: Seq<u8>) -> bool {
    &&& s.len() == vk_enc_len()
    &&& be_val(s.subrange(0, 8)) == v.n
    &&& be_val(s.subrange(8, 16)) == v.num_inputs
    &&& be_val(s.subrange(16, 24)) == 6
    &&& forall|i: int|
        0 <= i < 6 ==> s.subrange(24 + 64 * i, 88 + 64 * i) == #[trigger] v.selector_commitments[i]
    &&& be_val(s.subrange(408, 416)) == 1
    &&& forall|i: int|
        0 <= i < 1 ==> s.subrange(416 + 64 * i, 480 + 64 * i)
            == #[trigger] v.next_step_selector_commitments[i]
    &&& be_val(s.subrange(480, 488)) == 4
    &&& forall|i: int|
        0 <= i < 4 ==> s.subrange(488 + 64 * i, 552 + 64 * i)
            == #[trigger] v.permutation_commitments[i]
    &&& be_val(s.subrange(744, 752)) == 3
    &&& forall|i: int|
        0 <= i < 3 ==> s.subrange(752 + 32 * i, 784 + 32 * i) == #[trigger] v.non_residues[i]
    &&& forall|i: int|
        0 <= i < 2 ==> s.subrange(848 + 128 * i, 976 + 128 * i) == #[trigger] v.g2_elements[i]
}

/// The encoding of a valid verification key satisfies its layout relation.
#[verifier::rlimit(60)]
pub proof fn lemma_vk_layout_of_encoded(v: VerificationKeyV)
    requires
        vk_valid_v(v),
    ensures
        vk_layout(v, encoded_vk(v)),
{
    reveal(vk_valid_v);
    reveal(encoded_vk);
    reveal(vk_layout);
    lemma_small_frame_val(v.n);
    lemma_small_frame_val(v.num_inputs);
    lemma_small_frame_val(6);
    lemma_small_frame_val(1);
    lemma_small_frame_val(4);
    lemma_small_frame_val(3);
    lemma_cat_all_uniform(v.selector_commitments, 64);
    lemma_cat_all_uniform(v.next_step_selector_commitments, 64);
    lemma_cat_all_uniform(v.permutation_commitments, 64);
    lemma_cat_all_uniform(v.non_residues, 32);
    lemma_cat_all_uniform(v.g2_elements, 128);
    let s1 = nat_be(v.n, 8);
    let s2 = s1 + nat_be(v.num_inputs, 8);
    let s3 = s2 + nat_be(6, 8);
    let s4 = s3 + cat_all(v.selector_commitments);
    let s5 = s4 + nat_be(1, 8);
    let s6 = s5 + cat_all(v.next_step_selector_commitments);
    let s7 = s6 + nat_be(4, 8);
    let s8 = s7 + cat_all(v.permutation_commitments);
    let s9 = s8 + nat_be(3, 8);
    let s10 = s9 + cat_all(v.non_residues);
    let s11 = s10 + cat_all(v.g2_elements);
    let s = encoded_vk(v);
    assert(s == s11);
    assert(s11.len() == 1104);
    assert forall|a: int, b: int|
        0 <= a <= b <= s10.len() implies s.subrange(a, b) =~= s10.subrange(a, b) by {
        lemma_concat_subrange_left(s10, cat_all(v.g2_elements), a, b);
    }
    assert forall|a: int, b: int|
        0 <= a <= b <= s9.len() implies s.subrange(a, b) =~= s9.subrange(a, b) by {
        assert(s.subrange(a, b) =~= s10.subrange(a, b));
        lemma_concat_subrange_left(s9, cat_all(v.non_residues), a, b);
    }
    assert forall|a: int, b: int|
        0 <= a <= b <= s8.len() implies s.subrange(a, b) =~= s8.subrange(a, b) by {
        assert(s.subrange(a, b) =~= s9.subrange(a, b));
        lemma_concat_subrange_left(s8, nat_be(3, 8), a, b);
    }
    assert forall|a: int, b: int|
        0 <= a <= b <= s7.len() implies s.subrange(a, b) =~= s7.subrange(a, b) by {
        assert(s.subrange(a, b) =~= s8.subrange(a, b));
        lemma_concat_subrange_left(s7, cat_all(v.permutation_commitments), a, b);
    }
    assert forall|a: int, b: int|
        0 <= a <= b <= s6.len() implies s.subrange(a, b) =~= s6.subrange(a, b) by {
        assert(s.subrange(a, b) =~= s7.subrange(a, b));
        lemma_concat_subrange_left(s6, nat_be(4, 8), a, b);
    }
    assert forall|a: int, b: int|
        0 <= a <= b <= s5.len() implies s.subrange(a, b) =~= s5.subrange(a, b) by {
        assert(s.subrange(a, b) =~= s6.subrange(a, b));
        lemma_concat_subrange_left(s5, cat_all(v.next_step_selector_commitments), a, b);
    }
    assert forall|a: int, b: int|
        0 <= a <= b <= s4.len() implies s.subrange(a, b) =~= s4.subrange(a, b) by {
        assert(s.subrange(a, b) =~= s5.subrange(a, b));
        lemma_concat_subrange_left(s4, nat_be(1, 8), a, b);
    }
    assert forall|a: int, b: int|
        0 <= a <= b <= s3.len() implies s.subrange(a, b) =~= s3.subrange(a, b) by {
        assert(s.subrange(a, b) =~= s4.subrange(a, b));
        lemma_concat_subrange_left(s3, cat_all(v.selector_commitments), a, b);
    }
    assert forall|a: int, b: int|
        0 <= a <= b <= s2.len() implies s.subrange(a, b) =~= s2.subrange(a, b) by {
        assert(s.subrange(a, b) =~= s3.subrange(a, b));
        lemma_concat_subrange_left(s2, nat_be(6, 8), a, b);
    }
    assert(s.subrange(0, 8) =~= s2.subrange(0, 8));
    assert(s2.subrange(0, 8) =~= s1);
    assert(s.subrange(8, 16) =~= s2.subrange(8, 16));
    assert(s2.subrange(8, 16) =~= nat_be(v.num_inputs, 8));
    assert(s.subrange(16, 24) =~= s3.subrange(16, 24));
    assert(s3.subrange(16, 24) =~= nat_be(6, 8));
    assert forall|i: int| 0 <= i < 6 implies s.subrange(24 + 64 * i, 88 + 64 * i)
        == #[trigger] v.selector_commitments[i] by {
        assert(s.subrange(24 + 64 * i, 88 + 64 * i) =~= s4.subrange(24 + 64 * i, 88 + 64 * i));
        assert(s4.subrange(24 + 64 * i, 88 + 64 * i) =~= cat_all(v.selector_commitments).subrange(
            64 * i,
            64 * (i + 1),
        ));
        assert(i * 64 == 64 * i && (i + 1) * 64 == 64 * (i + 1)) by (nonlinear_arith);
        assert(cat_all(v.selector_commitments).subrange(i * 64, (i + 1) * 64)
            == v.selector_commitments[i]);
    }
    assert(s.subrange(408, 416) =~= s5.subrange(408, 416));
    assert(s5.subrange(408, 416) =~= nat_be(1, 8));
    assert forall|i: int| 0 <= i < 1 implies s.subrange(416 + 64 * i, 480 + 64 * i)
        == #[trigger] v.next_step_selector_commitments[i] by {
        assert(s.subrange(416 + 64 * i, 480 + 64 * i) =~= s6.subrange(416 + 64 * i, 480 + 64 * i));
        assert(s6.subrange(416 + 64 * i, 480 + 64 * i) =~= cat_all(
            v.next_step_selector_commitments,
        ).subrange(64 * i, 64 * (i + 1)));
        assert(i * 64 == 64 * i && (i + 1) * 64 == 64 * (i + 1)) by (nonlinear_arith);
        assert(cat_all(v.next_step_selector_commitments).subrange(i * 64, (i + 1) * 64)
            == v.next_step_selector_commitments[i]);
    }
    assert(s.subrange(480, 488) =~= s7.subrange(480, 488));
    assert(s7.subrange(480, 488) =~= nat_be(4, 8));
    assert forall|i: int| 0 <= i < 4 implies s.subrange(488 + 64 * i, 552 + 64 * i)
        == #[trigger] v.permutation_commitments[i] by {
        assert(s.subrange(488 + 64 * i, 552 + 64 * i) =~= s8.subrange(488 + 64 * i, 552 + 64 * i));
        assert(s8.subrange(488 + 64 * i, 552 + 64 * i) =~= cat_all(
            v.permutation_commitments,
        ).subrange(64 * i, 64 * (i + 1)));
        assert(i * 64 == 64 * i && (i + 1) * 64 == 64 * (i + 1)) by (nonlinear_arith);
        assert(cat_all(v.permutation_commitments).subrange(i * 64, (i + 1) * 64)
            == v.permutation_commitments[i]);
    }
    assert(s.subrange(744, 752) =~= s9.subrange(744, 752));
    assert(s9.subrange(744, 752) =~= nat_be(3, 8));
    assert forall|i: int| 0 <= i < 3 implies s.subrange(752 + 32 * i, 784 + 32 * i)
        == #[trigger] v.non_residues[i] by {
        assert(s.subrange(752 + 32 * i, 784 + 32 * i) =~= s10.subrange(
            752 + 32 * i,
            784 + 32 * i,
        ));
        assert(s10.subrange(752 + 32 * i, 784 + 32 * i) =~= cat_all(v.non_residues).subrange(
            32 * i,
            32 * (i + 1),
        ));
        assert(i * 32 == 32 * i && (i + 1) * 32 == 32 * (i + 1)) by (nonlinear_arith);
        assert(cat_all(v.non_residues).subrange(i * 32, (i + 1) * 32) == v.non_residues[i]);
    }
    assert forall|i: int| 0 <= i < 2 implies s.subrange(848 + 128 * i, 976 + 128 * i)
        == #[trigger] v.g2_elements[i] by {
        assert(s10.len() == 848);
        assert(s == s10 + cat_all(v.g2_elements));
        assert(s.subrange(848 + 128 * i, 976 + 128 * i) =~= cat_all(v.g2_elements).subrange(
            128 * i,
            128 * i + 128,
        ));
        assert(i * 128 == 128 * i && (i + 1) * 128 == 128 * i + 128) by (nonlinear_arith);
        assert(cat_all(v.g2_elements).subrange(i * 128, (i + 1) * 128) == v.g2_elements[i]);
    }
}

/// Some valid verification key encodes to exactly these bytes.
pub open spec fn vk_bytes_wf(s: Seq<u8>) -> bool {
    exists|vv: VerificationKeyV| vk_valid_v(vv) && encoded_vk(vv) == s
}

/// Facts every verification key encoding satisfies: the fixed total length,
/// in-range header frames, the fixed count frames, and canonical slots.
pub proof fn lemma_vk_wf_facts(s: Seq<u8>)
    requires
        vk_bytes_wf(s),
    ensures
        s.len() == 1104,
        be_val(s.subrange(0, 8)) <= usize::MAX as nat,
        be_val(s.subrange(8, 16)) <= usize::MAX as nat,
        be_val(s.subrange(16int, 16int + 8)) == 6,
        be_val(s.subrange(408int, 408int + 8)) == 1,
        be_val(s.subrange(480int, 480int + 8)) == 4,
        be_val(s.subrange(744int, 744int + 8)) == 3,
        forall|j: int|
            0 <= j < 6 ==> g1_enc_valid(#[trigger] s.subrange(24 + 64 * j, 24 + 64 * j + 64)),
        forall|j: int|
            0 <= j < 1 ==> g1_enc_valid(#[trigger] s.subrange(416 + 64 * j, 416 + 64 * j + 64)),
        forall|j: int|
            0 <= j < 4 ==> g1_enc_valid(#[trigger] s.subrange(488 + 64 * j, 488 + 64 * j + 64)),
        forall|j: int|
            0 <= j < 3 ==> fr_bytes_valid(#[trigger] s.subrange(752 + 32 * j, 752 + 32 * j + 32)),
        forall|j: int|
            0 <= j < 2 ==> g2_enc_valid(#[trigger] s.subrange(848 + 128 * j, 848 + 128 * j + 128))
                && s.subrange(848 + 128 * j, 848 + 128 * j + 128) != g2_infinity_bytes(),
{
    let vv = choose|vv: VerificationKeyV| vk_valid_v(vv) && encoded_vk(vv) == s;
    lemma_vk_layout_of_encoded(vv);
    reveal(vk_layout);
    reveal(vk_valid_v);
    assert forall|j: int| 0 <= j < 6 implies g1_enc_valid(
        #[trigger] s.subrange(24 + 64 * j, 24 + 64 * j + 64),
    ) by {
        assert(s.subrange(24 + 64 * j, 88 + 64 * j) == vv.selector_commitments[j]);
        assert(s.subrange(24 + 64 * j, 24 + 64 * j + 64) == s.subrange(24 + 64 * j, 88 + 64 * j));
    }
    assert forall|j: int| 0 <= j < 1 implies g1_enc_valid(
        #[trigger] s.subrange(416 + 64 * j, 416 + 64 * j + 64),
    ) by {
        assert(s.subrange(416 + 64 * j, 480 + 64 * j) == vv.next_step_selector_commitments[j]);
        assert(s.subrange(416 + 64 * j, 416 + 64 * j + 64) == s.subrange(
            416 + 64 * j,
            480 + 64 * j,
        ));
    }
    assert forall|j: int| 0 <= j < 4 implies g1_enc_valid(
        #[trigger] s.subrange(488 + 64 * j, 488 + 64 * j + 64),
    ) by {
        assert(s.subrange(488 + 64 * j, 552 + 64 * j) == vv.permutation_commitments[j]);
        assert(s.subrange(488 + 64 * j, 488 + 64 * j + 64) == s.subrange(
            488 + 64 * j,
            552 + 64 * j,
        ));
    }
    assert forall|j: int| 0 <= j < 3 implies fr_bytes_valid(
        #[trigger] s.subrange(752 + 32 * j, 752 + 32 * j + 32),
    ) by {
        assert(s.subrange(752 + 32 * j, 784 + 32 * j) == vv.non_residues[j]);
        assert(s.subrange(752 + 32 * j, 752 + 32 * j + 32) == s.subrange(
            752 + 32 * j,
            784 + 32 * j,
        ));
    }
    assert forall|j: int| 0 <= j < 2 implies g2_enc_valid(
        #[trigger] s.subrange(848 + 128 * j, 848 + 128 * j + 128),
    ) && s.subrange(848 + 128 * j, 848 + 128 * j + 128) != g2_infinity_bytes() by {
        assert(s.subrange(848 + 128 * j, 976 + 128 * j) == vv.g2_elements[j]);
        assert(s.subrange(848 + 128 * j, 848 + 128 * j + 128) == s.subrange(
            848 + 128 * j,
            976 + 128 * j,
        ));
    }
    assert(s.subrange(16int, 16int + 8) == s.subrange(16, 24));
    assert(s.subrange(408int, 408int + 8) == s.subrange(408, 416));
    assert(s.subrange(480int, 480int + 8) == s.subrange(480, 488));
    assert(s.subrange(744int, 744int + 8) == s.subrange(744, 752));
}

/// A verification key artifact, every slot in canonical form.
#[derive(Clone, Debug, PartialEq, Eq)]
pub struct VerificationKey {
    pub n: usize,
    pub num_inputs: usize,
    pub selector_commitments: Vec<G1El>,
    pub next_step_selector_commitments: Vec<G1El>,
    pub permutation_commitments: Vec<G1El>,
    pub non_residues: Vec<Fr>,
    pub g2_elements: Vec<G2El>,
}

impl View for VerificationKey {
    type V = VerificationKeyV;

    open spec fn view(&self) -> VerificationKeyV {
        VerificationKeyV {
            n: self.n as nat,
            num_inputs: self.num_inputs as nat,
            selector_commitments: views_of(self.selector_commitments@),
            next_step_selector_commitments: views_of(self.next_step_selector_commitments@),
            permutation_commitments: views_of(self.permutation_commitments@),
            non_residues: views_of(self.non_residues@),
            g2_elements: views_of(self.g2_elements@),
        }
    }
}

/// Validity of a verification key artifact.
pub open spec fn vk_valid(v: VerificationKey) -> bool {
    vk_valid_v(v@)
}

/// The authoritative binary form of a verification key.
pub fn encode_vk(v: &VerificationKey) -> (r: Vec<u8>)
    ensures
        r@ == encoded_vk(v@),
{
    let mut out: Vec<u8> = Vec::new();
    push_u64_be(&mut out, v.n as u64);
    push_u64_be(&mut out, v.num_inputs as u64);
    push_u64_be(&mut out, 6);
    push_g1_vec(&mut out, &v.selector_commitments);
    push_u64_be(&mut out, 1);
    push_g1_vec(&mut out, &v.next_step_selector_commitments);
    push_u64_be(&mut out, 4);
    push_g1_vec(&mut out, &v.permutation_commitments);
    push_u64_be(&mut out, 3);
    push_fr_vec(&mut out, &v.non_residues);
    push_g2_vec(&mut out, &v.g2_elements);
    proof {
        reveal(encoded_vk);
        assert(out@ =~= encoded_vk(v@));
    }
    out
}

/// Decodes the binary form of a verification key; it accepts exactly the
/// encodings of valid keys.
#[verifier::rlimit(100)]
pub fn decode_vk(bytes: &Vec<u8>) -> (r: Result<VerificationKey, PipelineError>)
    ensures
        r matches Ok(v) ==> vk_valid_v(v@) && vk_layout(v@, bytes@) && bytes@ == encoded_vk(v@),
        forall|vv: VerificationKeyV|
            vk_valid_v(vv) && encoded_vk(vv) == bytes@ ==> (r matches Ok(v) && v@ == vv),
        r is Err ==> r == Err::<VerificationKey, PipelineError>(PipelineError::MalformedArtifact),
{
    let ghost wf = vk_bytes_wf(bytes@);
    proof {
        if wf {
            lemma_vk_wf_facts(bytes@);
        }
        assert forall|vv: VerificationKeyV|
            vk_valid_v(vv) && encoded_vk(vv) == bytes@ implies vk_bytes_wf(bytes@) by {
        }
    }
    let total = bytes.len();
    if total != 1104 {
        return Err(PipelineError::MalformedArtifact);
    }
    let n64 = read_u64_be(bytes, 0);
    let ni64 = read_u64_be(bytes, 8);
    if n64 > (usize::MAX as u64) || ni64 > (usize::MAX as u64) {
        return Err(PipelineError::MalformedArtifact);
    }
    if !check_u64_at(bytes, 16, 6) {
        return Err(PipelineError::MalformedArtifact);
    }
    let selector_commitments = match read_g1_group(bytes, 24, 6) {
        Some(v) => v,
        None => {
            return Err(PipelineError::MalformedArtifact);
        },
    };
    if !check_u64_at(bytes, 408, 1) {
        return Err(PipelineError::MalformedArtifact);
    }
    let next_step_selector_commitments = match read_g1_group(bytes, 416, 1) {
        Some(v) => v,
        None => {
            return Err(PipelineError::MalformedArtifact);
        },
    };
    if !check_u64_at(bytes, 480, 4) {
        return Err(PipelineError::MalformedArtifact);
    }
    let permutation_commitments = match read_g1_group(bytes, 488, 4) {
        Some(v) => v,
        None => {
            return Err(PipelineError::MalformedArtifact);
        },
    };
    if !check_u64_at(bytes, 744, 3) {
        return Err(PipelineError::MalformedArtifact);
    }
    let non_residues = match read_fr_group(bytes, 752, 3) {
        Some(v) => v,
        None => {
            return Err(PipelineError::MalformedArtifact);
        },
    };
    let inf = g2_infinity_vec();
    let mut g2_elements: Vec<G2El> = Vec::new();
    let g2a = match read_g2_at(bytes, 848) {
        Some(p) => p,
        None => {
            proof {
                if wf {
                    assert(bytes@.subrange(848int, 848int + 128) == bytes@.subrange(
                        848int + 128 * 0,
                        848int + 128 * 0 + 128,
                    ));
                }
            }
            return Err(PipelineError::MalformedArtifact);
        },
    };
    if bytes_eq(&g2a.bytes, &inf) {
        proof {
            if wf {
                assert(bytes@.subrange(848int, 848int + 128) == bytes@.subrange(
                    848int + 128 * 0,
                    848int + 128 * 0 + 128,
                ));
            }
        }
        return Err(PipelineError::MalformedArtifact);
    }
    let g2b = match read_g2_at(bytes, 976) {
        Some(p) => p,
        None => {
            proof {
                if wf {
                    assert(bytes@.subrange(976int, 976int + 128) == bytes@.subrange(
                        848int + 128 * 1,
                        848int + 128 * 1 + 128,
                    ));
                }
            }
            return Err(PipelineError::MalformedArtifact);
        },
    };
    if bytes_eq(&g2b.bytes, &inf) {
        proof {
            if wf {
                assert(bytes@.subrange(976int, 976int + 128) == bytes@.subrange(
                    848int + 128 * 1,
                    848int + 128 * 1 + 128,
                ));
            }
        }
        return Err(PipelineError::MalformedArtifact);
    }
    g2_elements.push(g2a);
    g2_elements.push(g2b);
    let v = VerificationKey {
        n: n64 as usize,
        num_inputs: ni64 as usize,
        selector_commitments,
        next_step_selector_commitments,
        permutation_commitments,
        non_residues,
        g2_elements,
    };
    proof {
        reveal(vk_valid_v);
        reveal(vk_layout);
        assert(views_of(v.g2_elements@)[0] == bytes@.subrange(848int, 848int + 128));
        assert(views_of(v.g2_elements@)[1] == bytes@.subrange(976int, 976int + 128));
        assert(bytes@.subrange(848int + 128 * 0, 976int + 128 * 0) == bytes@.subrange(848int, 848int + 128));
        assert(bytes@.subrange(848int + 128 * 1, 976int + 128 * 1) == bytes@.subrange(976int, 976int + 128));
        assert(vk_valid_v(v@));
        assert(vk_layout(v@, bytes@));
        lemma_vk_layout_unique(v@, bytes@);
        assert forall|vv: VerificationKeyV|
            vk_valid_v(vv) && encoded_vk(vv) == bytes@ implies v@ == vv by {
            lemma_vk_layout_of_encoded(vv);
            assert(v@.selector_commitments =~= vv.selector_commitments);
            assert(v@.next_step_selector_commitments =~= vv.next_step_selector_commitments);
            assert(v@.permutation_commitments =~= vv.permutation_commitments);
            assert(v@.non_residues =~= vv.non_residues);
            assert(v@.g2_elements =~= vv.g2_elements);
            assert(v@ =~= vv);
        }
    }
    Ok(v)
}

/// Determinism law for the verification key codec.
pub proof fn lemma_vk_encoding_deterministic(v1: VerificationKeyV, v2: VerificationKeyV)
    requires
        v1 == v2,
    ensures
        encoded_vk(v1) == encoded_vk(v2),
{
}

/// Injectivity law for the verification key codec.
pub proof fn lemma_vk_encoding_injective(v1: VerificationKeyV, v2: VerificationKeyV)
    requires
        vk_valid_v(v1),
        vk_valid_v(v2),
        encoded_vk(v1) == encoded_vk(v2),
    ensures
        v1 == v2,
{
    lemma_vk_layout_of_encoded(v1);
    lemma_vk_layout_of_encoded(v2);
    reveal(vk_valid_v);
    reveal(vk_layout);
    assert(v1.selector_commitments =~= v2.selector_commitments);
    assert(v1.next_step_selector_commitments =~= v2.next_step_selector_commitments);
    assert(v1.permutation_commitments =~= v2.permutation_commitments);
    assert(v1.non_residues =~= v2.non_residues);
    assert(v1.g2_elements =~= v2.g2_elements);
    assert(v1 =~= v2);
}

/// Truncation law for the verification key codec: one byte short is never a
/// valid encoding.
pub proof fn lemma_vk_truncation_rejected(v: VerificationKeyV, w: VerificationKeyV)
    requires
        vk_valid_v(v),
        vk_valid_v(w),
    ensures
        encoded_vk(w) != encoded_vk(v).drop_last(),
{
    lemma_vk_layout_of_encoded(v);
    lemma_vk_layout_of_encoded(w);
    reveal(vk_layout);
}

/// The mathematical content of a monomial-form reference string: its G1 power
/// bases and the two G2 monomial bases.
#[verifier::ext_equal]
pub ghost struct SrsV {
    pub g1_bases: Seq<Seq<u8>>,
    pub g2_bases: Seq<Seq<u8>>,
}

/// Schema validity of a reference string.
#[verifier::opaque]
pub open spec fn srs_valid_v(c: SrsV) -> bool {
    &&& c.g1_bases.len() <= usize::MAX as nat
    &&& c.g1_bases.len() < 0x10000000000000000
    &&& forall|i: int| 0 <= i < c.g1_bases.len() ==> g1_enc_valid(#[trigger] c.g1_bases[i])
    &&& c.g2_bases.len() == 2
    &&& forall|i: int| 0 <= i < c.g2_bases.len() ==> g2_enc_valid(#[trigger] c.g2_bases[i])
}

/// The canonical binary form of a reference string.
#[verifier::opaque]
pub open spec fn encoded_srs(c: SrsV) -> Seq<u8> {
    nat_be(c.g1_bases.len(), 8) + cat_all(c.g1_bases) + nat_be(2, 8) + cat_all(c.g2_bases)
}

/// Where every slot of a reference string sits inside its encoding.
#[verifier::opaque]
pub open spec fn srs_layout(c: SrsV, s: Seq<u8>) -> bool {
    let n = c.g1_bases.len() as int;
    &&& s.len() == 272 + 64 * n
    &&& be_val(s.subrange(0, 8)) == c.g1_bases.len()
    &&& forall|i: int|
        0 <= i < n ==> s.subrange(8 + 64 * i, 72 + 64 * i) == #[trigger] c.g1_bases[i]
    &&& be_val(s.subrange(8 + 64 * n, 16 + 64 * n)) == 2
    &&& forall|i: int|
        0 <= i < 2 ==> s.subrange(16 + 64 * n + 128 * i, 144 + 64 * n + 128 * i)
            == #[trigger] c.g2_bases[i]
}

/// The encoding of a valid reference string satisfies its layout relation.
#[verifier::rlimit(60)]
pub proof fn lemma_srs_layout_of_encoded(c: SrsV)
    requires
        srs_valid_v(c),
    ensures
        srs_layout(c, encoded_srs(c)),
{
    reveal(srs_valid_v);
    reveal(encoded_srs);
    reveal(srs_layout);
    let n = c.g1_bases.len() as int;
    lemma_small_frame_val(c.g1_bases.len());
    lemma_small_frame_val(2);
    lemma_cat_all_uniform(c.g1_bases, 64);
    lemma_cat_all_uniform(c.g2_bases, 128);
    let s1 = nat_be(c.g1_bases.len(), 8);
    let s2 = s1 + cat_all(c.g1_bases);
    let s3 = s2 + nat_be(2, 8);
    let s4 = s3 + cat_all(c.g2_bases);
    let s = encoded_srs(c);
    assert(s == s4);
    assert(n * 64 == 64 * n) by (nonlinear_arith);
    assert(s2.len() == 8 + 64 * n);
    assert(s4.len() == 272 + 64 * n);
    assert forall|a: int, b: int|
        0 <= a <= b <= s3.len() implies s.subrange(a, b) =~= s3.subrange(a, b) by {
        lemma_concat_subrange_left(s3, cat_all(c.g2_bases), a, b);
    }
    assert forall|a: int, b: int|
        0 <= a <= b <= s2.len() implies s.subrange(a, b) =~= s2.subrange(a, b) by {
        assert(s.subrange(a, b) =~= s3.subrange(a, b));
        lemma_concat_subrange_left(s2, nat_be(2, 8), a, b);
    }
    assert(s.subrange(0, 8) =~= s2.subrange(0, 8));
    assert(s2.subrange(0, 8) =~= s1);
    assert forall|i: int| 0 <= i < n implies s.subrange(8 + 64 * i, 72 + 64 * i)
        == #[trigger] c.g1_bases[i] by {
        assert((i + 1) * 64 <= n * 64) by (nonlinear_arith)
            requires
                i + 1 <= n,
        ;
        assert(s.subrange(8 + 64 * i, 72 + 64 * i) =~= s2.subrange(8 + 64 * i, 72 + 64 * i));
        assert(s2.subrange(8 + 64 * i, 72 + 64 * i) =~= cat_all(c.g1_bases).subrange(
            64 * i,
            64 * (i + 1),
        ));
        assert(i * 64 == 64 * i && (i + 1) * 64 == 64 * (i + 1)) by (nonlinear_arith);
        assert(cat_all(c.g1_bases).subrange(i * 64, (i + 1) * 64) == c.g1_bases[i]);
    }
    assert(s.subrange(8 + 64 * n, 16 + 64 * n) =~= s3.subrange(8 + 64 * n, 16 + 64 * n));
    assert(s3.subrange(8 + 64 * n, 16 + 64 * n) =~= nat_be(2, 8));
    assert forall|i: int| 0 <= i < 2 implies s.subrange(16 + 64 * n + 128 * i, 144 + 64 * n + 128
        * i) == #[trigger] c.g2_bases[i] by {
        assert(s3.len() == 16 + 64 * n);
        assert(s == s3 + cat_all(c.g2_bases));
        assert(s.subrange(16 + 64 * n + 128 * i, 144 + 64 * n + 128 * i) =~= cat_all(
            c.g2_bases,
        ).subrange(128 * i, 128 * i + 128));
        assert(i * 128 == 128 * i && (i + 1) * 128 == 128 * i + 128) by (nonlinear_arith);
        assert(cat_all(c.g2_bases).subrange(i * 128, (i + 1) * 128) == c.g2_bases[i]);
    }
}

/// Some valid reference string encodes to exactly these bytes.
pub open spec fn srs_bytes_wf(s: Seq<u8>) -> bool {
    exists|c: SrsV| srs_valid_v(c) && encoded_srs(c) == s
}

/// Header facts every reference string encoding satisfies.
pub proof fn lemma_srs_wf_header_facts(s: Seq<u8>)
    requires
        srs_bytes_wf(s),
    ensures
        s.len() >= 272,
        (s.len() - 272) % 64 == 0,
        be_val(s.subrange(0, 8)) == (s.len() - 272) / 64,
{
    let c = choose|c: SrsV| srs_valid_v(c) && encoded_srs(c) == s;
    lemma_srs_layout_of_encoded(c);
    reveal(srs_layout);
    let n = c.g1_bases.len() as int;
    assert(s.len() - 272 == 64 * n);
    assert((64 * n) % 64 == 0 && (64 * n) / 64 == n) by (nonlinear_arith);
}

/// Body facts every reference string encoding with `n` G1 bases satisfies.
pub proof fn lemma_srs_wf_body_facts(s: Seq<u8>, n: int)
    requires
        srs_bytes_wf(s),
        s.len() == 272 + 64 * n,
        n >= 0,
    ensures
        forall|j: int|
            0 <= j < n ==> g1_enc_valid(#[trigger] s.subrange(8 + 64 * j, 8 + 64 * j + 64)),
        be_val(s.subrange(8 + 64 * n, 8 + 64 * n + 8)) == 2,
        forall|j: int|
            0 <= j < 2 ==> g2_enc_valid(
                #[trigger] s.subrange(16 + 64 * n + 128 * j, 16 + 64 * n + 128 * j + 128),
            ),
{
    let c = choose|c: SrsV| srs_valid_v(c) && encoded_srs(c) == s;
    lemma_srs_layout_of_encoded(c);
    reveal(srs_layout);
    reveal(srs_valid_v);
    let nn = c.g1_bases.len() as int;
    assert(64 * nn == 64 * n);
    assert(nn == n);
    assert forall|j: int| 0 <= j < n implies g1_enc_valid(
        #[trigger] s.subrange(8 + 64 * j, 8 + 64 * j + 64),
    ) by {
        assert(s.subrange(8 + 64 * j, 72 + 64 * j) == c.g1_bases[j]);
        assert(s.subrange(8 + 64 * j, 8 + 64 * j + 64) == s.subrange(8 + 64 * j, 72 + 64 * j));
    }
    assert forall|j: int| 0 <= j < 2 implies g2_enc_valid(
        #[trigger] s.subrange(16 + 64 * n + 128 * j, 16 + 64 * n + 128 * j + 128),
    ) by {
        assert(s.subrange(16 + 64 * n + 128 * j, 144 + 64 * n + 128 * j) == c.g2_bases[j]);
        assert(s.subrange(16 + 64 * n + 128 * j, 16 + 64 * n + 128 * j + 128) == s.subrange(
            16 + 64 * n + 128 * j,
            144 + 64 * n + 128 * j,
        ));
    }
    assert(s.subrange(8 + 64 * n, 8 + 64 * n + 8) == s.subrange(8 + 64 * n, 16 + 64 * n));
}

/// A monomial-form structured reference string, every point in canonical form.
#[derive(Clone, Debug, PartialEq, Eq)]
pub struct MonomialSrs {
    pub g1_bases: Vec<G1El>,
    pub g2_bases: Vec<G2El>,
}

impl View for MonomialSrs {
    type V = SrsV;

    open spec fn view(&self) -> SrsV {
        SrsV { g1_bases: views_of(self.g1_bases@), g2_bases: views_of(self.g2_bases@) }
    }
}

/// Validity of a reference string artifact.
pub open spec fn srs_valid(c: MonomialSrs) -> bool {
    srs_valid_v(c@)
}

/// The authoritative binary form of a reference string.
pub fn encode_srs(c: &MonomialSrs) -> (r: Vec<u8>)
    ensures
        r@ == encoded_srs(c@),
{
    let mut out: Vec<u8> = Vec::new();
    push_u64_be(&mut out, c.g1_bases.len() as u64);
    push_g1_vec(&mut out, &c.g1_bases);
    push_u64_be(&mut out, 2);
    push_g2_vec(&mut out, &c.g2_bases);
    proof {
        reveal(encoded_srs);
        assert((c.g1_bases.len() as u64) as nat == c@.g1_bases.len());
        assert(out@ =~= encoded_srs(c@));
    }
    out
}

/// Decodes the binary form of a reference string; it accepts exactly the
/// encodings of valid reference strings.
#[verifier::rlimit(100)]
pub fn decode_srs(bytes: &Vec<u8>) -> (r: Result<MonomialSrs, PipelineError>)
    ensures
        r matches Ok(c) ==> srs_valid_v(c@) && srs_layout(c@, bytes@) && bytes@
            == encoded_srs(c@),
        forall|cv: SrsV|
            srs_valid_v(cv) && encoded_srs(cv) == bytes@ ==> (r matches Ok(c) && c@ == cv),
        r is Err ==> r == Err::<MonomialSrs, PipelineError>(PipelineError::MalformedArtifact),
{
    let ghost wf = srs_bytes_wf(bytes@);
    proof {
        if wf {
            lemma_srs_wf_header_facts(bytes@);
        }
        assert forall|cv: SrsV|
            srs_valid_v(cv) && encoded_srs(cv) == bytes@ implies srs_bytes_wf(bytes@) by {
        }
    }
    let total = bytes.len();
    if total < 272 {
        return Err(PipelineError::MalformedArtifact);
    }
    let c64 = read_u64_be(bytes, 0);
    let body = total - 272;
    let n = body / 64;
    let rem = body % 64;
    if rem != 0 || (n as u64) != c64 {
        return Err(PipelineError::MalformedArtifact);
    }
    proof {
        assert(total == 272 + 64 * n);
        if wf {
            lemma_srs_wf_body_facts(bytes@, n as int);
        }
    }
    let g1_bases = match read_g1_group(bytes, 8, n) {
        Some(v) => v,
        None => {
            return Err(PipelineError::MalformedArtifact);
        },
    };
    let cnt_off = 8 + body;
    if !check_u64_at(bytes, cnt_off, 2) {
        proof {
            if wf {
                assert(bytes@.subrange(cnt_off as int, cnt_off as int + 8) == bytes@.subrange(
                    8 + 64 * (n as int),
                    8 + 64 * (n as int) + 8,
                ));
            }
        }
        return Err(PipelineError::MalformedArtifact);
    }
    let mut g2_bases: Vec<G2El> = Vec::new();
    let g2a = match read_g2_at(bytes, cnt_off + 8) {
        Some(p) => p,
        None => {
            proof {
                if wf {
                    assert(bytes@.subrange((cnt_off + 8) as int, (cnt_off + 8) as int + 128)
                        == bytes@.subrange(
                        16 + 64 * (n as int) + 128 * 0,
                        16 + 64 * (n as int) + 128 * 0 + 128,
                    ));
                }
            }
            return Err(PipelineError::MalformedArtifact);
        },
    };
    let g2b = match read_g2_at(bytes, cnt_off + 136) {
        Some(p) => p,
        None => {
            proof {
                if wf {
                    assert(bytes@.subrange((cnt_off + 136) as int, (cnt_off + 136) as int + 128)
                        == bytes@.subrange(
                        16 + 64 * (n as int) + 128 * 1,
                        16 + 64 * (n as int) + 128 * 1 + 128,
                    ));
                }
            }
            return Err(PipelineError::MalformedArtifact);
        },
    };
    g2_bases.push(g2a);
    g2_bases.push(g2b);
    let c = MonomialSrs { g1_bases, g2_bases };
    proof {
        reveal(srs_valid_v);
        reveal(srs_layout);
        assert(views_of(c.g2_bases@)[0] == bytes@.subrange(
            (cnt_off + 8) as int,
            (cnt_off + 8) as int + 128,
        ));
        assert(views_of(c.g2_bases@)[1] == bytes@.subrange(
            (cnt_off + 136) as int,
            (cnt_off + 136) as int + 128,
        ));
        assert(bytes@.subrange(16 + 64 * (n as int) + 128 * 0, 144 + 64 * (n as int) + 128 * 0)
            == bytes@.subrange((cnt_off + 8) as int, (cnt_off + 8) as int + 128));
        assert(bytes@.subrange(16 + 64 * (n as int) + 128 * 1, 144 + 64 * (n as int) + 128 * 1)
            == bytes@.subrange((cnt_off + 136) as int, (cnt_off + 136) as int + 128));
        assert(srs_valid_v(c@));
        assert(srs_layout(c@, bytes@));
        lemma_srs_layout_unique(c@, bytes@);
        assert forall|cv: SrsV|
            srs_valid_v(cv) && encoded_srs(cv) == bytes@ implies c@ == cv by {
            lemma_srs_layout_of_encoded(cv);
            assert(64 * (cv.g1_bases.len() as int) == 64 * (c@.g1_bases.len() as int));
            assert(cv.g1_bases.len() == c@.g1_bases.len());
            assert(c@.g1_bases =~= cv.g1_bases);
            assert(c@.g2_bases =~= cv.g2_bases);
            assert(c@ =~= cv);
        }
    }
    Ok(c)
}

/// Determinism law for the reference string codec.
pub proof fn lemma_srs_encoding_deterministic(c1: SrsV, c2: SrsV)
    requires
        c1 == c2,
    ensures
        encoded_srs(c1) == encoded_srs(c2),
{
}

/// Injectivity law for the reference string codec.
pub proof fn lemma_srs_encoding_injective(c1: SrsV, c2: SrsV)
    requires
        srs_valid_v(c1),
        srs_valid_v(c2),
        encoded_srs(c1) == encoded_srs(c2),
    ensures
        c1 == c2,
{
    lemma_srs_layout_of_encoded(c1);
    lemma_srs_layout_of_encoded(c2);
    reveal(srs_valid_v);
    reveal(srs_layout);
    assert(64 * (c1.g1_bases.len() as int) == 64 * (c2.g1_bases.len() as int));
    assert(c1.g1_bases.len() == c2.g1_bases.len());
    assert(c1.g1_bases =~= c2.g1_bases);
    assert(c1.g2_bases =~= c2.g2_bases);
    assert(c1 =~= c2);
}

/// Truncation law for the reference string codec.
pub proof fn lemma_srs_truncation_rejected(c: SrsV, d: SrsV)
    requires
        srs_valid_v(c),
        srs_valid_v(d),
    ensures
        encoded_srs(d) != encoded_srs(c).drop_last(),
{
    lemma_srs_layout_of_encoded(c);
    lemma_srs_layout_of_encoded(d);
    reveal(srs_layout);
    let nc = c.g1_bases.len() as int;
    let nd = d.g1_bases.len() as int;
    if encoded_srs(d) == encoded_srs(c).drop_last() {
        assert(272 + 64 * nd == 271 + 64 * nc);
        assert(64 * (nc - nd) == 1);
        assert(false) by (nonlinear_arith)
            requires
                64 * (nc - nd) == 1,
        ;
    }
}

/// A recursive aggregated proof: schema-identical to a proof, with exactly one
/// public input, the aggregated input hash.
#[derive(Clone, Debug, PartialEq, Eq)]
pub struct AggregatedProof {
    pub inner: Proof,
}

impl View for AggregatedProof {
    type V = ProofV;

    open spec fn view(&self) -> ProofV {
        self.inner@
    }
}

/// Validity of an aggregated proof: a valid proof whose public-input vector
/// has exactly one element.
pub open spec fn aggregated_valid_v(p: ProofV) -> bool {
    proof_valid_v(p) && p.num_inputs == 1
}

/// The authoritative binary form of an aggregated proof.
pub fn encode_aggregated(a: &AggregatedProof) -> (r: Vec<u8>)
    ensures
        r@ == encoded_proof(a@),
{
    encode_proof(&a.inner)
}

/// Decodes the binary form of an aggregated proof; beyond the proof schema it
/// insists on the single aggregated public input.
pub fn decode_aggregated(bytes: &Vec<u8>) -> (r: Result<AggregatedProof, PipelineError>)
    ensures
        r matches Ok(a) ==> aggregated_valid_v(a@) && proof_layout(a@, bytes@) && bytes@
            == encoded_proof(a@),
        forall|pv: ProofV|
            aggregated_valid_v(pv) && encoded_proof(pv) == bytes@ ==> (r matches Ok(a) && a@
                == pv),
        r is Err ==> r == Err::<AggregatedProof, PipelineError>(PipelineError::MalformedArtifact),
{
    match decode_proof(bytes) {
        Ok(p) => {
            if p.num_inputs == 1 {
                Ok(AggregatedProof { inner: p })
            } else {
                Err(PipelineError::MalformedArtifact)
            }
        },
        Err(_) => Err(PipelineError::MalformedArtifact),
    }
}


/// The layout relation pins every byte: a byte string in proof layout for a
/// valid proof is exactly that proof's encoding. With the decoder's contract
/// this makes decoding sound with respect to the encoding function.
#[verifier::rlimit(100)]
pub proof fn lemma_proof_layout_unique(p: ProofV, s: Seq<u8>)
    requires
        proof_valid_v(p),
        proof_layout(p, s),
    ensures
        s == encoded_proof(p),
{
    lemma_proof_layout_of_encoded(p);
    let e = encoded_proof(p);
    let k = p.num_inputs as int;
    reveal(proof_layout);
    reveal(proof_valid_v);
    assert(s.len() == e.len());
    assert forall|i: int| 0 <= i < s.len() implies s[i] == e[i] by {
        if i < 8 {
            assert(s.subrange(0, 8)[i] == s[i] && e.subrange(0, 8)[i] == e[i]);
            crate::bytes::lemma_be_val_injective(s.subrange(0, 8), e.subrange(0, 8));
        } else if i < 16 {
            assert(s.subrange(8, 16)[i - 8] == s[i] && e.subrange(8, 16)[i - 8] == e[i]);
            crate::bytes::lemma_be_val_injective(s.subrange(8, 16), e.subrange(8, 16));
        } else if i < 16 + 32 * k {
            let j = (i - 16) / 32;
            let r = (i - 16) % 32;
            vstd::arithmetic::div_mod::lemma_fundamental_div_mod(i - 16, 32);
            assert(0 <= j < k) by (nonlinear_arith)
                requires
                    0 <= i - 16 < 32 * k,
                    i - 16 == 32 * j + r,
                    0 <= r < 32,
            ;
            assert(s.subrange(16 + 32 * j, 48 + 32 * j)[r] == s[i]);
            assert(e.subrange(16 + 32 * j, 48 + 32 * j)[r] == e[i]);
            assert(s.subrange(16 + 32 * j, 48 + 32 * j) == p.input_values[j]);
            assert(e.subrange(16 + 32 * j, 48 + 32 * j) == p.input_values[j]);
        } else if i < 24 + 32 * k {
            assert(s.subrange(16 + 32 * k, 24 + 32 * k)[i - 16 - 32 * k] == s[i]);
            assert(e.subrange(16 + 32 * k, 24 + 32 * k)[i - 16 - 32 * k] == e[i]);
            crate::bytes::lemma_be_val_injective(
                s.subrange(16 + 32 * k, 24 + 32 * k),
                e.subrange(16 + 32 * k, 24 + 32 * k),
            );
        } else if i < 280 + 32 * k {
            let j = (i - 24 - 32 * k) / 64;
            let r = (i - 24 - 32 * k) % 64;
            vstd::arithmetic::div_mod::lemma_fundamental_div_mod(i - 24 - 32 * k, 64);
            assert(0 <= j < 4) by (nonlinear_arith)
                requires
                    0 <= i - 24 - 32 * k < 256,
                    i - 24 - 32 * k == 64 * j + r,
                    0 <= r < 64,
            ;
            assert(s.subrange(24 + 32 * k + 64 * j, 88 + 32 * k + 64 * j)[r] == s[i]);
            assert(e.subrange(24 + 32 * k + 64 * j, 88 + 32 * k + 64 * j)[r] == e[i]);
            assert(s.subrange(24 + 32 * k + 64 * j, 88 + 32 * k + 64 * j)
                == p.wire_commitments[j]);
            assert(e.subrange(24 + 32 * k + 64 * j, 88 + 32 * k + 64 * j)
                == p.wire_commitments[j]);
        } else if i < 344 + 32 * k {
            assert(s.subrange(280 + 32 * k, 344 + 32 * k)[i - 280 - 32 * k] == s[i]);
            assert(e.subrange(280 + 32 * k, 344 + 32 * k)[i - 280 - 32 * k] == e[i]);
        } else if i < 352 + 32 * k {
            assert(s.subrange(344 + 32 * k, 352 + 32 * k)[i - 344 - 32 * k] == s[i]);
            assert(e.subrange(344 + 32 * k, 352 + 32 * k)[i - 344 - 32 * k] == e[i]);
            crate::bytes::lemma_be_val_injective(
                s.subrange(344 + 32 * k, 352 + 32 * k),
                e.subrange(344 + 32 * k, 352 + 32 * k),
            );
        } else if i < 608 + 32 * k {
            let j = (i - 352 - 32 * k) / 64;
            let r = (i - 352 - 32 * k) % 64;
            vstd::arithmetic::div_mod::lemma_fundamental_div_mod(i - 352 - 32 * k, 64);
            assert(0 <= j < 4) by (nonlinear_arith)
                requires
                    0 <= i - 352 - 32 * k < 256,
                    i - 352 - 32 * k == 64 * j + r,
                    0 <= r < 64,
            ;
            assert(s.subrange(352 + 32 * k + 64 * j, 416 + 32 * k + 64 * j)[r] == s[i]);
            assert(e.subrange(352 + 32 * k + 64 * j, 416 + 32 * k + 64 * j)[r] == e[i]);
            assert(s.subrange(352 + 32 * k + 64 * j, 416 + 32 * k + 64 * j)
                == p.quotient_poly_commitments[j]);
            assert(e.subrange(352 + 32 * k + 64 * j, 416 + 32 * k + 64 * j)
                == p.quotient_poly_commitments[j]);
        } else if i < 616 + 32 * k {
            assert(s.subrange(608 + 32 * k, 616 + 32 * k)[i - 608 - 32 * k] == s[i]);
            assert(e.subrange(608 + 32 * k, 616 + 32 * k)[i - 608 - 32 * k] == e[i]);
            crate::bytes::lemma_be_val_injective(
                s.subrange(608 + 32 * k, 616 + 32 * k),
                e.subrange(608 + 32 * k, 616 + 32 * k),
            );
        } else if i < 744 + 32 * k {
            let j = (i - 616 - 32 * k) / 32;
            let r = (i - 616 - 32 * k) % 32;
            vstd::arithmetic::div_mod::lemma_fundamental_div_mod(i - 616 - 32 * k, 32);
            assert(0 <= j < 4) by (nonlinear_arith)
                requires
                    0 <= i - 616 - 32 * k < 128,
                    i - 616 - 32 * k == 32 * j + r,
                    0 <= r < 32,
            ;
            assert(s.subrange(616 + 32 * k + 32 * j, 648 + 32 * k + 32 * j)[r] == s[i]);
            assert(e.subrange(616 + 32 * k + 32 * j, 648 + 32 * k + 32 * j)[r] == e[i]);
            assert(s.subrange(616 + 32 * k + 32 * j, 648 + 32 * k + 32 * j)
                == p.wire_values_at_z[j]);
            assert(e.subrange(616 + 32 * k + 32 * j, 648 + 32 * k + 32 * j)
                == p.wire_values_at_z[j]);
        } else if i < 752 + 32 * k {
            assert(s.subrange(744 + 32 * k, 752 + 32 * k)[i - 744 - 32 * k] == s[i]);
            assert(e.subrange(744 + 32 * k, 752 + 32 * k)[i - 744 - 32 * k] == e[i]);
            crate::bytes::lemma_be_val_injective(
                s.subrange(744 + 32 * k, 752 + 32 * k),
                e.subrange(744 + 32 * k, 752 + 32 * k),
            );
        } else if i < 784 + 32 * k {
            assert(s.subrange(752 + 32 * k + 32 * 0, 784 + 32 * k + 32 * 0)[i - 752 - 32 * k]
                == s[i]);
            assert(e.subrange(752 + 32 * k + 32 * 0, 784 + 32 * k + 32 * 0)[i - 752 - 32 * k]
                == e[i]);
            assert(s.subrange(752 + 32 * k + 32 * 0, 784 + 32 * k + 32 * 0)
                == p.wire_values_at_z_omega[0]);
            assert(e.subrange(752 + 32 * k + 32 * 0, 784 + 32 * k + 32 * 0)
                == p.wire_values_at_z_omega[0]);
        } else if i < 816 + 32 * k {
            assert(s.subrange(784 + 32 * k, 816 + 32 * k)[i - 784 - 32 * k] == s[i]);
            assert(e.subrange(784 + 32 * k, 816 + 32 * k)[i - 784 - 32 * k] == e[i]);
        } else if i < 848 + 32 * k {
            assert(s.subrange(816 + 32 * k, 848 + 32 * k)[i - 816 - 32 * k] == s[i]);
            assert(e.subrange(816 + 32 * k, 848 + 32 * k)[i - 816 - 32 * k] == e[i]);
        } else if i < 880 + 32 * k {
            assert(s.subrange(848 + 32 * k, 880 + 32 * k)[i - 848 - 32 * k] == s[i]);
            assert(e.subrange(848 + 32 * k, 880 + 32 * k)[i - 848 - 32 * k] == e[i]);
        } else if i < 888 + 32 * k {
            assert(s.subrange(880 + 32 * k, 888 + 32 * k)[i - 880 - 32 * k] == s[i]);
            assert(e.subrange(880 + 32 * k, 888 + 32 * k)[i - 880 - 32 * k] == e[i]);
            crate::bytes::lemma_be_val_injective(
                s.subrange(880 + 32 * k, 888 + 32 * k),
                e.subrange(880 + 32 * k, 888 + 32 * k),
            );
        } else if i < 984 + 32 * k {
            let j = (i - 888 - 32 * k) / 32;
            let r = (i - 888 - 32 * k) % 32;
            vstd::arithmetic::div_mod::lemma_fundamental_div_mod(i - 888 - 32 * k, 32);
            assert(0 <= j < 3) by (nonlinear_arith)
                requires
                    0 <= i - 888 - 32 * k < 96,
                    i - 888 - 32 * k == 32 * j + r,
                    0 <= r < 32,
            ;
            assert(s.subrange(888 + 32 * k + 32 * j, 920 + 32 * k + 32 * j)[r] == s[i]);
            assert(e.subrange(888 + 32 * k + 32 * j, 920 + 32 * k + 32 * j)[r] == e[i]);
            assert(s.subrange(888 + 32 * k + 32 * j, 920 + 32 * k + 32 * j)
                == p.permutation_polynomials_at_z[j]);
            assert(e.subrange(888 + 32 * k + 32 * j, 920 + 32 * k + 32 * j)
                == p.permutation_polynomials_at_z[j]);
        } else if i < 1048 + 32 * k {
            assert(s.subrange(984 + 32 * k, 1048 + 32 * k)[i - 984 - 32 * k] == s[i]);
            assert(e.subrange(984 + 32 * k, 1048 + 32 * k)[i - 984 - 32 * k] == e[i]);
        } else {
            assert(s.subrange(1048 + 32 * k, 1112 + 32 * k)[i - 1048 - 32 * k] == s[i]);
            assert(e.subrange(1048 + 32 * k, 1112 + 32 * k)[i - 1048 - 32 * k] == e[i]);
        }
    }
    assert(s =~= e);
}


/// The layout relation pins every byte of a verification key encoding.
#[verifier::rlimit(100)]
pub proof fn lemma_vk_layout_unique(v: VerificationKeyV, s: Seq<u8>)
    requires
        vk_valid_v(v),
        vk_layout(v, s),
    ensures
        s == encoded_vk(v),
{
    lemma_vk_layout_of_encoded(v);
    let e = encoded_vk(v);
    reveal(vk_layout);
    reveal(vk_valid_v);
    assert(s.len() == e.len());
    assert forall|i: int| 0 <= i < s.len() implies s[i] == e[i] by {
        if i < 8 {
            assert(s.subrange(0, 8)[i] == s[i] && e.subrange(0, 8)[i] == e[i]);
            crate::bytes::lemma_be_val_injective(s.subrange(0, 8), e.subrange(0, 8));
        } else if i < 16 {
            assert(s.subrange(8, 16)[i - 8] == s[i] && e.subrange(8, 16)[i - 8] == e[i]);
            crate::bytes::lemma_be_val_injective(s.subrange(8, 16), e.subrange(8, 16));
        } else if i < 24 {
            assert(s.subrange(16, 24)[i - 16] == s[i] && e.subrange(16, 24)[i - 16] == e[i]);
            crate::bytes::lemma_be_val_injective(s.subrange(16, 24), e.subrange(16, 24));
        } else if i < 408 {
            let j = (i - 24) / 64;
            let r = (i - 24) % 64;
            vstd::arithmetic::div_mod::lemma_fundamental_div_mod(i - 24, 64);
            assert(0 <= j < 6) by (nonlinear_arith)
                requires
                    0 <= i - 24 < 384,
                    i - 24 == 64 * j + r,
                    0 <= r < 64,
            ;
            assert(s.subrange(24 + 64 * j, 88 + 64 * j)[r] == s[i]);
            assert(e.subrange(24 + 64 * j, 88 + 64 * j)[r] == e[i]);
            assert(s.subrange(24 + 64 * j, 88 + 64 * j) == v.selector_commitments[j]);
            assert(e.subrange(24 + 64 * j, 88 + 64 * j) == v.selector_commitments[j]);
        } else if i < 416 {
            assert(s.subrange(408, 416)[i - 408] == s[i] && e.subrange(408, 416)[i - 408] == e[i]);
            crate::bytes::lemma_be_val_injective(s.subrange(408, 416), e.subrange(408, 416));
        } else if i < 480 {
            assert(s.subrange(416int + 64 * 0, 480int + 64 * 0)[i - 416] == s[i]);
            assert(e.subrange(416int + 64 * 0, 480int + 64 * 0)[i - 416] == e[i]);
            assert(s.subrange(416int + 64 * 0, 480int + 64 * 0)
                == v.next_step_selector_commitments[0]);
            assert(e.subrange(416int + 64 * 0, 480int + 64 * 0)
                == v.next_step_selector_commitments[0]);
        } else if i < 488 {
            assert(s.subrange(480, 488)[i - 480] == s[i] && e.subrange(480, 488)[i - 480] == e[i]);
            crate::bytes::lemma_be_val_injective(s.subrange(480, 488), e.subrange(480, 488));
        } else if i < 744 {
            let j = (i - 488) / 64;
            let r = (i - 488) % 64;
            vstd::arithmetic::div_mod::lemma_fundamental_div_mod(i - 488, 64);
            assert(0 <= j < 4) by (nonlinear_arith)
                requires
                    0 <= i - 488 < 256,
                    i - 488 == 64 * j + r,
                    0 <= r < 64,
            ;
            assert(s.subrange(488 + 64 * j, 552 + 64 * j)[r] == s[i]);
            assert(e.subrange(488 + 64 * j, 552 + 64 * j)[r] == e[i]);
            assert(s.subrange(488 + 64 * j, 552 + 64 * j) == v.permutation_commitments[j]);
            assert(e.subrange(488 + 64 * j, 552 + 64 * j) == v.permutation_commitments[j]);
        } else if i < 752 {
            assert(s.subrange(744, 752)[i - 744] == s[i] && e.subrange(744, 752)[i - 744] == e[i]);
            crate::bytes::lemma_be_val_injective(s.subrange(744, 752), e.subrange(744, 752));
        } else if i < 848 {
            let j = (i - 752) / 32;
            let r = (i - 752) % 32;
            vstd::arithmetic::div_mod::lemma_fundamental_div_mod(i - 752, 32);
            assert(0 <= j < 3) by (nonlinear_arith)
                requires
                    0 <= i - 752 < 96,
                    i - 752 == 32 * j + r,
                    0 <= r < 32,
            ;
            assert(s.subrange(752 + 32 * j, 784 + 32 * j)[r] == s[i]);
            assert(e.subrange(752 + 32 * j, 784 + 32 * j)[r] == e[i]);
            assert(s.subrange(752 + 32 * j, 784 + 32 * j) == v.non_residues[j]);
            assert(e.subrange(752 + 32 * j, 784 + 32 * j) == v.non_residues[j]);
        } else {
            let j = (i - 848) / 128;
            let r = (i - 848) % 128;
            vstd::arithmetic::div_mod::lemma_fundamental_div_mod(i - 848, 128);
            assert(0 <= j < 2) by (nonlinear_arith)
                requires
                    0 <= i - 848 < 256,
                    i - 848 == 128 * j + r,
                    0 <= r < 128,
            ;
            assert(s.subrange(848 + 128 * j, 976 + 128 * j)[r] == s[i]);
            assert(e.subrange(848 + 128 * j, 976 + 128 * j)[r] == e[i]);
            assert(s.subrange(848 + 128 * j, 976 + 128 * j) == v.g2_elements[j]);
            assert(e.subrange(848 + 128 * j, 976 + 128 * j) == v.g2_elements[j]);
        }
    }
    assert(s =~= e);
}

/// The layout relation pins every byte of a reference string encoding.
#[verifier::rlimit(100)]
pub proof fn lemma_srs_layout_unique(c: SrsV, s: Seq<u8>)
    requires
        srs_valid_v(c),
        srs_layout(c, s),
    ensures
        s == encoded_srs(c),
{
    lemma_srs_layout_of_encoded(c);
    let e = encoded_srs(c);
    let n = c.g1_bases.len() as int;
    reveal(srs_layout);
    reveal(srs_valid_v);
    assert(s.len() == e.len());
    assert forall|i: int| 0 <= i < s.len() implies s[i] == e[i] by {
        if i < 8 {
            assert(s.subrange(0, 8)[i] == s[i] && e.subrange(0, 8)[i] == e[i]);
            crate::bytes::lemma_be_val_injective(s.subrange(0, 8), e.subrange(0, 8));
        } else if i < 8 + 64 * n {
            let j = (i - 8) / 64;
            let r = (i - 8) % 64;
            vstd::arithmetic::div_mod::lemma_fundamental_div_mod(i - 8, 64);
            assert(0 <= j < n) by (nonlinear_arith)
                requires
                    0 <= i - 8 < 64 * n,
                    i - 8 == 64 * j + r,
                    0 <= r < 64,
            ;
            assert(s.subrange(8 + 64 * j, 72 + 64 * j)[r] == s[i]);
            assert(e.subrange(8 + 64 * j, 72 + 64 * j)[r] == e[i]);
            assert(s.subrange(8 + 64 * j, 72 + 64 * j) == c.g1_bases[j]);
            assert(e.subrange(8 + 64 * j, 72 + 64 * j) == c.g1_bases[j]);
        } else if i < 16 + 64 * n {
            assert(s.subrange(8 + 64 * n, 16 + 64 * n)[i - 8 - 64 * n] == s[i]);
            assert(e.subrange(8 + 64 * n, 16 + 64 * n)[i - 8 - 64 * n] == e[i]);
            crate::bytes::lemma_be_val_injective(
                s.subrange(8 + 64 * n, 16 + 64 * n),
                e.subrange(8 + 64 * n, 16 + 64 * n),
            );
        } else {
            let j = (i - 16 - 64 * n) / 128;
            let r = (i - 16 - 64 * n) % 128;
            vstd::arithmetic::div_mod::lemma_fundamental_div_mod(i - 16 - 64 * n, 128);
            assert(0 <= j < 2) by (nonlinear_arith)
                requires
                    0 <= i - 16 - 64 * n < 256,
                    i - 16 - 64 * n == 128 * j + r,
                    0 <= r < 128,
            ;
            assert(s.subrange(16 + 64 * n + 128 * j, 144 + 64 * n + 128 * j)[r] == s[i]);
            assert(e.subrange(16 + 64 * n + 128 * j, 144 + 64 * n + 128 * j)[r] == e[i]);
            assert(s.subrange(16 + 64 * n + 128 * j, 144 + 64 * n + 128 * j) == c.g2_bases[j]);
            assert(e.subrange(16 + 64 * n + 128 * j, 144 + 64 * n + 128 * j) == c.g2_bases[j]);
        }
    }
    assert(s =~= e);
}


} // verus!
