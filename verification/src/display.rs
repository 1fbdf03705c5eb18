//! The one-way display encoding: exchange records that mirror each artifact
//! schema field for field, with every field-element and curve-point slot
//! replaced by its fixed-width lowercase hex string. Display form is written
//! for external tooling and is never decoded back.

use vstd::prelude::*;
use crate::hexenc::{hex_display, to_hex_string, lemma_hex_display_fixed_width};
use crate::field::fr_bytes_valid;
use crate::codec::{Fr, G1El, G2El, views_of};
use crate::artifacts::{Proof, VerificationKey};

verus! {

/// The exchange record of a proof.
#[derive(Clone, Debug)]
pub struct ProofStr {
    pub num_inputs: usize,
    pub n: usize,
    pub input_values: Vec<String>,
    pub wire_commitments: Vec<String>,
    pub grand_product_commitment: String,
    pub quotient_poly_commitments: Vec<String>,
    pub wire_values_at_z: Vec<String>,
    pub wire_values_at_z_omega: Vec<String>,
    pub grand_product_at_z_omega: String,
    pub quotient_polynomial_at_z: String,
    pub linearization_polynomial_at_z: String,
    pub permutation_polynomials_at_z: Vec<String>,
    pub opening_at_z_proof: String,
    pub opening_at_z_omega_proof: String,
}

/// The exchange record of a verification key.
#[derive(Clone, Debug)]
pub struct VerificationKeyStr {
    pub n: usize,
    pub num_inputs: usize,
    pub selector_commitments: Vec<String>,
    pub next_step_selector_commitments: Vec<String>,
    pub permutation_commitments: Vec<String>,
    pub non_residues: Vec<String>,
    pub g2_elements: Vec<String>,
}

/// Each string is the hex display of the corresponding byte slot, in order.
pub open spec fn hex_seq_of(xs: Seq<Seq<u8>>, ys: Seq<String>) -> bool {
    ys.len() == xs.len() && forall|i: int|
        0 <= i < xs.len() ==> (#[trigger] ys[i])@ == hex_display(xs[i])
}

fn hex_fr_vec(elems: &Vec<Fr>) -> (r: Vec<String>)
    ensures
        hex_seq_of(views_of(elems@), r@),
{
    let n = elems.len();
    let mut out: Vec<String> = Vec::new();
    let mut i: usize = 0;
    while i < n
        invariant
            0 <= i <= n,
            n == elems@.len(),
            out@.len() == i,
            forall|j: int| 0 <= j < i ==> (#[trigger] out@[j])@ == hex_display(elems@[j]@),
        decreases n - i,
    {
        out.push(to_hex_string(&elems[i].bytes));
        i = i + 1;
    }
    out
}

fn hex_g1_vec(elems: &Vec<G1El>) -> (r: Vec<String>)
    ensures
        hex_seq_of(views_of(elems@), r@),
{
    let n = elems.len();
    let mut out: Vec<String> = Vec::new();
    let mut i: usize = 0;
    while i < n
        invariant
            0 <= i <= n,
            n == elems@.len(),
            out@.len() == i,
            forall|j: int| 0 <= j < i ==> (#[trigger] out@[j])@ == hex_display(elems@[j]@),
        decreases n - i,
    {
        out.push(to_hex_string(&elems[i].bytes));
        i = i + 1;
    }
    out
}

fn hex_g2_vec(elems: &Vec<G2El>) -> (r: Vec<String>)
    ensures
        hex_seq_of(views_of(elems@), r@),
{
    let n = elems.len();
    let mut out: Vec<String> = Vec::new();
    let mut i: usize = 0;
    while i < n
        invariant
            0 <= i <= n,
            n == elems@.len(),
            out@.len() == i,
            forall|j: int| 0 <= j < i ==> (#[trigger] out@[j])@ == hex_display(elems@[j]@),
        decreases n - i,
    {
        out.push(to_hex_string(&elems[i].bytes));
        i = i + 1;
    }
    out
}

/// Renders a proof to its exchange record. Every slot becomes the fixed-width
/// hex display of its canonical bytes, so the record is a function of the
/// proof's content alone: rendering the same value twice gives the same
/// strings.
pub fn proof_to_display(p: &Proof) -> (r: ProofStr)
    ensures
        r.n == p.n,
        r.num_inputs == p.num_inputs,
        hex_seq_of(p@.input_values, r.input_values@),
        hex_seq_of(p@.wire_commitments, r.wire_commitments@),
        r.grand_product_commitment@ == hex_display(p@.grand_product_commitment),
        hex_seq_of(p@.quotient_poly_commitments, r.quotient_poly_commitments@),
        hex_seq_of(p@.wire_values_at_z, r.wire_values_at_z@),
        hex_seq_of(p@.wire_values_at_z_omega, r.wire_values_at_z_omega@),
        r.grand_product_at_z_omega@ == hex_display(p@.grand_product_at_z_omega),
        r.quotient_polynomial_at_z@ == hex_display(p@.quotient_polynomial_at_z),
        r.linearization_polynomial_at_z@ == hex_display(p@.linearization_polynomial_at_z),
        hex_seq_of(p@.permutation_polynomials_at_z, r.permutation_polynomials_at_z@),
        r.opening_at_z_proof@ == hex_display(p@.opening_at_z_proof),
        r.opening_at_z_omega_proof@ == hex_display(p@.opening_at_z_omega_proof),
{
    ProofStr {
        num_inputs: p.num_inputs,
        n: p.n,
        input_values: hex_fr_vec(&p.input_values),
        wire_commitments: hex_g1_vec(&p.wire_commitments),
        grand_product_commitment: to_hex_string(&p.grand_product_commitment.bytes),
        quotient_poly_commitments: hex_g1_vec(&p.quotient_poly_commitments),
        wire_values_at_z: hex_fr_vec(&p.wire_values_at_z),
        wire_values_at_z_omega: hex_fr_vec(&p.wire_values_at_z_omega),
        grand_product_at_z_omega: to_hex_string(&p.grand_product_at_z_omega.bytes),
        quotient_polynomial_at_z: to_hex_string(&p.quotient_polynomial_at_z.bytes),
        linearization_polynomial_at_z: to_hex_string(&p.linearization_polynomial_at_z.bytes),
        permutation_polynomials_at_z: hex_fr_vec(&p.permutation_polynomials_at_z),
        opening_at_z_proof: to_hex_string(&p.opening_at_z_proof.bytes),
        opening_at_z_omega_proof: to_hex_string(&p.opening_at_z_omega_proof.bytes),
    }
}

/// Renders a verification key to its exchange record, the same way.
pub fn vk_to_display(v: &VerificationKey) -> (r: VerificationKeyStr)
    ensures
        r.n == v.n,
        r.num_inputs == v.num_inputs,
        hex_seq_of(v@.selector_commitments, r.selector_commitments@),
        hex_seq_of(v@.next_step_selector_commitments, r.next_step_selector_commitments@),
        hex_seq_of(v@.permutation_commitments, r.permutation_commitments@),
        hex_seq_of(v@.non_residues, r.non_residues@),
        hex_seq_of(v@.g2_elements, r.g2_elements@),
{
    VerificationKeyStr {
        n: v.n,
        num_inputs: v.num_inputs,
        selector_commitments: hex_g1_vec(&v.selector_commitments),
        next_step_selector_commitments: hex_g1_vec(&v.next_step_selector_commitments),
        permutation_commitments: hex_g1_vec(&v.permutation_commitments),
        non_residues: hex_fr_vec(&v.non_residues),
        g2_elements: hex_g2_vec(&v.g2_elements),
    }
}

/// Renders the public-input display record that accompanies a proof: the
/// proof's input values alone, each as its fixed-width hex string, in order.
pub fn public_inputs_to_display(p: &Proof) -> (r: Vec<String>)
    ensures
        hex_seq_of(p@.input_values, r@),
{
    hex_fr_vec(&p.input_values)
}

/// Fixed-width law: every canonical field element renders to a hex string of
/// exactly 64 characters, whatever its numeric value, zero included.
pub proof fn lemma_fr_display_width(x: Seq<u8>)
    requires
        fr_bytes_valid(x),
    ensures
        hex_display(x).len() == 64,
{
    lemma_hex_display_fixed_width(x, x);
}

} // verus!
