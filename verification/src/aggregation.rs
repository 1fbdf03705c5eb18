//! The aggregation consistency check. A recursive proof carries one public
//! input: the engine's collision-resistant hash over the verification-key
//! tree root and the old proofs' public inputs, taken in proof order. The
//! checker recomputes the hash preimage deterministically and compares the
//! embedded input against the expected hash; a mismatch is a diagnostic, not
//! a failure of the command.

use vstd::prelude::*;
use crate::bytes::bytes_eq;
use crate::codec::{Fr, views_of, copy_range};
use crate::artifacts::{
    Proof, ProofV, AggregatedProof, aggregated_valid_v, lemma_proof_schema_invariant,
};

verus! {

/// What the consistency check reports.
#[derive(Clone, Copy, Debug, PartialEq, Eq, Structural)]
pub enum AggregationOutcome {
    /// The aggregated proof is about exactly these old proofs and this key.
    Match,
    /// The embedded aggregated input disagrees with the recomputed one.
    Mismatch,
}

/// The public inputs of the old proofs, flattened in proof order: the hash
/// preimage order the aggregation circuit uses.
pub open spec fn flattened_inputs(ps: Seq<ProofV>) -> Seq<Seq<u8>>
    decreases ps.len(),
{
    if ps.len() == 0 {
        Seq::empty()
    } else {
        flattened_inputs(ps.drop_last()) + ps.last().input_values
    }
}

pub proof fn lemma_flattened_take_step(ps: Seq<ProofV>, i: int)
    requires
        0 <= i < ps.len(),
    ensures
        flattened_inputs(ps.take(i + 1)) == flattened_inputs(ps.take(i)) + ps[i].input_values,
{
    assert(ps.take(i + 1).drop_last() =~= ps.take(i));
    assert(ps.take(i + 1).last() == ps[i]);
}

/// Duplicates a field element by copying its canonical bytes.
pub fn fr_duplicate(f: &Fr) -> (r: Fr)
    ensures
        r@ == f@,
{
    let bytes = copy_range(&f.bytes, 0, f.bytes.len());
    proof {
        assert(f.bytes@.subrange(0, f.bytes@.len() as int) =~= f.bytes@);
    }
    Fr { bytes }
}

/// Flattens the public inputs of the old proofs, in proof order.
pub fn flatten_public_inputs(proofs: &Vec<Proof>) -> (r: Vec<Fr>)
    ensures
        views_of(r@) == flattened_inputs(views_of(proofs@)),
{
    let n = proofs.len();
    let mut out: Vec<Fr> = Vec::new();
    let mut i: usize = 0;
    proof {
        assert(views_of(out@) =~= flattened_inputs(views_of(proofs@).take(0)));
    }
    while i < n
        invariant
            0 <= i <= n,
            n == proofs@.len(),
            views_of(out@) =~= flattened_inputs(views_of(proofs@).take(i as int)),
        decreases n - i,
    {
        let m = proofs[i].input_values.len();
        let mut j: usize = 0;
        while j < m
            invariant
                0 <= j <= m,
                0 <= i < n,
                n == proofs@.len(),
                m == proofs@[i as int].input_values@.len(),
                views_of(out@) =~= flattened_inputs(views_of(proofs@).take(i as int)) + views_of(
                    proofs@[i as int].input_values@,
                ).take(j as int),
            decreases m - j,
        {
            let f = fr_duplicate(&proofs[i].input_values[j]);
            let ghost fv = f@;
            let ghost prev = out@;
            out.push(f);
            proof {
                assert(views_of(out@) =~= views_of(prev).push(fv));
                assert(views_of(proofs@[i as int].input_values@).take(j as int + 1) =~= views_of(
                    proofs@[i as int].input_values@,
                ).take(j as int).push(fv));
                assert(views_of(out@) =~= flattened_inputs(views_of(proofs@).take(i as int))
                    + views_of(proofs@[i as int].input_values@).take(j as int + 1));
            }
            j = j + 1;
        }
        proof {
            lemma_flattened_take_step(views_of(proofs@), i as int);
            assert(views_of(proofs@)[i as int] == proofs@[i as int]@);
            assert(views_of(proofs@[i as int].input_values@).take(m as int) =~= views_of(
                proofs@[i as int].input_values@,
            ));
            assert(views_of(out@) =~= flattened_inputs(views_of(proofs@).take(i as int + 1)));
        }
        i = i + 1;
    }
    proof {
        assert(views_of(proofs@).take(n as int) =~= views_of(proofs@));
    }
    out
}

/// Compares the expected aggregated input, recomputed by the engine's hash
/// over the key-tree root and the flattened old inputs, against the single
/// public input embedded in the candidate recursive proof. Match certifies
/// that the proof is about exactly this set; it does not by itself prove the
/// proof cryptographically valid.
pub fn check_aggregated_input(expected: &Fr, candidate: &AggregatedProof) -> (r:
    AggregationOutcome)
    requires
        aggregated_valid_v(candidate@),
    ensures
        r == AggregationOutcome::Match <==> expected@ == candidate@.input_values[0],
{
    proof {
        lemma_proof_schema_invariant(candidate@);
    }
    let eq = bytes_eq(&expected.bytes, &candidate.inner.input_values[0].bytes);
    if eq {
        AggregationOutcome::Match
    } else {
        AggregationOutcome::Mismatch
    }
}

/// Order-sensitivity law: the hash preimage the checker recomputes depends on
/// the order of the old proofs. Swapping two proofs with equally long but
/// different input vectors changes the flattened preimage, so the expected
/// aggregated input is recomputed over a different sequence.
pub proof fn lemma_flatten_order_sensitive(p1: ProofV, p2: ProofV)
    requires
        p1.input_values.len() == p2.input_values.len(),
        p1.input_values != p2.input_values,
    ensures
        flattened_inputs(seq![p1, p2]) != flattened_inputs(seq![p2, p1]),
{
    reveal_with_fuel(flattened_inputs, 3);
    let a = p1.input_values;
    let b = p2.input_values;
    assert(seq![p1, p2].drop_last() =~= seq![p1]);
    assert(seq![p2, p1].drop_last() =~= seq![p2]);
    assert(seq![p1].drop_last() =~= Seq::<ProofV>::empty());
    assert(seq![p2].drop_last() =~= Seq::<ProofV>::empty());
    assert(flattened_inputs(seq![p1]) =~= a);
    assert(flattened_inputs(seq![p2]) =~= b);
    assert(flattened_inputs(seq![p1, p2]) == a + b);
    assert(flattened_inputs(seq![p2, p1]) == b + a);
    if a + b == b + a {
        assert forall|i: int| 0 <= i < a.len() implies a[i] == b[i] by {
            assert((a + b)[i] == a[i]);
            assert((b + a)[i] == b[i]);
        }
        assert(a =~= b);
        assert(false);
    }
}

} // verus!
