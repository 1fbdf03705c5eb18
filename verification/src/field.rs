//! Canonical-range checks for the two base fields of BN254 and the curve
//! membership test for uncompressed G1 points, built on exact modular
//! arithmetic from `num_bigint`.

use vstd::prelude::*;
use num_bigint::BigUint;
use pairing_ce::EncodedPoint;
use crate::bytes::{be_val, be_bytes_lt, bytes_eq, lemma_be_val_injective};

verus! {

/// Big-endian bytes of the BN254 base-field modulus (coordinates of curve points).
pub open spec fn fq_modulus_bytes() -> Seq<u8> {
    seq![
        0x30u8, 0x64, 0x4e, 0x72, 0xe1, 0x31, 0xa0, 0x29, 0xb8, 0x50, 0x45, 0xb6, 0x81, 0x81,
        0x58, 0x5d, 0x97, 0x81, 0x6a, 0x91, 0x68, 0x71, 0xca, 0x8d, 0x3c, 0x20, 0x8c, 0x16,
        0xd8, 0x7c, 0xfd, 0x47,
    ]
}

/// Big-endian bytes of the BN254 scalar-field modulus (public inputs and evaluations).
pub open spec fn fr_modulus_bytes() -> Seq<u8> {
    seq![
        0x30u8, 0x64, 0x4e, 0x72, 0xe1, 0x31, 0xa0, 0x29, 0xb8, 0x50, 0x45, 0xb6, 0x81, 0x81,
        0x58, 0x5d, 0x28, 0x33, 0xe8, 0x48, 0x79, 0xb9, 0x70, 0x91, 0x43, 0xe1, 0xf5, 0x93,
        0xf0, 0x00, 0x00, 0x01,
    ]
}

/// The base-field modulus as a natural number.
pub open spec fn fq_modulus() -> nat {
    be_val(fq_modulus_bytes())
}

/// The scalar-field modulus as a natural number.
pub open spec fn fr_modulus() -> nat {
    be_val(fr_modulus_bytes())
}

/// A canonical scalar-field representative: 32 bytes, fully reduced.
pub open spec fn fr_bytes_valid(s: Seq<u8>) -> bool {
    s.len() == 32 && be_val(s) < fr_modulus()
}

/// A canonical base-field representative: 32 bytes, fully reduced.
pub open spec fn fq_bytes_valid(s: Seq<u8>) -> bool {
    s.len() == 32 && be_val(s) < fq_modulus()
}

pub fn fq_modulus_vec() -> (r: Vec<u8>)
    ensures
        r@ =~= fq_modulus_bytes(),
{
    let r: Vec<u8> = vec![
        0x30u8, 0x64, 0x4e, 0x72, 0xe1, 0x31, 0xa0, 0x29, 0xb8, 0x50, 0x45, 0xb6, 0x81, 0x81,
        0x58, 0x5d, 0x97, 0x81, 0x6a, 0x91, 0x68, 0x71, 0xca, 0x8d, 0x3c, 0x20, 0x8c, 0x16,
        0xd8, 0x7c, 0xfd, 0x47,
    ];
    r
}

pub fn fr_modulus_vec() -> (r: Vec<u8>)
    ensures
        r@ =~= fr_modulus_bytes(),
{
    let r: Vec<u8> = vec![
        0x30u8, 0x64, 0x4e, 0x72, 0xe1, 0x31, 0xa0, 0x29, 0xb8, 0x50, 0x45, 0xb6, 0x81, 0x81,
        0x58, 0x5d, 0x28, 0x33, 0xe8, 0x48, 0x79, 0xb9, 0x70, 0x91, 0x43, 0xe1, 0xf5, 0x93,
        0xf0, 0x00, 0x00, 0x01,
    ];
    r
}

/// Decides whether `bytes` is a canonical scalar-field representative.
pub fn fr_check(bytes: &Vec<u8>) -> (r: bool)
    ensures
        r == fr_bytes_valid(bytes@),
{
    if bytes.len() != 32 {
        return false;
    }
    let m = fr_modulus_vec();
    be_bytes_lt(bytes, &m)
}

/// Decides whether `bytes` is a canonical base-field representative.
pub fn fq_check(bytes: &Vec<u8>) -> (r: bool)
    ensures
        r == fq_bytes_valid(bytes@),
{
    if bytes.len() != 32 {
        return false;
    }
    let m = fq_modulus_vec();
    be_bytes_lt(bytes, &m)
}

/// Relies on `num_bigint::BigUint`: `*` and `%` compute exact product and
/// remainder of the numbers the big-endian byte strings denote.
#[verifier::external_body]
fn mul_mod(a: &Vec<u8>, b: &Vec<u8>, m: &Vec<u8>) -> (r: Vec<u8>)
    requires
        m@.len() == 32,
        be_val(m@) > 0,
    ensures
        r@.len() == 32,
        be_val(r@) == (be_val(a@) * be_val(b@)) % be_val(m@),
{
    let v = (BigUint::from_bytes_be(a) * BigUint::from_bytes_be(b) % BigUint::from_bytes_be(m))
        .to_bytes_be();
    let pad = 32 - v.len();
    let mut out = vec![0u8; pad];
    out.extend_from_slice(&v);
    out
}

/// Relies on `num_bigint::BigUint`: `+` and `%` compute exact sum and
/// remainder of the numbers the big-endian byte strings denote.
#[verifier::external_body]
fn add_mod(a: &Vec<u8>, b: &Vec<u8>, m: &Vec<u8>) -> (r: Vec<u8>)
    requires
        m@.len() == 32,
        be_val(m@) > 0,
    ensures
        r@.len() == 32,
        be_val(r@) == (be_val(a@) + be_val(b@)) % be_val(m@),
{
    let v = ((BigUint::from_bytes_be(a) + BigUint::from_bytes_be(b)) % BigUint::from_bytes_be(m))
        .to_bytes_be();
    let pad = 32 - v.len();
    let mut out = vec![0u8; pad];
    out.extend_from_slice(&v);
    out
}

/// Product in the base field.
pub open spec fn mul_fq(a: nat, b: nat) -> nat {
    (a * b) % fq_modulus()
}

/// Sum in the base field.
pub open spec fn add_fq(a: nat, b: nat) -> nat {
    (a + b) % fq_modulus()
}

/// The affine BN254 equation: y^2 = x^3 + 3 over the base field.
pub open spec fn g1_on_curve(x: nat, y: nat) -> bool {
    mul_fq(y, y) == add_fq(mul_fq(mul_fq(x, x), x), 3)
}

pub proof fn lemma_fq_modulus_positive()
    ensures
        fq_modulus() > 0x3000000000000000000000000000000000000000000000000000000000000000,
{
    reveal_with_fuel(be_val, 33);
}

/// The curve equation as stated, with its intermediate reductions, is the
/// plain affine equation y^2 = x^3 + 3 modulo the base-field modulus.
pub proof fn lemma_g1_on_curve_plain(x: nat, y: nat)
    ensures
        g1_on_curve(x, y) <==> (y * y) % fq_modulus() == (x * x * x + 3) % fq_modulus(),
{
    let p = fq_modulus() as int;
    lemma_fq_modulus_positive();
    assert(((x * x) as int % p * x as int) % p == (x as int * x as int * x as int) % p) by {
        vstd::arithmetic::div_mod::lemma_mul_mod_noop_left(x as int * x as int, x as int, p);
    }
    assert((((x * x * x) as int % p) + 3) % p == (x as int * x as int * x as int + 3) % p) by {
        vstd::arithmetic::div_mod::lemma_add_mod_noop(x as int * x as int * x as int, 3, p);
        vstd::arithmetic::div_mod::lemma_small_mod(3, p as nat);
    }
}

/// Curve membership of a G1 point given by canonical affine coordinates.
pub fn g1_on_curve_check(x: &Vec<u8>, y: &Vec<u8>) -> (r: bool)
    requires
        x@.len() == 32,
        y@.len() == 32,
    ensures
        r == g1_on_curve(be_val(x@), be_val(y@)),
{
    proof {
        lemma_fq_modulus_positive();
    }
    let m = fq_modulus_vec();
    let lhs = mul_mod(y, y, &m);
    let x2 = mul_mod(x, x, &m);
    let x3 = mul_mod(&x2, x, &m);
    let three: Vec<u8> = vec![3u8];
    proof {
        reveal_with_fuel(be_val, 3);
        assert(three@.drop_last() =~= Seq::<u8>::empty());
        assert(be_val(three@) == 3);
    }
    let rhs = add_mod(&x3, &three, &m);
    let eq = bytes_eq(&lhs, &rhs);
    proof {
        if be_val(lhs@) == be_val(rhs@) {
            lemma_be_val_injective(lhs@, rhs@);
        }
    }
    eq
}

/// What pairing_ce's uncompressed G2 decoding accepts; a function of the 128
/// encoded bytes alone.
pub uninterp spec fn g2_accepts(s: Seq<u8>) -> bool;

/// Relies on pairing_ce's `G2Uncompressed::into_affine`: it decodes the fixed
/// 128-byte uncompressed form, rejecting non-canonical coordinates, stray flag
/// bits and points off the curve; the verdict depends on the bytes alone.
#[verifier::external_body]
pub(crate) fn g2_group_check(bytes: &Vec<u8>) -> (r: bool)
    requires
        bytes@.len() == 128,
    ensures
        r == g2_accepts(bytes@),
{
    let mut repr = pairing_ce::bn256::G2Uncompressed::empty();
    repr.as_mut().copy_from_slice(bytes);
    repr.into_affine().is_ok()
}

} // verus!
