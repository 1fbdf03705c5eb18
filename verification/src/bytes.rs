//! Big-endian byte strings as natural numbers: the value function, its
//! algebraic laws, and executable comparison and u64 framing helpers.

use vstd::prelude::*;
use vstd::arithmetic::power::pow;
use vstd::arithmetic::div_mod::lemma_mod_breakdown;

verus! {

/// The natural number that a big-endian byte string denotes.
pub open spec fn be_val(s: Seq<u8>) -> nat
    decreases s.len(),
{
    if s.len() == 0 {
        0
    } else {
        be_val(s.drop_last()) * 256 + s.last() as nat
    }
}

/// The `n`-byte big-endian encoding of `v mod 256^n`.
pub open spec fn nat_be(v: nat, n: nat) -> Seq<u8>
    decreases n,
{
    if n == 0 {
        Seq::empty()
    } else {
        nat_be(v / 256, (n - 1) as nat).push((v % 256) as u8)
    }
}

pub proof fn lemma_nat_be_len(v: nat, n: nat)
    ensures
        nat_be(v, n).len() == n,
    decreases n,
{
    if n > 0 {
        lemma_nat_be_len(v / 256, (n - 1) as nat);
    }
}

pub proof fn lemma_be_val_push(s: Seq<u8>, x: u8)
    ensures
        be_val(s.push(x)) == be_val(s) * 256 + x,
{
    assert(s.push(x).drop_last() =~= s);
    assert(s.push(x).last() == x);
}

/// `nat_be` encodes exactly the value reduced modulo `256^n`.
pub proof fn lemma_nat_be_val(v: nat, n: nat)
    ensures
        be_val(nat_be(v, n)) == v % (pow(256, n) as nat),
    decreases n,
{
    if n == 0 {
        assert(pow(256, 0) == 1) by {
            vstd::arithmetic::power::lemma_pow0(256);
        }
    } else {
        lemma_nat_be_val(v / 256, (n - 1) as nat);
        lemma_be_val_push(nat_be(v / 256, (n - 1) as nat), (v % 256) as u8);
        let q = pow(256, (n - 1) as nat);
        assert(q > 0) by {
            vstd::arithmetic::power::lemma_pow_positive(256, (n - 1) as nat);
        }
        lemma_mod_breakdown(v as int, 256, q);
        lemma_pow256_unfold(n);
        assert(be_val(nat_be(v, n)) == (v / 256 % q as nat) * 256 + v % 256);
        assert(v as int % (256 * q) == 256 * (v as int / 256 % q) + v as int % 256);
    }
}

/// One unfolding of `pow` at base 256.
pub proof fn lemma_pow256_unfold(n: nat)
    requires
        n >= 1,
    ensures
        pow(256, n) == 256 * pow(256, (n - 1) as nat),
{
    reveal_with_fuel(pow, 2);
}

/// Concatenation law: the left part is shifted by the length of the right part.
pub proof fn lemma_be_val_concat(a: Seq<u8>, b: Seq<u8>)
    ensures
        be_val(a + b) == be_val(a) * pow(256, b.len() as nat) + be_val(b),
    decreases b.len(),
{
    if b.len() == 0 {
        assert(a + b =~= a);
        assert(pow(256, 0) == 1) by {
            vstd::arithmetic::power::lemma_pow0(256);
        }
    } else {
        lemma_be_val_concat(a, b.drop_last());
        assert((a + b).drop_last() =~= a + b.drop_last());
        assert((a + b).last() == b.last());
        let p = pow(256, (b.len() - 1) as nat);
        lemma_pow256_unfold(b.len() as nat);
        assert((be_val(a) * p + be_val(b.drop_last())) * 256 == be_val(a) * (256 * p)
            + be_val(b.drop_last()) * 256) by (nonlinear_arith);
    }
}

/// A byte string denotes a value below `256^len`.
pub proof fn lemma_be_val_bound(s: Seq<u8>)
    ensures
        be_val(s) < pow(256, s.len() as nat),
    decreases s.len(),
{
    if s.len() == 0 {
        assert(pow(256, 0) == 1) by {
            vstd::arithmetic::power::lemma_pow0(256);
        }
    } else {
        lemma_be_val_bound(s.drop_last());
        let p = pow(256, (s.len() - 1) as nat);
        lemma_pow256_unfold(s.len() as nat);
        assert(be_val(s.drop_last()) * 256 + s.last() < 256 * p) by (nonlinear_arith)
            requires
                be_val(s.drop_last()) < p,
                s.last() < 256,
        ;
    }
}

/// Equal-length byte strings with the same value are the same string.
pub proof fn lemma_be_val_injective(a: Seq<u8>, b: Seq<u8>)
    requires
        a.len() == b.len(),
        be_val(a) == be_val(b),
    ensures
        a =~= b,
    decreases a.len(),
{
    if a.len() > 0 {
        let va = be_val(a.drop_last());
        let vb = be_val(b.drop_last());
        assert(va * 256 + a.last() == vb * 256 + b.last());
        assert(a.last() == b.last() && va == vb) by (nonlinear_arith)
            requires
                va * 256 + a.last() == vb * 256 + b.last(),
                a.last() < 256,
                b.last() < 256,
        ;
        lemma_be_val_injective(a.drop_last(), b.drop_last());
        assert(a =~= a.drop_last().push(a.last()));
        assert(b =~= b.drop_last().push(b.last()));
    }
}

/// A byte string splits at any index into a shifted prefix and a suffix.
pub proof fn lemma_be_val_split(s: Seq<u8>, i: int)
    requires
        0 <= i <= s.len(),
    ensures
        be_val(s) == be_val(s.subrange(0, i)) * pow(256, (s.len() - i) as nat)
            + be_val(s.subrange(i, s.len() as int)),
{
    let a = s.subrange(0, i);
    let b = s.subrange(i, s.len() as int);
    assert(s =~= a + b);
    lemma_be_val_concat(a, b);
}

/// Ordering at the first differing byte decides the ordering of the values.
pub proof fn lemma_be_val_order(a: Seq<u8>, b: Seq<u8>, i: int)
    requires
        a.len() == b.len(),
        0 <= i < a.len(),
        forall|j: int| 0 <= j < i ==> a[j] == b[j],
        a[i] < b[i],
    ensures
        be_val(a) < be_val(b),
{
    let n = a.len() as int;
    let w = pow(256, (n - i - 1) as nat);
    lemma_be_val_split(a, i + 1);
    lemma_be_val_split(b, i + 1);
    assert(a.subrange(0, i + 1) =~= a.subrange(0, i).push(a[i]));
    assert(b.subrange(0, i + 1) =~= b.subrange(0, i).push(b[i]));
    assert(a.subrange(0, i) =~= b.subrange(0, i));
    lemma_be_val_push(a.subrange(0, i), a[i]);
    lemma_be_val_push(b.subrange(0, i), b[i]);
    let base = be_val(a.subrange(0, i));
    let ta = be_val(a.subrange(i + 1, n));
    let tb = be_val(b.subrange(i + 1, n));
    lemma_be_val_bound(a.subrange(i + 1, n));
    lemma_be_val_bound(b.subrange(i + 1, n));
    assert(w > 0) by {
        vstd::arithmetic::power::lemma_pow_positive(256, (n - i - 1) as nat);
    }
    assert((base * 256 + a[i]) * w + ta < (base * 256 + b[i]) * w + tb) by (nonlinear_arith)
        requires
            a[i] < b[i],
            ta < w,
            tb >= 0,
            w > 0,
            base >= 0,
    ;
}

/// Strict lexicographic (equivalently numeric) order of two equal-length byte strings.
pub fn be_bytes_lt(a: &Vec<u8>, b: &Vec<u8>) -> (r: bool)
    requires
        a@.len() == b@.len(),
    ensures
        r == (be_val(a@) < be_val(b@)),
{
    let n = a.len();
    let mut i: usize = 0;
    while i < n
        invariant
            0 <= i <= n,
            n == a@.len() == b@.len(),
            forall|j: int| 0 <= j < i ==> a@[j] == b@[j],
        decreases n - i,
    {
        if a[i] < b[i] {
            proof {
                lemma_be_val_order(a@, b@, i as int);
            }
            return true;
        }
        if a[i] > b[i] {
            proof {
                lemma_be_val_order(b@, a@, i as int);
            }
            return false;
        }
        i = i + 1;
    }
    proof {
        assert(a@ =~= b@);
    }
    false
}

/// Byte-wise equality of two byte vectors.
pub fn bytes_eq(a: &Vec<u8>, b: &Vec<u8>) -> (r: bool)
    ensures
        r == (a@ =~= b@),
{
    if a.len() != b.len() {
        return false;
    }
    let n = a.len();
    let mut i: usize = 0;
    while i < n
        invariant
            0 <= i <= n,
            n == a@.len() == b@.len(),
            forall|j: int| 0 <= j < i ==> a@[j] == b@[j],
        decreases n - i,
    {
        if a[i] != b[i] {
            return false;
        }
        i = i + 1;
    }
    true
}

/// The 8-byte big-endian frame of a `u64` header field.
pub open spec fn u64_be(v: u64) -> Seq<u8> {
    nat_be(v as nat, 8)
}

/// Evaluates the small powers of 256 that the u64 frame proofs need.
pub proof fn lemma_pow256_values()
    ensures
        pow(256, 7) == 0x100000000000000,
        pow(256, 8) == 0x10000000000000000,
{
    reveal_with_fuel(pow, 9);
}

/// Appends the 8-byte big-endian frame of `v` by peeling one byte per level.
pub fn push_u64_rec(out: &mut Vec<u8>, v: u64, n: usize)
    requires
        n <= 8,
    ensures
        final(out)@ =~= old(out)@ + nat_be(v as nat, n as nat),
    decreases n,
{
    if n == 0 {
        proof {
            assert(out@ =~= out@ + Seq::<u8>::empty());
        }
    } else {
        let b: u8 = (v % 256) as u8;
        push_u64_rec(out, v / 256, n - 1);
        out.push(b);
        proof {
            assert((v / 256) as nat == v as nat / 256);
            assert(b as nat == v as nat % 256);
            assert(old(out)@ + nat_be(v as nat, n as nat) =~= (old(out)@ + nat_be(
                v as nat / 256,
                (n - 1) as nat,
            )).push(b));
        }
    }
}

/// Appends the 8-byte big-endian frame of a `u64`.
pub fn push_u64_be(out: &mut Vec<u8>, v: u64)
    ensures
        final(out)@ =~= old(out)@ + u64_be(v),
{
    push_u64_rec(out, v, 8);
}

/// Reads the value of the 8 bytes of `bytes` starting at `pos`.
pub fn read_u64_be(bytes: &Vec<u8>, pos: usize) -> (r: u64)
    requires
        pos + 8 <= bytes@.len(),
    ensures
        r as nat == be_val(bytes@.subrange(pos as int, pos as int + 8)),
{
    let total = bytes.len();
    proof {
        vstd::arithmetic::power::lemma_pow0(256);
    }
    let mut v: u64 = 0;
    let mut i: usize = 0;
    while i < 8
        invariant
            0 <= i <= 8,
            pos + 8 <= total,
            total == bytes@.len(),
            v as nat == be_val(bytes@.subrange(pos as int, pos as int + i as int)),
            (v as nat) < pow(256, i as nat),
        decreases 8 - i,
    {
        proof {
            lemma_pow256_values();
            vstd::arithmetic::power::lemma_pow_increases(256, i as nat, 7);
            assert(bytes@.subrange(pos as int, pos as int + i as int + 1) =~= bytes@.subrange(
                pos as int,
                pos as int + i as int,
            ).push(bytes@[pos as int + i as int]));
            lemma_be_val_push(
                bytes@.subrange(pos as int, pos as int + i as int),
                bytes@[pos as int + i as int],
            );
            lemma_pow256_unfold((i + 1) as nat);
        }
        let b: u8 = bytes[pos + i];
        v = v * 256 + (b as u64);
        i = i + 1;
    }
    v
}

} // verus!
