//! Leaf codecs shared by every artifact: canonical field elements, uncompressed
//! curve points, and the concatenation algebra their fixed layouts rest on.

use vstd::prelude::*;
use crate::bytes::{be_val, bytes_eq, read_u64_be};
use crate::field::{
    fr_bytes_valid, fq_bytes_valid, fr_check, fq_check, g1_on_curve, g1_on_curve_check,
    g2_accepts, g2_group_check,
};

verus! {

/// A scalar-field element held as its canonical 32-byte big-endian form.
#[derive(Clone, Debug, PartialEq, Eq)]
pub struct Fr {
    pub bytes: Vec<u8>,
}

impl View for Fr {
    type V = Seq<u8>;

    open spec fn view(&self) -> Seq<u8> {
        self.bytes@
    }
}

/// A G1 point held as its 64-byte uncompressed encoding.
#[derive(Clone, Debug, PartialEq, Eq)]
pub struct G1El {
    pub bytes: Vec<u8>,
}

impl View for G1El {
    type V = Seq<u8>;

    open spec fn view(&self) -> Seq<u8> {
        self.bytes@
    }
}

/// A G2 point held as its 128-byte uncompressed encoding.
#[derive(Clone, Debug, PartialEq, Eq)]
pub struct G2El {
    pub bytes: Vec<u8>,
}

impl View for G2El {
    type V = Seq<u8>;

    open spec fn view(&self) -> Seq<u8> {
        self.bytes@
    }
}

/// The 64-byte sentinel that encodes the G1 point at infinity.
pub open spec fn g1_infinity_bytes() -> Seq<u8> {
    Seq::new(64, |i: int| if i == 0 { 0x40u8 } else { 0u8 })
}

/// The 128-byte sentinel that encodes the G2 point at infinity.
pub open spec fn g2_infinity_bytes() -> Seq<u8> {
    Seq::new(128, |i: int| if i == 0 { 0x40u8 } else { 0u8 })
}

/// A well-formed 64-byte G1 encoding: the infinity sentinel, or canonical
/// affine coordinates satisfying the curve equation.
pub open spec fn g1_enc_valid(s: Seq<u8>) -> bool {
    s.len() == 64 && (s == g1_infinity_bytes() || (fq_bytes_valid(s.subrange(0, 32))
        && fq_bytes_valid(s.subrange(32, 64)) && g1_on_curve(
        be_val(s.subrange(0, 32)),
        be_val(s.subrange(32, 64)),
    )))
}

/// A well-formed 128-byte G2 encoding: whatever the engine's uncompressed
/// decoding accepts.
pub open spec fn g2_enc_valid(s: Seq<u8>) -> bool {
    s.len() == 128 && g2_accepts(s)
}

/// The views of a sequence of encoded elements.
pub open spec fn views_of<T: View>(s: Seq<T>) -> Seq<T::V> {
    s.map_values(|x: T| x@)
}

/// Concatenation of a sequence of byte strings, in order.
pub open spec fn cat_all(xs: Seq<Seq<u8>>) -> Seq<u8>
    decreases xs.len(),
{
    if xs.len() == 0 {
        Seq::empty()
    } else {
        cat_all(xs.drop_last()) + xs.last()
    }
}

pub proof fn lemma_cat_all_take_step(xs: Seq<Seq<u8>>, i: int)
    requires
        0 <= i < xs.len(),
    ensures
        cat_all(xs.take(i + 1)) == cat_all(xs.take(i)) + xs[i],
{
    assert(xs.take(i + 1).drop_last() =~= xs.take(i));
    assert(xs.take(i + 1).last() == xs[i]);
}

/// A prefix of a concatenation reads through to the left operand.
pub proof fn lemma_concat_subrange_left(a: Seq<u8>, b: Seq<u8>, p: int, q: int)
    requires
        0 <= p <= q <= a.len(),
    ensures
        (a + b).subrange(p, q) =~= a.subrange(p, q),
{
}

/// A suffix of a concatenation reads through to the right operand.
pub proof fn lemma_concat_subrange_right(a: Seq<u8>, b: Seq<u8>, p: int, q: int)
    requires
        0 <= p <= q <= b.len(),
    ensures
        (a + b).subrange(a.len() + p, a.len() + q) =~= b.subrange(p, q),
{
}

/// Concatenating `n` byte strings of uniform width `w` yields `n * w` bytes,
/// and the `i`-th width-`w` window is the `i`-th string.
pub proof fn lemma_cat_all_uniform(xs: Seq<Seq<u8>>, w: int)
    requires
        w >= 0,
        forall|i: int| 0 <= i < xs.len() ==> (#[trigger] xs[i]).len() == w,
    ensures
        cat_all(xs).len() == xs.len() * w,
        forall|i: int|
            0 <= i < xs.len() ==> #[trigger] cat_all(xs).subrange(i * w, (i + 1) * w) == xs[i],
    decreases xs.len(),
{
    if xs.len() == 0 {
    } else {
        let n = xs.len() as int;
        let pre = xs.drop_last();
        lemma_cat_all_uniform(pre, w);
        assert(cat_all(xs) == cat_all(pre) + xs.last());
        assert((n - 1) * w + w == n * w) by (nonlinear_arith);
        assert forall|i: int| 0 <= i < n implies #[trigger] cat_all(xs).subrange(i * w, (i + 1) * w)
            == xs[i] by {
            assert(i * w >= 0 && (i + 1) * w <= n * w && i * w <= (i + 1) * w) by (nonlinear_arith)
                requires
                    0 <= i < n,
                    w >= 0,
            ;
            if i < n - 1 {
                assert((i + 1) * w <= (n - 1) * w) by (nonlinear_arith)
                    requires
                        i + 1 <= n - 1,
                        w >= 0,
                ;
                lemma_concat_subrange_left(cat_all(pre), xs.last(), i * w, (i + 1) * w);
                assert(pre[i] == xs[i]);
            } else {
                lemma_concat_subrange_right(cat_all(pre), xs.last(), 0, w);
                assert(cat_all(xs).subrange((n - 1) * w + 0, (n - 1) * w + w) =~= xs.last()
                    .subrange(0, w));
                assert(xs.last().subrange(0, w) =~= xs.last());
            }
        }
    }
}

/// Copies `len` bytes of `bytes` starting at `pos`.
pub fn copy_range(bytes: &Vec<u8>, pos: usize, len: usize) -> (r: Vec<u8>)
    requires
        pos + len <= bytes@.len(),
    ensures
        r@ =~= bytes@.subrange(pos as int, pos as int + len as int),
{
    let total = bytes.len();
    let mut out: Vec<u8> = Vec::new();
    let mut i: usize = 0;
    while i < len
        invariant
            0 <= i <= len,
            pos + len <= total,
            total == bytes@.len(),
            out@.len() == i,
            forall|j: int| 0 <= j < i ==> out@[j] == bytes@[pos + j],
        decreases len - i,
    {
        out.push(bytes[pos + i]);
        i = i + 1;
    }
    out
}

/// Appends a byte string.
pub fn push_bytes(out: &mut Vec<u8>, b: &Vec<u8>)
    ensures
        final(out)@ =~= old(out)@ + b@,
{
    let n = b.len();
    let mut i: usize = 0;
    while i < n
        invariant
            0 <= i <= n,
            n == b@.len(),
            out@.len() == old(out)@.len() + i,
            forall|j: int| 0 <= j < old(out)@.len() ==> out@[j] == old(out)@[j],
            forall|j: int| 0 <= j < i ==> out@[old(out)@.len() + j] == b@[j],
        decreases n - i,
    {
        out.push(b[i]);
        i = i + 1;
    }
}

/// Appends the canonical bytes of every field element, in order.
pub fn push_fr_vec(out: &mut Vec<u8>, elems: &Vec<Fr>)
    ensures
        final(out)@ =~= old(out)@ + cat_all(views_of(elems@)),
{
    let ghost base = out@;
    let n = elems.len();
    let mut i: usize = 0;
    while i < n
        invariant
            0 <= i <= n,
            n == elems@.len(),
            out@ =~= base + cat_all(views_of(elems@).take(i as int)),
        decreases n - i,
    {
        push_bytes(out, &elems[i].bytes);
        proof {
            lemma_cat_all_take_step(views_of(elems@), i as int);
            assert(views_of(elems@)[i as int] == elems@[i as int]@);
            assert(out@ =~= base + cat_all(views_of(elems@).take(i as int + 1)));
        }
        i = i + 1;
    }
    proof {
        assert(views_of(elems@).take(n as int) =~= views_of(elems@));
    }
}

/// Appends the encoded bytes of every G1 point, in order.
pub fn push_g1_vec(out: &mut Vec<u8>, elems: &Vec<G1El>)
    ensures
        final(out)@ =~= old(out)@ + cat_all(views_of(elems@)),
{
    let ghost base = out@;
    let n = elems.len();
    let mut i: usize = 0;
    while i < n
        invariant
            0 <= i <= n,
            n == elems@.len(),
            out@ =~= base + cat_all(views_of(elems@).take(i as int)),
        decreases n - i,
    {
        push_bytes(out, &elems[i].bytes);
        proof {
            lemma_cat_all_take_step(views_of(elems@), i as int);
            assert(views_of(elems@)[i as int] == elems@[i as int]@);
            assert(out@ =~= base + cat_all(views_of(elems@).take(i as int + 1)));
        }
        i = i + 1;
    }
    proof {
        assert(views_of(elems@).take(n as int) =~= views_of(elems@));
    }
}

/// Appends the encoded bytes of every G2 point, in order.
pub fn push_g2_vec(out: &mut Vec<u8>, elems: &Vec<G2El>)
    ensures
        final(out)@ =~= old(out)@ + cat_all(views_of(elems@)),
{
    let ghost base = out@;
    let n = elems.len();
    let mut i: usize = 0;
    while i < n
        invariant
            0 <= i <= n,
            n == elems@.len(),
            out@ =~= base + cat_all(views_of(elems@).take(i as int)),
        decreases n - i,
    {
        push_bytes(out, &elems[i].bytes);
        proof {
            lemma_cat_all_take_step(views_of(elems@), i as int);
            assert(views_of(elems@)[i as int] == elems@[i as int]@);
            assert(out@ =~= base + cat_all(views_of(elems@).take(i as int + 1)));
        }
        i = i + 1;
    }
    proof {
        assert(views_of(elems@).take(n as int) =~= views_of(elems@));
    }
}

/// The exec form of the G1 infinity sentinel.
pub fn g1_infinity_vec() -> (r: Vec<u8>)
    ensures
        r@ =~= g1_infinity_bytes(),
{
    let mut v: Vec<u8> = Vec::new();
    v.push(0x40);
    let mut i: usize = 1;
    while i < 64
        invariant
            1 <= i <= 64,
            v@.len() == i,
            v@[0] == 0x40u8,
            forall|j: int| 1 <= j < i ==> v@[j] == 0u8,
        decreases 64 - i,
    {
        v.push(0);
        i = i + 1;
    }
    v
}

/// The exec form of the G2 infinity sentinel.
pub fn g2_infinity_vec() -> (r: Vec<u8>)
    ensures
        r@ =~= g2_infinity_bytes(),
{
    let mut v: Vec<u8> = Vec::new();
    v.push(0x40);
    let mut i: usize = 1;
    while i < 128
        invariant
            1 <= i <= 128,
            v@.len() == i,
            v@[0] == 0x40u8,
            forall|j: int| 1 <= j < i ==> v@[j] == 0u8,
        decreases 128 - i,
    {
        v.push(0);
        i = i + 1;
    }
    v
}

/// Reads and validates one scalar-field element at `pos`.
pub fn read_fr_at(bytes: &Vec<u8>, pos: usize) -> (r: Option<Fr>)
    requires
        pos + 32 <= bytes@.len(),
    ensures
        r is Some <==> fr_bytes_valid(bytes@.subrange(pos as int, pos as int + 32)),
        r matches Some(f) ==> f@ == bytes@.subrange(pos as int, pos as int + 32),
{
    let seg = copy_range(bytes, pos, 32);
    if fr_check(&seg) {
        Some(Fr { bytes: seg })
    } else {
        None
    }
}

/// Reads and validates one uncompressed G1 point at `pos`.
pub fn read_g1_at(bytes: &Vec<u8>, pos: usize) -> (r: Option<G1El>)
    requires
        pos + 64 <= bytes@.len(),
    ensures
        r is Some <==> g1_enc_valid(bytes@.subrange(pos as int, pos as int + 64)),
        r matches Some(p) ==> p@ == bytes@.subrange(pos as int, pos as int + 64),
{
    let seg = copy_range(bytes, pos, 64);
    let inf = g1_infinity_vec();
    if bytes_eq(&seg, &inf) {
        return Some(G1El { bytes: seg });
    }
    let x = copy_range(&seg, 0, 32);
    let y = copy_range(&seg, 32, 32);
    proof {
        assert(x@ =~= seg@.subrange(0, 32));
        assert(y@ =~= seg@.subrange(32, 64));
    }
    if !fq_check(&x) {
        return None;
    }
    if !fq_check(&y) {
        return None;
    }
    if g1_on_curve_check(&x, &y) {
        Some(G1El { bytes: seg })
    } else {
        None
    }
}

/// Reads and validates one uncompressed G2 point at `pos`.
pub fn read_g2_at(bytes: &Vec<u8>, pos: usize) -> (r: Option<G2El>)
    requires
        pos + 128 <= bytes@.len(),
    ensures
        r is Some <==> g2_enc_valid(bytes@.subrange(pos as int, pos as int + 128)),
        r matches Some(p) ==> p@ == bytes@.subrange(pos as int, pos as int + 128),
{
    let seg = copy_range(bytes, pos, 128);
    if g2_group_check(&seg) {
        Some(G2El { bytes: seg })
    } else {
        None
    }
}

/// Reads the u64 length or count frame at `pos` and compares it to `want`.
pub fn check_u64_at(bytes: &Vec<u8>, pos: usize, want: u64) -> (r: bool)
    requires
        pos + 8 <= bytes@.len(),
    ensures
        r == (be_val(bytes@.subrange(pos as int, pos as int + 8)) == want),
{
    let v = read_u64_be(bytes, pos);
    v == want
}

} // verus!
