//! Fixed-width lowercase hexadecimal rendering for the display encoding.
//! Every byte becomes exactly two digits, so equal-length inputs always
//! render to equal-length strings, whatever their value.

use vstd::prelude::*;

verus! {

/// ASCII code of the lowercase hex digit for a nibble.
pub open spec fn hex_digit_ascii(n: u8) -> u8 {
    if n < 10 {
        (0x30 + n) as u8
    } else {
        (0x57 + n) as u8
    }
}

/// ASCII codes of the fixed-width lowercase hex rendering of a byte string.
pub open spec fn hex_ascii(s: Seq<u8>) -> Seq<u8> {
    Seq::new(
        2 * s.len(),
        |i: int|
            if i % 2 == 0 {
                hex_digit_ascii(s[i / 2] / 16)
            } else {
                hex_digit_ascii(s[i / 2] % 16)
            },
    )
}

/// ASCII codes read as characters.
pub open spec fn ascii_chars(s: Seq<u8>) -> Seq<char> {
    Seq::new(s.len(), |i: int| s[i] as char)
}

/// The hex display of a byte string, as the characters of a `String`.
pub open spec fn hex_display(s: Seq<u8>) -> Seq<char> {
    ascii_chars(hex_ascii(s))
}

fn hex_digit(n: u8) -> (r: u8)
    requires
        n < 16,
    ensures
        r == hex_digit_ascii(n),
{
    if n < 10 {
        0x30 + n
    } else {
        0x57 + n
    }
}

/// The ASCII bytes of the hex rendering.
pub fn hex_bytes(bytes: &Vec<u8>) -> (r: Vec<u8>)
    ensures
        r@ =~= hex_ascii(bytes@),
{
    let n = bytes.len();
    let mut out: Vec<u8> = Vec::new();
    let mut i: usize = 0;
    while i < n
        invariant
            0 <= i <= n,
            n == bytes@.len(),
            out@.len() == 2 * i,
            forall|j: int| 0 <= j < out@.len() ==> out@[j] == hex_ascii(bytes@)[j],
        decreases n - i,
    {
        let b = bytes[i];
        out.push(hex_digit(b / 16));
        out.push(hex_digit(b % 16));
        i = i + 1;
    }
    out
}

/// Relies on `String::from_utf8`: bytes below 128 decode to exactly those
/// characters, one per byte.
#[verifier::external_body]
fn ascii_string(bytes: &Vec<u8>) -> (r: String)
    requires
        forall|i: int| 0 <= i < bytes@.len() ==> bytes@[i] < 128,
    ensures
        r@ =~= ascii_chars(bytes@),
{
    String::from_utf8(bytes.clone()).unwrap()
}

/// The fixed-width lowercase hex display of a byte string.
pub fn to_hex_string(bytes: &Vec<u8>) -> (r: String)
    ensures
        r@ == hex_display(bytes@),
        r@.len() == 2 * bytes@.len(),
{
    let ascii = hex_bytes(bytes);
    proof {
        assert(forall|i: int| 0 <= i < ascii@.len() ==> ascii@[i] < 128);
    }
    let r = ascii_string(&ascii);
    proof {
        assert(r@ =~= hex_display(bytes@));
    }
    r
}

/// Fixed-width law: the hex display of any byte string has exactly two
/// characters per byte; in particular every canonically encoded field element
/// renders to the same string length regardless of its numeric value.
pub proof fn lemma_hex_display_fixed_width(s: Seq<u8>, t: Seq<u8>)
    requires
        s.len() == t.len(),
    ensures
        hex_display(s).len() == hex_display(t).len(),
        hex_display(s).len() == 2 * s.len(),
{
}

} // verus!
