//! Small byte-level helpers shared by the wire-format modules.

use vstd::prelude::*;

verus! {

/// The big-endian two-byte encoding of a 16-bit integer.
pub open spec fn be16(x: u16) -> Seq<u8> {
    seq![(x / 256) as u8, (x % 256) as u8]
}

/// The 16-bit value denoted by two big-endian bytes.
pub open spec fn u16_of_be(hi: u8, lo: u8) -> u16 {
    (hi * 256 + lo) as u16
}

/// Serialize a 16-bit integer as two big-endian bytes.
pub fn be16_bytes(x: u16) -> (r: Vec<u8>)
    ensures
        r@ == be16(x),
        r@.len() == 2,
{
    let mut r: Vec<u8> = Vec::new();
    r.push((x / 256) as u8);
    r.push((x % 256) as u8);
    assert(r@ =~= be16(x));
    r
}

/// Read a 16-bit integer from two big-endian bytes.
pub fn u16_from_be(hi: u8, lo: u8) -> (r: u16)
    ensures
        r == u16_of_be(hi, lo),
{
    (hi as u16) * 256 + (lo as u16)
}

/// Two distinct 16-bit values have distinct big-endian encodings.
pub proof fn lemma_be16_injective(a: u16, b: u16)
    requires
        a != b,
    ensures
        be16(a) != be16(b),
{
    if be16(a) == be16(b) {
        assert(be16(a)[0] == be16(b)[0]);
        assert(be16(a)[1] == be16(b)[1]);
        assert(a / 256 == b / 256 && a % 256 == b % 256);
        assert(a == 256 * (a / 256) + a % 256) by (nonlinear_arith);
        assert(b == 256 * (b / 256) + b % 256) by (nonlinear_arith);
    }
}

/// Byte-for-byte equality of two vectors.
pub fn bytes_eq(a: &Vec<u8>, b: &Vec<u8>) -> (r: bool)
    ensures
        r <==> a@ == b@,
{
    if a.len() != b.len() {
        assert(a@ != b@);
        return false;
    }
    let n = a.len();
    let mut i: usize = 0;
    while i < n
        invariant
            n == a@.len() && n == b@.len(),
            i <= n,
            forall|j: int| 0 <= j < i ==> a@[j] == b@[j],
        decreases n - i,
    {
        if a[i] != b[i] {
            return false;
        }
        i += 1;
    }
    assert(a@ =~= b@);
    true
}

} // verus!
