//! Hash functions used for digests, and byte helpers around them.
use vstd::prelude::*;
use alloy::primitives::keccak256 as alloy_keccak256;
use alloy::signers::k256::sha2::{Digest, Sha256};

verus! {

/// The SHA-256 digest of a byte string.
pub uninterp spec fn sha256_of(data: Seq<u8>) -> Seq<u8>;

/// The Keccak-256 digest of a byte string.
pub uninterp spec fn keccak256_of(data: Seq<u8>) -> Seq<u8>;

/// Relies on sha2's `Sha256::digest` (re-exported by alloy through k256): a 32-byte
/// digest that depends on the input bytes alone.
#[verifier::external_body]
pub(crate) fn sha256(data: &[u8]) -> (r: [u8; 32])
    ensures
        r@ == sha256_of(data@),
{
    Sha256::digest(data).into()
}

/// Relies on alloy-primitives' `keccak256`: a 32-byte digest that depends on the input
/// bytes alone.
#[verifier::external_body]
pub(crate) fn keccak256(data: &[u8]) -> (r: [u8; 32])
    ensures
        r@ == keccak256_of(data@),
{
    alloy_keccak256(data).0
}

/// Appends every byte of `b` to `out`.
pub fn append_bytes(out: &mut Vec<u8>, b: &[u8])
    ensures
        final(out)@ == old(out)@ + b@,
{
    let mut i: usize = 0;
    while i < b.len()
        invariant
            0 <= i <= b@.len(),
            out@ == old(out)@ + b@.subrange(0, i as int),
        decreases b@.len() - i,
    {
        out.push(b[i]);
        i = i + 1;
        assert(b@.subrange(0, i as int) =~= b@.subrange(0, (i - 1) as int).push(b@[i - 1]));
        assert(out@ =~= old(out)@ + b@.subrange(0, i as int));
    }
    assert(b@.subrange(0, b@.len() as int) =~= b@);
}

/// The little-endian bytes of a 64-bit integer.
pub open spec fn le_bytes_of(x: u64) -> Seq<u8> {
    Seq::new(8, |i: int| ((x as int / pow256(i)) % 256) as u8)
}

/// `256` raised to the power `i`.
pub open spec fn pow256(i: int) -> int
    decreases i,
{
    if i <= 0 {
        1
    } else {
        256 * pow256(i - 1)
    }
}

/// Writes `x` in little-endian order.
pub fn u64_le_bytes(x: u64) -> (r: Vec<u8>)
    ensures
        r@ == le_bytes_of(x),
{
    let mut r: Vec<u8> = Vec::new();
    let mut v: u64 = x;
    let mut i: usize = 0;
    while i < 8
        invariant
            0 <= i <= 8,
            r@.len() == i,
            v as int == x as int / pow256(i as int),
            forall|j: int| 0 <= j < i ==> r@[j] == le_bytes_of(x)[j],
        decreases 8 - i,
    {
        proof {
            lemma_pow256_positive(i as int);
            lemma_div_div(x as int, pow256(i as int), 256);
        }
        r.push((v % 256) as u8);
        v = v / 256;
        i = i + 1;
    }
    assert(r@ =~= le_bytes_of(x));
    r
}

proof fn lemma_pow256_positive(i: int)
    ensures
        pow256(i) > 0,
    decreases i,
{
    if i > 0 {
        lemma_pow256_positive(i - 1);
    }
}

proof fn lemma_div_div(x: int, a: int, b: int)
    requires
        x >= 0,
        a > 0,
        b > 0,
    ensures
        x / a / b == x / (b * a),
{
    vstd::arithmetic::div_mod::lemma_div_denominator(x, a, b);
    assert(a * b == b * a) by (nonlinear_arith);
}

/// The big-endian value of a byte string.
pub open spec fn be_value(b: Seq<u8>) -> int
    decreases b.len(),
{
    if b.len() == 0 {
        0
    } else {
        be_value(b.drop_last()) * 256 + b.last()
    }
}

/// The order of the BLS12-381 scalar group.
pub open spec fn bls12_381_order() -> int {
    0x73eda753299d7d483339d80809a1d80553bda402fffe5bfeffffffff00000001int
}

/// The order of the secp256k1 group.
pub open spec fn secp256k1_order() -> int {
    0xfffffffffffffffffffffffffffffffebaaedce6af48a03bbfd25e8cd0364141int
}

/// Whether `sk` is a BLS secret key: 32 big-endian bytes, non-zero and below the order.
pub open spec fn bls_sk_valid(sk: Seq<u8>) -> bool {
    sk.len() == 32 && 0 < be_value(sk) < bls12_381_order()
}

/// Whether `key` is a secp256k1 secret key: non-zero and below the order.
pub open spec fn ecdsa_key_valid(key: Seq<u8>) -> bool {
    0 < be_value(key) < secp256k1_order()
}

} // verus!
