//! Commitment requests and the digests that requests and constraints are signed over.
use vstd::prelude::*;
use crate::cli::{fork_version_of, Chain};
use crate::consensus::Slot;
use crate::crypto::{append_bytes, ecdsa_key_valid, keccak256, keccak256_of, le_bytes_of, sha256, sha256_of, u64_le_bytes};
use crate::ssz::{
    byte_list_root, hash_byte_list, hash_short_vector, pad_chunk, pad_to_chunk, subtree_root, zero_chunk,
};
use crate::template::{ConstraintsMessage, FullTransaction};
use alloy::primitives::B256;
use alloy::signers::local::PrivateKeySigner;
use alloy::signers::SignerSync;

verus! {

/// A request to include transactions in the block of `slot`.
#[derive(Debug)]
pub struct InclusionRequest {
    pub slot: Slot,
    pub txs: Vec<FullTransaction>,
    /// The requester's ECDSA signature over the request digest.
    pub signature: Vec<u8>,
}

/// The concatenated Keccak-256 hashes of the envelopes of `txs`.
pub open spec fn tx_hashes(txs: Seq<FullTransaction>) -> Seq<u8>
    decreases txs.len(),
{
    if txs.len() == 0 {
        Seq::empty()
    } else {
        tx_hashes(txs.drop_last()) + keccak256_of(txs.last().envelope@)
    }
}

/// The digest of a request: `keccak256(slot_le_bytes ‖ tx_hash_1 ‖ … ‖ tx_hash_n)`.
pub open spec fn request_digest(slot: Slot, txs: Seq<FullTransaction>) -> Seq<u8> {
    keccak256_of(le_bytes_of(slot) + tx_hashes(txs))
}

/// The digest of a constraint: the SSZ hash-tree-root of the message as the container
/// `{pubkey: Vector[byte, 48], slot: uint64, transaction: ByteList[2^30]}` (the envelope
/// bytes): the root of its three field roots, padded to four leaves.
pub open spec fn constraint_digest(m: ConstraintsMessage) -> Seq<u8> {
    sha256_of(
        sha256_of(subtree_root(m.pubkey@, 0, 1) + pad_chunk(le_bytes_of(m.slot))) + sha256_of(
            byte_list_root(m.tx.envelope@) + zero_chunk(),
        ),
    )
}

/// Keccak-256 of a transaction envelope: the transaction hash.
pub fn tx_hash(tx: &FullTransaction) -> (r: [u8; 32])
    ensures
        r@ == keccak256_of(tx.envelope@),
{
    keccak256(tx.envelope.as_slice())
}

impl InclusionRequest {
    /// The digest that the requester signs and that the commitment signs back.
    pub fn digest(&self) -> (r: [u8; 32])
        ensures
            r@ == request_digest(self.slot, self.txs@),
    {
        let mut buf = u64_le_bytes(self.slot);
        let ghost base = buf@;
        let mut i: usize = 0;
        while i < self.txs.len()
            invariant
                0 <= i <= self.txs@.len(),
                base == le_bytes_of(self.slot),
                buf@ == base + tx_hashes(self.txs@.take(i as int)),
            decreases self.txs@.len() - i,
        {
            let h = tx_hash(&self.txs[i]);
            append_bytes(&mut buf, h.as_slice());
            proof {
                assert(self.txs@.take(i + 1).drop_last() =~= self.txs@.take(i as int));
                assert(buf@ =~= base + tx_hashes(self.txs@.take(i + 1)));
            }
            i = i + 1;
        }
        assert(self.txs@.take(self.txs@.len() as int) =~= self.txs@);
        keccak256(buf.as_slice())
    }
}

impl ConstraintsMessage {
    /// The digest that the constraint signature covers: the message's hash-tree-root.
    pub fn digest(&self) -> (r: [u8; 32])
        ensures
            r@ == constraint_digest(*self),
    {
        let pubkey_root = hash_short_vector(self.pubkey.as_slice());
        let slot_bytes = u64_le_bytes(self.slot);
        let slot_root = pad_to_chunk(slot_bytes.as_slice());
        let tx_root = hash_byte_list(self.tx.envelope.as_slice());
        let empty = pad_to_chunk(&[]);
        assert(empty@ =~= zero_chunk());
        let mut left: Vec<u8> = Vec::new();
        append_bytes(&mut left, pubkey_root.as_slice());
        append_bytes(&mut left, slot_root.as_slice());
        let left_root = sha256(left.as_slice());
        let mut right: Vec<u8> = Vec::new();
        append_bytes(&mut right, tx_root.as_slice());
        append_bytes(&mut right, empty.as_slice());
        let right_root = sha256(right.as_slice());
        let mut top: Vec<u8> = Vec::new();
        append_bytes(&mut top, left_root.as_slice());
        append_bytes(&mut top, right_root.as_slice());
        sha256(top.as_slice())
    }
}

/// The domain type of commit-boost signatures.
pub const COMMIT_BOOST_DOMAIN: [u8; 4] = [109, 109, 111, 67];

/// 32 zero bytes.
pub open spec fn zero_root() -> Seq<u8> {
    Seq::new(32, |i: int| 0u8)
}

/// `b` followed by zero bytes up to 32 bytes.
pub open spec fn pad32(b: Seq<u8>) -> Seq<u8> {
    b + Seq::new((32 - b.len()) as nat, |i: int| 0u8)
}

/// The signing domain on `chain`: the commit-boost domain type followed by the first 28
/// bytes of the root of the chain's fork data (fork version, zero validators root).
pub open spec fn signing_domain(chain: Chain) -> Seq<u8> {
    seq![109u8, 109u8, 111u8, 67u8] + sha256_of(pad32(fork_version_of(chain)) + zero_root()).subrange(
        0,
        28,
    )
}

/// The root that a BLS signature over `digest` on `chain` signs: the root of the
/// digest and the domain.
pub open spec fn signing_root(chain: Chain, digest: Seq<u8>) -> Seq<u8> {
    sha256_of(digest + signing_domain(chain))
}

/// The signing domain of commit-boost signatures on `chain`.
pub fn compute_domain(chain: Chain) -> (r: Vec<u8>)
    ensures
        r@ == signing_domain(chain),
{
    let version = chain.fork_version();
    let mut fork_data: Vec<u8> = Vec::new();
    append_bytes(&mut fork_data, version.as_slice());
    let mut i: usize = 0;
    while i < 60
        invariant
            4 <= fork_data@.len() == 4 + i <= 64,
            i <= 60,
            fork_data@.subrange(0, 4) == fork_version_of(chain),
            forall|j: int| 4 <= j < fork_data@.len() ==> fork_data@[j] == 0u8,
        decreases 60 - i,
    {
        fork_data.push(0u8);
        i = i + 1;
    }
    assert(fork_data@ =~= pad32(fork_version_of(chain)) + zero_root());
    let root = sha256(fork_data.as_slice());
    let mut r: Vec<u8> = Vec::new();
    append_bytes(&mut r, COMMIT_BOOST_DOMAIN.as_slice());
    let mut k: usize = 0;
    while k < 28
        invariant
            k <= 28,
            r@ == seq![109u8, 109u8, 111u8, 67u8] + root@.subrange(0, k as int),
            root@.len() == 32,
        decreases 28 - k,
    {
        r.push(root[k]);
        k = k + 1;
        assert(r@ =~= seq![109u8, 109u8, 111u8, 67u8] + root@.subrange(0, k as int));
    }
    r
}

/// The root that a BLS signature over `digest` on `chain` signs.
pub fn compute_signing_root(chain: Chain, digest: &[u8; 32]) -> (r: [u8; 32])
    ensures
        r@ == signing_root(chain, digest@),
{
    let domain = compute_domain(chain);
    let mut buf: Vec<u8> = Vec::new();
    append_bytes(&mut buf, digest.as_slice());
    append_bytes(&mut buf, domain.as_slice());
    sha256(buf.as_slice())
}

/// The recoverable secp256k1 signature (`r ‖ s ‖ v`) of a 32-byte digest under a secret key.
pub uninterp spec fn ecdsa_signature_of(key: Seq<u8>, digest: Seq<u8>) -> Seq<u8>;

/// Whether deterministic (RFC 6979) signing of `digest` under `key` produces a zero `r` or
/// `s`, on which signing fails.
pub uninterp spec fn ecdsa_sign_degenerate(key: Seq<u8>, digest: Seq<u8>) -> bool;

/// Relies on alloy-signer-local's `PrivateKeySigner::from_bytes` (k256's `SigningKey`:
/// rejects zero and values not below the group order) and `sign_hash_sync` (ecdsa's
/// `try_sign_prehashed_rfc6979`, which fails only on a zero `r` or `s`). The signature is
/// deterministic, so it depends on the key and the digest alone.
#[verifier::external_body]
fn ecdsa_sign(key: &[u8; 32], digest: &[u8; 32]) -> (r: Option<[u8; 65]>)
    ensures
        r.is_some() <==> (ecdsa_key_valid(key@) && !ecdsa_sign_degenerate(key@, digest@)),
        r matches Some(sig) ==> sig@ == ecdsa_signature_of(key@, digest@),
{
    let signer = PrivateKeySigner::from_bytes(&B256::from(*key)).ok()?;
    signer.sign_hash_sync(&B256::from(*digest)).ok().map(|sig| sig.as_bytes())
}

/// The sidecar's answer to an accepted request: its signature over the request digest.
#[derive(Debug, Clone, Copy, PartialEq, Eq)]
pub struct SignedCommitment {
    pub signature: [u8; 65],
    pub digest: [u8; 32],
}

impl InclusionRequest {
    /// Signs the request digest with the commitment key; nothing where the key is not a
    /// valid secret key (or, for a negligible set of digests, signing degenerates).
    pub fn commit_and_sign(&self, key: &[u8; 32]) -> (r: Option<SignedCommitment>)
        ensures
            r.is_some() <==> (ecdsa_key_valid(key@) && !ecdsa_sign_degenerate(
                key@,
                request_digest(self.slot, self.txs@),
            )),
            r matches Some(c) ==> c.digest@ == request_digest(self.slot, self.txs@)
                && c.signature@ == ecdsa_signature_of(key@, c.digest@),
    {
        let digest = self.digest();
        match ecdsa_sign(key, &digest) {
            Some(signature) => Some(SignedCommitment { signature, digest }),
            None => None,
        }
    }
}

} // verus!
