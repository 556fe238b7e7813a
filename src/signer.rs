//! BLS keys held in memory: public keys derived from secret keys, and signatures over
//! commit-boost signing roots.
use vstd::prelude::*;
use vstd::string::StringSliceAdditionalSpecFns;
use blst::min_pk::SecretKey;
use crate::cli::Chain;
use crate::commitment::{compute_signing_root, signing_root};
use crate::delegation::{BlsPublicKey, BlsSignature};
use crate::crypto::bls_sk_valid;
use crate::wire::{decode_hex_field, parse_field};

verus! {

/// The domain separation tag of Ethereum BLS signatures (proof-of-possession scheme).
pub const ETH_BLS_DST: &'static str = "BLS_SIG_BLS12381G2_XMD:SHA-256_SSWU_RO_POP_";

/// The compressed public key of a BLS secret key.
pub uninterp spec fn bls_public_key_of(sk: Seq<u8>) -> Seq<u8>;

/// The compressed BLS signature of `msg` under `sk` with tag `dst`.
pub uninterp spec fn bls_signature_of(sk: Seq<u8>, msg: Seq<u8>, dst: Seq<u8>) -> Seq<u8>;

/// Relies on blst's `min_pk::SecretKey::from_bytes` and `sk_to_pk().compress()`: the
/// 48-byte compressed public key, which depends on the secret key alone; nothing exactly
/// where the bytes are not a valid secret key (not 32 bytes, zero, or not below the group
/// order, as `blst_sk_check` tests).
#[verifier::external_body]
fn bls_public_key(sk: &[u8]) -> (r: Option<[u8; 48]>)
    ensures
        r.is_some() <==> bls_sk_valid(sk@),
        r matches Some(pk) ==> pk@ == bls_public_key_of(sk@),
{
    SecretKey::from_bytes(sk).ok().map(|k| k.sk_to_pk().compress())
}

/// Relies on blst's `min_pk::SecretKey::from_bytes` (fails only on a length other than 32
/// or a failed `blst_sk_check`: zero or not below the group order) and
/// `sign(msg, dst, &[]).compress()`, which cannot fail: the 96-byte compressed signature,
/// which depends on the key, message and tag alone.
#[verifier::external_body]
fn bls_sign(sk: &[u8], msg: &[u8], dst: &[u8]) -> (r: Option<[u8; 96]>)
    ensures
        r.is_some() <==> bls_sk_valid(sk@),
        r matches Some(sig) ==> sig@ == bls_signature_of(sk@, msg@, dst@),
{
    SecretKey::from_bytes(sk).ok().map(|k| k.sign(msg, dst, &[]).compress())
}

/// Why a local signer could not be made or could not sign.
#[derive(Debug, Clone, Copy, PartialEq, Eq, Structural)]
pub enum SignerError {
    /// A secret key is not a valid BLS secret key, or not 32 bytes of hex.
    InvalidSecretKey,
    /// No held secret key belongs to the requested public key.
    UnknownPublicKey,
}

/// BLS secret keys held in memory, with their public keys, signing for one chain.
#[derive(Debug)]
pub struct LocalSigner {
    pub secret_keys: Vec<Vec<u8>>,
    pub public_keys: Vec<[u8; 48]>,
    pub chain: Chain,
}

/// The position of the first of `keys` equal to `k`.
pub open spec fn key_index(keys: Seq<[u8; 48]>, k: Seq<u8>) -> Option<int>
    decreases keys.len(),
{
    if keys.len() == 0 {
        None
    } else if keys[0]@ == k {
        Some(0)
    } else {
        match key_index(keys.drop_first(), k) {
            Some(i) => Some(i + 1),
            None => None,
        }
    }
}

impl LocalSigner {
    /// Every secret key is valid, and every public key belongs to the secret key at its
    /// position.
    pub open spec fn wf(&self) -> bool {
        &&& self.public_keys@.len() == self.secret_keys@.len()
        &&& forall|i: int|
            0 <= i < self.secret_keys@.len() ==> (#[trigger] self.public_keys@[i])@
                == bls_public_key_of(self.secret_keys@[i]@) && bls_sk_valid(self.secret_keys@[i]@)
    }

    /// A signer over `secret_keys`; fails if any of them is not a valid secret key.
    pub fn new(secret_keys: Vec<Vec<u8>>, chain: Chain) -> (r: Result<Self, SignerError>)
        ensures
            r.is_ok() <==> forall|i: int| 0 <= i < secret_keys@.len() ==> #[trigger] bls_sk_valid(secret_keys@[i]@),
            r matches Ok(s) ==> s.wf() && s.secret_keys@ == secret_keys@ && s.chain == chain,
            r matches Err(e) ==> e == SignerError::InvalidSecretKey,
    {
        let mut public_keys: Vec<[u8; 48]> = Vec::new();
        let mut i: usize = 0;
        while i < secret_keys.len()
            invariant
                0 <= i <= secret_keys@.len(),
                public_keys@.len() == i,
                forall|j: int| 0 <= j < i ==> (#[trigger] public_keys@[j])@ == bls_public_key_of(secret_keys@[j]@),
                forall|j: int| 0 <= j < i ==> #[trigger] bls_sk_valid(secret_keys@[j]@),
            decreases secret_keys@.len() - i,
        {
            match bls_public_key(secret_keys[i].as_slice()) {
                Some(pk) => public_keys.push(pk),
                None => {
                    return Err(SignerError::InvalidSecretKey);
                },
            }
            i = i + 1;
        }
        Ok(LocalSigner { secret_keys, public_keys, chain })
    }

    /// The public keys this signer holds, in order.
    pub fn available_pubkeys(&self) -> (r: Vec<BlsPublicKey>)
        requires
            self.wf(),
        ensures
            r@.len() == self.secret_keys@.len(),
            forall|i: int| 0 <= i < r@.len() ==> (#[trigger] r@[i])@ == bls_public_key_of(self.secret_keys@[i]@),
    {
        let mut r: Vec<BlsPublicKey> = Vec::new();
        let mut i: usize = 0;
        while i < self.public_keys.len()
            invariant
                0 <= i <= self.public_keys@.len(),
                self.wf(),
                r@.len() == i,
                forall|j: int| 0 <= j < i ==> (#[trigger] r@[j])@ == self.public_keys@[j]@,
            decreases self.public_keys@.len() - i,
        {
            let mut k: Vec<u8> = Vec::new();
            crate::crypto::append_bytes(&mut k, self.public_keys[i].as_slice());
            r.push(k);
            i = i + 1;
        }
        r
    }

    /// The position of the secret key whose public key is `pubkey`.
    fn find_key(&self, pubkey: &BlsPublicKey) -> (r: Option<usize>)
        ensures
            opt_usize(r) == key_index(self.public_keys@, pubkey@),
            r matches Some(i) ==> i < self.public_keys@.len(),
    {
        let mut i: usize = 0;
        assert(self.public_keys@.skip(0) =~= self.public_keys@);
        while i < self.public_keys.len()
            invariant
                0 <= i <= self.public_keys@.len(),
                key_index(self.public_keys@, pubkey@) == match key_index(
                    self.public_keys@.skip(i as int),
                    pubkey@,
                ) {
                    Some(k) => Some(k + i),
                    None => None::<int>,
                },
            decreases self.public_keys@.len() - i,
        {
            let ghost rest = self.public_keys@.skip(i as int);
            assert(rest[0] == self.public_keys@[i as int]);
            assert(rest.drop_first() =~= self.public_keys@.skip(i + 1));
            let mut candidate: Vec<u8> = Vec::new();
            crate::crypto::append_bytes(&mut candidate, self.public_keys[i].as_slice());
            let same = candidate == *pubkey;
            if same {
                assert(candidate@ =~= pubkey@);
                return Some(i);
            }
            assert(self.public_keys@[i as int]@ != pubkey@) by {
                if self.public_keys@[i as int]@ == pubkey@ {
                    assert(candidate@ =~= pubkey@);
                }
            }
            i = i + 1;
        }
        None
    }

    /// Signs `digest` under `pubkey`: the BLS signature, with the Ethereum tag, of the
    /// commit-boost signing root of the digest on this signer's chain.
    pub fn sign_commit_boost_root(&self, digest: &[u8; 32], pubkey: &BlsPublicKey) -> (r: Result<
        BlsSignature,
        SignerError,
    >)
        ensures
            self.wf() && key_index(self.public_keys@, pubkey@).is_some() ==> r.is_ok(),
            key_index(self.public_keys@, pubkey@).is_none() ==> r == Err::<BlsSignature, SignerError>(
                SignerError::UnknownPublicKey,
            ),
            r matches Ok(sig) ==> key_index(self.public_keys@, pubkey@) matches Some(i) && sig@
                == bls_signature_of(
                self.secret_keys@[i]@,
                signing_root(self.chain, digest@),
                ETH_BLS_DST.spec_bytes(),
            ),
    {
        let i = match self.find_key(pubkey) {
            Some(i) => i,
            None => {
                return Err(SignerError::UnknownPublicKey);
            },
        };
        if i >= self.secret_keys.len() {
            return Err(SignerError::UnknownPublicKey);
        }
        let root = compute_signing_root(self.chain, digest);
        proof {
            if self.wf() {
                assert(self.public_keys@[i as int]@ == bls_public_key_of(self.secret_keys@[i as int]@));
            }
        }
        match bls_sign(self.secret_keys[i].as_slice(), root.as_slice(), ETH_BLS_DST.as_bytes()) {
            Some(sig) => {
                let mut out: Vec<u8> = Vec::new();
                crate::crypto::append_bytes(&mut out, sig.as_slice());
                Ok(out)
            },
            None => Err(SignerError::InvalidSecretKey),
        }
    }
}

/// An optional position, as an integer.
pub open spec fn opt_usize(o: Option<usize>) -> Option<int> {
    match o {
        Some(i) => Some(i as int),
        None => None,
    }
}

/// Whether `c` is ASCII whitespace.
pub open spec fn is_ascii_space(c: u8) -> bool {
    c == 32 || (9 <= c <= 13)
}

/// `s` without leading ASCII whitespace.
pub open spec fn trim_start(s: Seq<u8>) -> Seq<u8>
    decreases s.len(),
{
    if s.len() > 0 && is_ascii_space(s[0]) {
        trim_start(s.drop_first())
    } else {
        s
    }
}

/// `s` without trailing ASCII whitespace.
pub open spec fn trim_end(s: Seq<u8>) -> Seq<u8>
    decreases s.len(),
{
    if s.len() > 0 && is_ascii_space(s.last()) {
        trim_end(s.drop_last())
    } else {
        s
    }
}

/// The secret key that a text stands for: 32 bytes of hex, with an optional `0x`, once
/// surrounding whitespace is removed.
pub open spec fn secret_key_of(text: Seq<u8>) -> Option<Seq<u8>> {
    match parse_field(trim_end(trim_start(text))) {
        Some(b) => if b.len() == 32 {
            Some(b)
        } else {
            None
        },
        None => None,
    }
}

/// Reads a secret key from text.
pub fn parse_secret_key(text: &[u8]) -> (r: Result<Vec<u8>, SignerError>)
    ensures
        match r {
            Ok(k) => secret_key_of(text@) == Some(k@),
            Err(e) => secret_key_of(text@).is_none() && e == SignerError::InvalidSecretKey,
        },
{
    let mut start: usize = 0;
    assert(text@.subrange(0, text@.len() as int) =~= text@);
    while start < text.len() && (text[start] == 32u8 || (9u8 <= text[start] && text[start] <= 13u8))
        invariant
            0 <= start <= text@.len(),
            trim_start(text@) == trim_start(text@.subrange(start as int, text@.len() as int)),
        decreases text@.len() - start,
    {
        let ghost rest = text@.subrange(start as int, text@.len() as int);
        assert(rest.drop_first() =~= text@.subrange(start + 1, text@.len() as int));
        start = start + 1;
    }
    let ghost front = text@.subrange(start as int, text@.len() as int);
    assert(trim_start(text@) == front);
    let mut end: usize = text.len();
    assert(front.subrange(0, front.len() as int) =~= front);
    while end > start && (text[end - 1] == 32u8 || (9u8 <= text[end - 1] && text[end - 1] <= 13u8))
        invariant
            start <= end <= text@.len(),
            front == text@.subrange(start as int, text@.len() as int),
            trim_end(front) == trim_end(text@.subrange(start as int, end as int)),
        decreases end - start,
    {
        let ghost rest = text@.subrange(start as int, end as int);
        assert(rest.drop_last() =~= text@.subrange(start as int, end - 1));
        end = end - 1;
    }
    let (head, _) = text.split_at(end);
    let (_, core) = head.split_at(start);
    assert(core@ =~= text@.subrange(start as int, end as int));
    let bytes = match decode_hex_field(core) {
        Ok(b) => b,
        Err(_) => {
            return Err(SignerError::InvalidSecretKey);
        },
    };
    if bytes.len() != 32 {
        return Err(SignerError::InvalidSecretKey);
    }
    Ok(bytes)
}

/// The public keys of the given secret keys (texts of hex), in order.
pub fn list_from_local_keys(secret_keys: &Vec<Vec<u8>>) -> (r: Result<Vec<BlsPublicKey>, SignerError>)
    ensures
        (exists|i: int| 0 <= i < secret_keys@.len() && (#[trigger] secret_key_of(secret_keys@[i]@)).is_none())
            ==> r.is_err(),
        (forall|i: int|
            0 <= i < secret_keys@.len() ==> (#[trigger] secret_key_of(secret_keys@[i]@)).is_some()
                && bls_sk_valid(secret_key_of(secret_keys@[i]@).unwrap())) ==> r.is_ok(),
        r.is_ok() ==> forall|i: int|
            0 <= i < secret_keys@.len() ==> (#[trigger] secret_key_of(secret_keys@[i]@)).is_some()
                && bls_sk_valid(secret_key_of(secret_keys@[i]@).unwrap()),
        r matches Ok(pks) ==> pks@.len() == secret_keys@.len() && forall|i: int|
            0 <= i < pks@.len() ==> secret_key_of(secret_keys@[i]@).is_some() && (#[trigger] pks@[i])@
                == bls_public_key_of(secret_key_of(secret_keys@[i]@).unwrap()),
{
    let mut pubkeys: Vec<BlsPublicKey> = Vec::new();
    let mut i: usize = 0;
    while i < secret_keys.len()
        invariant
            0 <= i <= secret_keys@.len(),
            pubkeys@.len() == i,
            forall|j: int| 0 <= j < i ==> (#[trigger] secret_key_of(secret_keys@[j]@)).is_some(),
            forall|j: int| 0 <= j < i ==> bls_sk_valid(#[trigger] secret_key_of(secret_keys@[j]@).unwrap()),
            forall|j: int|
                0 <= j < i ==> (#[trigger] pubkeys@[j])@ == bls_public_key_of(
                    secret_key_of(secret_keys@[j]@).unwrap(),
                ),
        decreases secret_keys@.len() - i,
    {
        let sk = parse_secret_key(secret_keys[i].as_slice())?;
        match bls_public_key(sk.as_slice()) {
            Some(pk) => {
                let mut k: Vec<u8> = Vec::new();
                crate::crypto::append_bytes(&mut k, pk.as_slice());
                pubkeys.push(k);
            },
            None => {
                return Err(SignerError::InvalidSecretKey);
            },
        }
        i = i + 1;
    }
    Ok(pubkeys)
}

} // verus!
