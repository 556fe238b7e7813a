//! BLS public keys, delegation and revocation records, and the choice of the key that
//! signs constraints.
use vstd::prelude::*;
use crate::crypto::{append_bytes, sha256, sha256_of};

verus! {

/// A BLS public key in its 48-byte compressed encoding.
pub type BlsPublicKey = Vec<u8>;

/// A BLS signature in its 96-byte compressed encoding.
pub type BlsSignature = Vec<u8>;

/// A message by which a validator delegates constraint signing to another key.
#[derive(Debug, Clone)]
pub struct DelegationMessage {
    pub validator_pubkey: BlsPublicKey,
    pub delegatee_pubkey: BlsPublicKey,
}

/// A delegation message with the validator's BLS signature.
#[derive(Debug, Clone)]
pub struct SignedDelegation {
    pub message: DelegationMessage,
    pub signature: BlsSignature,
}

/// A message by which a validator withdraws a delegation.
#[derive(Debug, Clone)]
pub struct RevocationMessage {
    pub validator_pubkey: BlsPublicKey,
    pub delegatee_pubkey: BlsPublicKey,
}

/// A revocation message with the validator's BLS signature.
#[derive(Debug, Clone)]
pub struct SignedRevocation {
    pub message: RevocationMessage,
    pub signature: BlsSignature,
}

/// The SHA-256 digest of a validator key followed by a delegatee key.
fn key_pair_digest(validator: &BlsPublicKey, delegatee: &BlsPublicKey) -> (r: [u8; 32])
    ensures
        r@ == sha256_of(validator@ + delegatee@),
{
    let mut buf: Vec<u8> = Vec::new();
    append_bytes(&mut buf, validator.as_slice());
    append_bytes(&mut buf, delegatee.as_slice());
    sha256(buf.as_slice())
}

impl DelegationMessage {
    /// The digest that the validator signs: `sha256(validator_pubkey ‖ delegatee_pubkey)`.
    pub fn digest(&self) -> (r: [u8; 32])
        ensures
            r@ == sha256_of(self.validator_pubkey@ + self.delegatee_pubkey@),
    {
        key_pair_digest(&self.validator_pubkey, &self.delegatee_pubkey)
    }
}

impl RevocationMessage {
    /// The digest that the validator signs: `sha256(validator_pubkey ‖ delegatee_pubkey)`.
    pub fn digest(&self) -> (r: [u8; 32])
        ensures
            r@ == sha256_of(self.validator_pubkey@ + self.delegatee_pubkey@),
    {
        key_pair_digest(&self.validator_pubkey, &self.delegatee_pubkey)
    }
}

/// The first key of `ds` that `avail` holds, if any.
pub open spec fn first_available(ds: Seq<Seq<u8>>, avail: Seq<Seq<u8>>) -> Option<Seq<u8>>
    decreases ds.len(),
{
    if ds.len() == 0 {
        None
    } else if avail.contains(ds[0]) {
        Some(ds[0])
    } else {
        first_available(ds.drop_first(), avail)
    }
}

/// The key that signs constraints for `validator`: the validator's own key when it has no
/// delegatees and that key is available; otherwise the first available delegatee.
pub open spec fn picked_key(validator: Seq<u8>, avail: Seq<Seq<u8>>, ds: Seq<Seq<u8>>) -> Option<
    Seq<u8>,
> {
    if ds.len() == 0 {
        if avail.contains(validator) {
            Some(validator)
        } else {
            None
        }
    } else {
        first_available(ds, avail)
    }
}

/// The view of an optional key.
pub open spec fn opt_key_view(k: Option<BlsPublicKey>) -> Option<Seq<u8>> {
    match k {
        Some(v) => Some(v@),
        None => None,
    }
}

/// Whether `keys` holds `k`.
pub fn contains_key(keys: &Vec<BlsPublicKey>, k: &BlsPublicKey) -> (r: bool)
    ensures
        r == keys.deep_view().contains(k@),
{
    let mut i: usize = 0;
    while i < keys.len()
        invariant
            0 <= i <= keys@.len(),
            forall|j: int| 0 <= j < i ==> keys@[j]@ != k@,
        decreases keys@.len() - i,
    {
        if keys[i] == *k {
            assert(keys.deep_view()[i as int] == k@);
            return true;
        }
        i = i + 1;
    }
    assert(!keys.deep_view().contains(k@)) by {
        if keys.deep_view().contains(k@) {
            let j = choose|j: int| 0 <= j < keys.deep_view().len() && keys.deep_view()[j] == k@;
            assert(keys@[j]@ == k@);
        }
    }
    false
}

/// Pick the public key that signs constraints for `validator`.
///
/// With no delegatees, the validator's own key is used if it is available. With
/// delegatees, the first one (in the order given) that is available is used.
pub fn pick_public_key(
    validator: BlsPublicKey,
    available: &Vec<BlsPublicKey>,
    delegatees: &Vec<BlsPublicKey>,
) -> (r: Option<BlsPublicKey>)
    ensures
        opt_key_view(r) == picked_key(validator@, available.deep_view(), delegatees.deep_view()),
{
    if delegatees.len() == 0 {
        if contains_key(available, &validator) {
            return Some(validator);
        } else {
            return None;
        }
    }
    let mut i: usize = 0;
    assert(delegatees.deep_view().skip(0) =~= delegatees.deep_view());
    while i < delegatees.len()
        invariant
            0 <= i <= delegatees@.len(),
            delegatees@.len() > 0,
            picked_key(validator@, available.deep_view(), delegatees.deep_view())
                == first_available(delegatees.deep_view().skip(i as int), available.deep_view()),
        decreases delegatees@.len() - i,
    {
        let ghost rest = delegatees.deep_view().skip(i as int);
        assert(rest[0] == delegatees[i as int]@);
        assert(rest.drop_first() =~= delegatees.deep_view().skip(i + 1));
        if contains_key(available, &delegatees[i]) {
            return Some(delegatees[i].clone());
        }
        i = i + 1;
    }
    None
}

/// The delegatees of `validator` among `records`, in order of first appearance, each once.
pub open spec fn delegatees_in(records: Seq<SignedDelegation>, validator: Seq<u8>) -> Seq<Seq<u8>>
    decreases records.len(),
{
    if records.len() == 0 {
        Seq::empty()
    } else {
        let prev = delegatees_in(records.drop_last(), validator);
        let m = records.last().message;
        if m.validator_pubkey@ == validator && !prev.contains(m.delegatee_pubkey@) {
            prev.push(m.delegatee_pubkey@)
        } else {
            prev
        }
    }
}

/// The delegations known to the constraints client, as loaded from the delegations file.
#[derive(Debug, Clone)]
pub struct DelegationStore {
    pub records: Vec<SignedDelegation>,
}

impl DelegationStore {
    /// A store with no delegations.
    pub fn new() -> (r: Self)
        ensures
            r.records@.len() == 0,
    {
        DelegationStore { records: Vec::new() }
    }

    /// Adds delegation records, keeping their order after the ones already held.
    pub fn add_delegations(&mut self, delegations: Vec<SignedDelegation>)
        ensures
            final(self).records@ == old(self).records@ + delegations@,
    {
        let mut delegations = delegations;
        self.records.append(&mut delegations);
    }

    /// The delegatees of `validator`, in the order in which they were added, each once.
    pub fn find_delegatees(&self, validator: &BlsPublicKey) -> (r: Vec<BlsPublicKey>)
        ensures
            r.deep_view() == delegatees_in(self.records@, validator@),
    {
        let mut r: Vec<BlsPublicKey> = Vec::new();
        let mut i: usize = 0;
        while i < self.records.len()
            invariant
                0 <= i <= self.records@.len(),
                r.deep_view() == delegatees_in(self.records@.subrange(0, i as int), validator@),
            decreases self.records@.len() - i,
        {
            let ghost prefix = self.records@.subrange(0, i + 1);
            assert(prefix.drop_last() =~= self.records@.subrange(0, i as int));
            assert(prefix.last() == self.records@[i as int]);
            let m = &self.records[i].message;
            let same = m.validator_pubkey == *validator;
            assert(same == (m.validator_pubkey@ == validator@)) by {
                if same {
                    assert(m.validator_pubkey@ =~= validator@);
                }
            }
            if same && !contains_key(&r, &m.delegatee_pubkey) {
                let d = m.delegatee_pubkey.clone();
                assert(d@ =~= m.delegatee_pubkey@);
                assert(d.deep_view() =~= d@);
                let ghost old_r = r.deep_view();
                r.push(d);
                assert(r.deep_view() =~= old_r.push(m.delegatee_pubkey@));
                assert(r.deep_view() =~= delegatees_in(prefix, validator@));
            }
            i = i + 1;
        }
        assert(self.records@.subrange(0, self.records@.len() as int) =~= self.records@);
        r
    }
}

} // verus!
