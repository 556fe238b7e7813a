use alloy::primitives::{Signature, B256};
use alloy::signers::k256::sha2::{Digest, Sha256};
use alloy::signers::local::PrivateKeySigner;
use bolt_sidecar::cli::{Action, Chain};
use bolt_sidecar::commitment::{compute_domain, compute_signing_root, tx_hash, InclusionRequest};
use bolt_sidecar::crypto::u64_le_bytes;
use bolt_sidecar::delegation::{
    pick_public_key, DelegationMessage, DelegationStore, RevocationMessage, SignedDelegation,
};
use bolt_sidecar::template::{ConstraintsMessage, FullTransaction};
use bolt_sidecar::wire::{
    decode_batch, decode_constraint, decode_hex_field, encode_batch, encode_hex_field,
    RelayConstraint, WireConstraint, WireError,
};

fn key(b: u8) -> Vec<u8> {
    vec![b; 48]
}

fn delegation(v: u8, d: u8) -> SignedDelegation {
    SignedDelegation {
        message: DelegationMessage { validator_pubkey: key(v), delegatee_pubkey: key(d) },
        signature: vec![0; 96],
    }
}

#[test]
fn fork_versions() {
    assert_eq!(Chain::Mainnet.fork_version(), [0, 0, 0, 0]);
    assert_eq!(Chain::Holesky.fork_version(), [1, 1, 112, 0]);
    assert_eq!(Chain::Helder.fork_version(), [16, 0, 0, 0]);
    assert_eq!(Chain::Kurtosis.fork_version(), [16, 0, 0, 56]);
    assert_ne!(Action::Delegate, Action::Revoke);
}

#[test]
fn pick_validator_key_without_delegatees() {
    assert_eq!(pick_public_key(key(1), &vec![key(1), key(2)], &vec![]), Some(key(1)));
    assert_eq!(pick_public_key(key(1), &vec![key(2)], &vec![]), None);
}

#[test]
fn pick_first_available_delegatee() {
    let available = vec![key(3), key(4)];
    assert_eq!(pick_public_key(key(1), &available, &vec![key(2), key(4), key(3)]), Some(key(4)));
    assert_eq!(pick_public_key(key(1), &available, &vec![key(2), key(5)]), None);
    // With delegatees, the validator's own key is not used even when available.
    assert_eq!(pick_public_key(key(1), &vec![key(1)], &vec![key(2)]), None);
}

#[test]
fn delegation_chosen_over_validator_key() {
    let mut store = DelegationStore::new();
    store.add_delegations(vec![delegation(0x70, 0xd0)]);
    let delegatees = store.find_delegatees(&key(0x70));
    assert_eq!(delegatees, vec![key(0xd0)]);
    assert_eq!(pick_public_key(key(0x70), &vec![key(0xd0)], &delegatees), Some(key(0xd0)));
}

#[test]
fn delegatees_in_file_order_without_repeats() {
    let mut store = DelegationStore::new();
    store.add_delegations(vec![delegation(1, 5), delegation(2, 6), delegation(1, 3), delegation(1, 5)]);
    assert_eq!(store.find_delegatees(&key(1)), vec![key(5), key(3)]);
    assert_eq!(store.find_delegatees(&key(2)), vec![key(6)]);
    assert_eq!(store.find_delegatees(&key(9)), Vec::<Vec<u8>>::new());
}

#[test]
fn delegation_digest_is_sha256_of_keys() {
    let m = DelegationMessage { validator_pubkey: key(1), delegatee_pubkey: key(2) };
    let mut h = Sha256::new();
    h.update(key(1));
    h.update(key(2));
    let expected: [u8; 32] = h.finalize().into();
    assert_eq!(m.digest(), expected);
    let r = RevocationMessage { validator_pubkey: key(1), delegatee_pubkey: key(2) };
    assert_eq!(r.digest(), expected);
    let swapped = DelegationMessage { validator_pubkey: key(2), delegatee_pubkey: key(1) };
    assert_ne!(swapped.digest(), expected);
}

#[test]
fn sha256_known_vector() {
    let empty = DelegationMessage { validator_pubkey: vec![], delegatee_pubkey: b"abc".to_vec() };
    assert_eq!(
        hex::encode(empty.digest()),
        "ba7816bf8f01cfea414140de5dae2223b00361a396177a9cb410ff61f20015ad"
    );
}

fn plain_tx(envelope: Vec<u8>) -> FullTransaction {
    FullTransaction {
        envelope,
        sender: None,
        chain_id: None,
        nonce: 0,
        gas_limit: 0,
        max_fee_per_gas: 0,
        value: 0,
        blob_count: 0,
        max_fee_per_blob_gas: 0,
        blobs_verified: true,
    }
}

#[test]
fn keccak_known_vector() {
    assert_eq!(
        hex::encode(tx_hash(&plain_tx(vec![]))),
        "c5d2460186f7233c927e7db2dcc703c0e500b653ca82273b7bfad8045d85a470"
    );
}

#[test]
fn request_digest_covers_slot_and_hashes() {
    let a = InclusionRequest { slot: 10, txs: vec![plain_tx(vec![1]), plain_tx(vec![2])], signature: vec![] };
    let mut buf = 10u64.to_le_bytes().to_vec();
    buf.extend_from_slice(&alloy::primitives::keccak256([1u8]).0);
    buf.extend_from_slice(&alloy::primitives::keccak256([2u8]).0);
    assert_eq!(a.digest(), alloy::primitives::keccak256(&buf).0);
    let b = InclusionRequest { slot: 11, txs: vec![plain_tx(vec![1]), plain_tx(vec![2])], signature: vec![] };
    assert_ne!(a.digest(), b.digest());
}

fn sha(parts: &[&[u8]]) -> [u8; 32] {
    let mut h = Sha256::new();
    for p in parts {
        h.update(p);
    }
    h.finalize().into()
}

#[test]
fn constraint_digest_is_ssz_root() {
    let m = ConstraintsMessage { pubkey: key(1), slot: 10, tx: plain_tx(vec![9, 9]) };
    let mut pk_hi = [0u8; 32];
    pk_hi[..16].copy_from_slice(&key(1)[32..]);
    let pubkey_root = sha(&[&key(1)[..32], &pk_hi]);
    let mut slot_chunk = [0u8; 32];
    slot_chunk[..8].copy_from_slice(&10u64.to_le_bytes());
    let mut chunk = [0u8; 32];
    chunk[..2].copy_from_slice(&[9, 9]);
    let mut node = chunk;
    let mut zero = [0u8; 32];
    for _ in 0..25 {
        node = sha(&[&node, &zero]);
        zero = sha(&[&zero, &zero]);
    }
    let mut len_chunk = [0u8; 32];
    len_chunk[..8].copy_from_slice(&2u64.to_le_bytes());
    let tx_root = sha(&[&node, &len_chunk]);
    let expected = sha(&[&sha(&[&pubkey_root, &slot_chunk]), &sha(&[&tx_root, &[0u8; 32]])]);
    assert_eq!(m.digest(), expected);

    let empty = ConstraintsMessage { pubkey: key(1), slot: 10, tx: plain_tx(vec![]) };
    let empty_tx_root = sha(&[&zero, &[0u8; 32]]);
    let expected_empty = sha(&[&sha(&[&pubkey_root, &slot_chunk]), &sha(&[&empty_tx_root, &[0u8; 32]])]);
    assert_eq!(empty.digest(), expected_empty);
}

#[test]
fn little_endian_bytes() {
    assert_eq!(u64_le_bytes(0x0102030405060708), vec![8, 7, 6, 5, 4, 3, 2, 1]);
    assert_eq!(u64_le_bytes(u64::MAX), vec![255; 8]);
}

#[test]
fn signing_domain_layout() {
    let d = compute_domain(Chain::Mainnet);
    assert_eq!(d.len(), 32);
    assert_eq!(&d[0..4], &[109, 109, 111, 67]);
    let mut fork_data = vec![0u8; 64];
    fork_data[0..4].copy_from_slice(&Chain::Holesky.fork_version());
    let root: [u8; 32] = Sha256::digest(&fork_data).into();
    let holesky = compute_domain(Chain::Holesky);
    assert_eq!(&holesky[4..], &root[..28]);
    let digest = [3u8; 32];
    let mut h = Sha256::new();
    h.update(digest);
    h.update(&holesky);
    let expected: [u8; 32] = h.finalize().into();
    assert_eq!(compute_signing_root(Chain::Holesky, &digest), expected);
    assert_ne!(compute_signing_root(Chain::Mainnet, &digest), expected);
}

#[test]
fn hex_fields() {
    assert_eq!(encode_hex_field(&[0xde, 0xad, 0x01]), b"0xdead01".to_vec());
    assert_eq!(encode_hex_field(&[]), b"0x".to_vec());
    assert_eq!(decode_hex_field(b"0xDEad01"), Ok(vec![0xde, 0xad, 0x01]));
    assert_eq!(decode_hex_field(b"0x0xab"), Ok(vec![0xab]));
    assert_eq!(decode_hex_field(b"ab"), Ok(vec![0xab]));
    assert_eq!(decode_hex_field(b"0xabc"), Err(WireError::InvalidHex));
    assert_eq!(decode_hex_field(b"0xzz"), Err(WireError::InvalidHex));
}

#[test]
fn relay_batch_round_trip() {
    let batch = vec![
        RelayConstraint { pubkey: key(1), slot: 10, transaction: vec![2, 0xff, 0], signature: vec![9; 96] },
        RelayConstraint { pubkey: key(2), slot: 10, transaction: vec![], signature: vec![8; 96] },
    ];
    let wire = encode_batch(&batch);
    assert_eq!(wire.len(), 2);
    assert_eq!(wire[0].transaction, b"0x02ff00".to_vec());
    let back = decode_batch(&wire).unwrap();
    assert_eq!(back.len(), 2);
    for (a, b) in batch.iter().zip(back.iter()) {
        assert_eq!(a.pubkey, b.pubkey);
        assert_eq!(a.slot, b.slot);
        assert_eq!(a.transaction, b.transaction);
        assert_eq!(a.signature, b.signature);
    }
    let bad = WireConstraint { pubkey: b"0x1".to_vec(), slot: 1, transaction: b"0x".to_vec(), signature: b"0x".to_vec() };
    assert!(decode_constraint(&bad).is_err());
    assert!(decode_batch(&vec![wire[0].clone(), bad]).is_err());
}

#[test]
fn commitment_signature_recovers_to_signer() {
    let key = [7u8; 32];
    let req = InclusionRequest { slot: 10, txs: vec![plain_tx(vec![1, 2, 3])], signature: vec![] };
    let c = req.commit_and_sign(&key).unwrap();
    assert_eq!(c.digest, req.digest());
    let sig = Signature::from_raw_array(&c.signature).unwrap();
    let signer = PrivateKeySigner::from_bytes(&B256::from(key)).unwrap();
    assert_eq!(sig.recover_address_from_prehash(&B256::from(c.digest)).unwrap(), signer.address());
    assert!(req.commit_and_sign(&[0u8; 32]).is_none());
}

fn byte_list_root_reference(data: &[u8]) -> [u8; 32] {
    let mut layer: Vec<[u8; 32]> = data
        .chunks(32)
        .map(|c| {
            let mut chunk = [0u8; 32];
            chunk[..c.len()].copy_from_slice(c);
            chunk
        })
        .collect();
    let mut zero = [0u8; 32];
    for _ in 0..25 {
        if layer.is_empty() {
            layer.push(zero);
        }
        if layer.len() % 2 == 1 {
            layer.push(zero);
        }
        layer = layer.chunks(2).map(|p| sha(&[&p[0], &p[1]])).collect();
        zero = sha(&[&zero, &zero]);
    }
    let mut len_chunk = [0u8; 32];
    len_chunk[..8].copy_from_slice(&(data.len() as u64).to_le_bytes());
    sha(&[&layer[0], &len_chunk])
}

#[test]
fn byte_list_root_of_several_chunks() {
    for n in [1usize, 31, 32, 33, 64, 70, 200] {
        let data: Vec<u8> = (0..n).map(|i| i as u8).collect();
        assert_eq!(bolt_sidecar::ssz::hash_byte_list(&data), byte_list_root_reference(&data).to_vec());
    }
}
