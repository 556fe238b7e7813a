use alloy::consensus::{SignableTransaction, TxEnvelope, TxLegacy};
use alloy::eips::eip2718::Encodable2718;
use alloy::primitives::{Address, TxKind, B256, U256};
use alloy::signers::local::PrivateKeySigner;
use alloy::signers::SignerSync;
use bolt_sidecar::commitment::InclusionRequest;
use bolt_sidecar::wire::{decode_txs, encode_hex_field, WireError};

fn legacy_envelope(nonce: u64) -> Vec<u8> {
    let tx = TxLegacy {
        chain_id: Some(1),
        nonce,
        gas_price: 100,
        gas_limit: 21_000,
        to: TxKind::Call(Address::ZERO),
        value: U256::from(7u64),
        input: Default::default(),
    };
    let signer = PrivateKeySigner::from_bytes(&B256::from([3u8; 32])).unwrap();
    let sig = signer.sign_hash_sync(&tx.signature_hash()).unwrap();
    TxEnvelope::Legacy(tx.into_signed(sig)).encoded_2718()
}

#[test]
fn transactions_decoded_from_wire_text() {
    let envelope = legacy_envelope(5);
    let texts = vec![encode_hex_field(&envelope), encode_hex_field(&legacy_envelope(6))];
    let txs = decode_txs(&texts).unwrap();
    assert_eq!(txs.len(), 2);
    assert_eq!(txs[0].envelope, envelope);
    assert_eq!(txs[0].nonce, 5);
    assert_eq!(txs[1].nonce, 6);
    assert_eq!(txs[0].gas_limit, 21_000);
    assert_eq!(txs[0].max_fee_per_gas, 100);
    assert_eq!(txs[0].value, 7);
    assert_eq!(txs[0].chain_id, Some(1));
    assert_eq!(txs[0].blob_count, 0);
    assert_eq!(txs[0].max_fee_per_blob_gas, 0);
    assert!(txs[0].blobs_verified);
    let signer = PrivateKeySigner::from_bytes(&B256::from([3u8; 32])).unwrap();
    assert_eq!(txs[0].sender, Some(signer.address().to_vec()));
}

#[test]
fn malformed_transactions_are_rejected() {
    assert_eq!(decode_txs(&vec![b"0xzz".to_vec()]).err(), Some(WireError::InvalidHex));
    assert_eq!(decode_txs(&vec![b"0x0102".to_vec()]).err(), Some(WireError::InvalidTransaction));
    let mut trailing = legacy_envelope(1);
    trailing.push(0);
    assert_eq!(decode_txs(&vec![encode_hex_field(&trailing)]).err(), Some(WireError::InvalidTransaction));
}

#[test]
fn commitment_key_outside_the_group_is_refused() {
    let req = InclusionRequest { slot: 1, txs: vec![], signature: vec![] };
    assert!(req.commit_and_sign(&[0xffu8; 32]).is_none());
    assert!(req.commit_and_sign(&[0u8; 32]).is_none());
    assert!(req.commit_and_sign(&[1u8; 32]).is_some());
}
