use blst::min_pk::{PublicKey, SecretKey, Signature};
use blst::BLST_ERROR;
use bolt_sidecar::cli::Chain;
use bolt_sidecar::commitment::compute_signing_root;
use bolt_sidecar::signer::{
    list_from_local_keys, parse_secret_key, LocalSigner, SignerError, ETH_BLS_DST,
};

fn secret(b: u8) -> Vec<u8> {
    let mut k = vec![0u8; 32];
    k[31] = b;
    k
}

fn expected_pubkey(sk: &[u8]) -> Vec<u8> {
    SecretKey::from_bytes(sk).unwrap().sk_to_pk().compress().to_vec()
}

#[test]
fn signer_derives_public_keys() {
    let signer = LocalSigner::new(vec![secret(1), secret(2)], Chain::Holesky).unwrap();
    let pks = signer.available_pubkeys();
    assert_eq!(pks, vec![expected_pubkey(&secret(1)), expected_pubkey(&secret(2))]);
    assert_eq!(pks[0].len(), 48);
}

#[test]
fn signer_rejects_invalid_secret_key() {
    assert_eq!(LocalSigner::new(vec![secret(1), vec![0u8; 32]], Chain::Mainnet).err(), Some(SignerError::InvalidSecretKey));
    assert_eq!(LocalSigner::new(vec![vec![1u8; 31]], Chain::Mainnet).err(), Some(SignerError::InvalidSecretKey));
}

#[test]
fn signature_verifies_over_signing_root() {
    let signer = LocalSigner::new(vec![secret(1), secret(2)], Chain::Holesky).unwrap();
    let pk = expected_pubkey(&secret(2));
    let digest = [5u8; 32];
    let sig = signer.sign_commit_boost_root(&digest, &pk).unwrap();
    assert_eq!(sig.len(), 96);
    let root = compute_signing_root(Chain::Holesky, &digest);
    let sig = Signature::from_bytes(&sig).unwrap();
    let pk = PublicKey::from_bytes(&pk).unwrap();
    assert_eq!(sig.verify(true, &root, ETH_BLS_DST.as_bytes(), &[], &pk, true), BLST_ERROR::BLST_SUCCESS);
    let other_root = compute_signing_root(Chain::Mainnet, &digest);
    assert_ne!(sig.verify(true, &other_root, ETH_BLS_DST.as_bytes(), &[], &pk, true), BLST_ERROR::BLST_SUCCESS);
}

#[test]
fn signing_with_unknown_key_fails() {
    let signer = LocalSigner::new(vec![secret(1)], Chain::Mainnet).unwrap();
    assert_eq!(signer.sign_commit_boost_root(&[0u8; 32], &vec![9u8; 48]), Err(SignerError::UnknownPublicKey));
}

#[test]
fn secret_key_text_is_trimmed_and_decoded() {
    let text = format!("  0x{}\n", hex::encode(secret(3)));
    assert_eq!(parse_secret_key(text.as_bytes()), Ok(secret(3)));
    assert_eq!(parse_secret_key(hex::encode(secret(3)).as_bytes()), Ok(secret(3)));
    assert_eq!(parse_secret_key(b"0x1234"), Err(SignerError::InvalidSecretKey));
    assert_eq!(parse_secret_key(b"  "), Err(SignerError::InvalidSecretKey));
}

#[test]
fn keys_listed_from_local_secrets() {
    let texts = vec![format!("0x{}", hex::encode(secret(1))).into_bytes(), hex::encode(secret(2)).into_bytes()];
    assert_eq!(
        list_from_local_keys(&texts),
        Ok(vec![expected_pubkey(&secret(1)), expected_pubkey(&secret(2))])
    );
    let bad = vec![hex::encode(secret(1)).into_bytes(), b"zz".to_vec()];
    assert_eq!(list_from_local_keys(&bad), Err(SignerError::InvalidSecretKey));
}
