use bolt_sidecar::commitment::InclusionRequest;
use bolt_sidecar::consensus::{ConsensusError, ConsensusState, ProposerDuty};
use bolt_sidecar::delegation::{DelegationMessage, DelegationStore, SignedDelegation};
use bolt_sidecar::driver::{CommitmentError, SidecarDriver};
use bolt_sidecar::execution::ExecutionState;
use bolt_sidecar::relay::{RelayAction, RelaySubmission, SubmitOutcome};
use bolt_sidecar::template::{AccountState, FullTransaction, Limits, SignedConstraints};

const SECOND: u64 = 1_000_000_000;

fn key(b: u8) -> Vec<u8> {
    vec![b; 48]
}

fn legacy_tx(sender: u8, nonce: u64) -> FullTransaction {
    FullTransaction {
        envelope: vec![0xf8, sender, nonce as u8],
        sender: Some(vec![sender; 20]),
        chain_id: Some(1),
        nonce,
        gas_limit: 21_000,
        max_fee_per_gas: 100,
        value: 1,
        blob_count: 0,
        max_fee_per_blob_gas: 0,
        blobs_verified: true,
    }
}

fn head(nonce: u64) -> AccountState {
    AccountState { transaction_count: nonce, balance: 1_000_000_000_000_000_000, has_code: false }
}

/// Mainnet-like: validator 100 proposes slot 10; the head is slot 8, started at time 0.
fn driver(delegations: Vec<SignedDelegation>) -> SidecarDriver {
    let mut consensus = ConsensusState::new(vec![100], 8 * SECOND, false, 0);
    consensus.update_slot(8, 0);
    consensus.set_proposer_duties(vec![ProposerDuty { public_key: key(100), slot: 10, validator_index: 100 }], vec![]);
    let limits = Limits {
        chain_id: 1,
        max_tx_gas: 30_000_000,
        block_gas_limit: 30_000_000,
        max_blobs_per_block: 6,
        min_replacement_bump_percent: 10,
    };
    let mut store = DelegationStore::new();
    store.add_delegations(delegations);
    SidecarDriver::new(consensus, ExecutionState::new(limits), store)
}

#[test]
fn happy_path_commits_and_relays_once() {
    let mut d = driver(vec![]);
    let req = InclusionRequest { slot: 10, txs: vec![legacy_tx(0xA, 5)], signature: vec![] };
    let (pubkey, msgs) = d.prepare_inclusion(req, &vec![head(5)], 4 * SECOND, &vec![key(100)]).unwrap();
    assert_eq!(pubkey, key(100));
    assert_eq!(msgs.len(), 1);
    assert_eq!(msgs[0].slot, 10);
    assert_eq!(msgs[0].pubkey, key(100));
    for m in msgs {
        let signed = SignedConstraints { message: m, signature: vec![0xaa; 96] };
        d.admit_signed(signed, head(5)).unwrap();
    }
    assert!(d.handle_commitment_deadline(9).is_none());
    let relayed = d.handle_commitment_deadline(10).unwrap();
    assert_eq!(relayed.len(), 1);
    assert_eq!(relayed[0].pubkey, key(100));
    assert_eq!(relayed[0].slot, 10);
    assert_eq!(relayed[0].transaction, vec![0xf8, 0xA, 5]);
}

#[test]
fn deadline_crossed_leaves_template_untouched() {
    let d = driver(vec![]);
    let req = InclusionRequest { slot: 9, txs: vec![legacy_tx(0xA, 5)], signature: vec![] };
    let r = d.prepare_inclusion(req, &vec![head(5)], 8 * SECOND + 100_000_000, &vec![key(100)]);
    assert_eq!(r.err(), Some(CommitmentError::Consensus(ConsensusError::DeadlineExceeded)));
    assert!(d.handle_commitment_deadline(9).is_none());
}

#[test]
fn delegatee_signs_when_delegated() {
    let del = SignedDelegation {
        message: DelegationMessage { validator_pubkey: key(100), delegatee_pubkey: key(0xd) },
        signature: vec![0; 96],
    };
    let d = driver(vec![del]);
    let req = InclusionRequest { slot: 10, txs: vec![legacy_tx(0xA, 5)], signature: vec![] };
    let (pubkey, msgs) = d.prepare_inclusion(req, &vec![head(5)], SECOND, &vec![key(0xd)]).unwrap();
    assert_eq!(pubkey, key(0xd));
    assert_eq!(msgs[0].pubkey, key(0xd));
}

#[test]
fn no_available_key_is_internal_error() {
    let d = driver(vec![]);
    let req = InclusionRequest { slot: 10, txs: vec![legacy_tx(0xA, 5)], signature: vec![] };
    let r = d.prepare_inclusion(req, &vec![head(5)], SECOND, &vec![key(1)]);
    assert_eq!(r.err(), Some(CommitmentError::Internal));
}

#[test]
fn execution_reject_is_reported() {
    let d = driver(vec![]);
    let req = InclusionRequest { slot: 10, txs: vec![legacy_tx(0xA, 7)], signature: vec![] };
    let r = d.prepare_inclusion(req, &vec![head(5)], SECOND, &vec![key(100)]);
    assert_eq!(r.err(), Some(CommitmentError::Validation(bolt_sidecar::template::ExecutionError::NonceGap)));
}

#[test]
fn relayed_in_admission_order() {
    let mut d = driver(vec![]);
    let first = InclusionRequest { slot: 10, txs: vec![legacy_tx(0xA, 5), legacy_tx(0xB, 0)], signature: vec![] };
    let second = InclusionRequest { slot: 10, txs: vec![legacy_tx(0xC, 3)], signature: vec![] };
    for (req, heads) in [(first, vec![head(5), head(0)]), (second, vec![head(3)])] {
        let (_, msgs) = d.prepare_inclusion(req, &heads, SECOND, &vec![key(100)]).unwrap();
        for (m, h) in msgs.into_iter().zip(heads) {
            d.admit_signed(SignedConstraints { message: m, signature: vec![1; 96] }, h).unwrap();
        }
    }
    let relayed = d.handle_commitment_deadline(10).unwrap();
    let senders: Vec<u8> = relayed.iter().map(|c| c.transaction[1]).collect();
    assert_eq!(senders, vec![0xA, 0xB, 0xC]);
}

#[test]
fn head_and_slot_events() {
    let mut d = driver(vec![]);
    let req = InclusionRequest { slot: 10, txs: vec![legacy_tx(0xA, 5)], signature: vec![] };
    let (_, msgs) = d.prepare_inclusion(req, &vec![head(5)], SECOND, &vec![key(100)]).unwrap();
    for m in msgs {
        d.admit_signed(SignedConstraints { message: m, signature: vec![1; 96] }, head(5)).unwrap();
    }
    d.handle_new_head_event(11, &vec![]);
    assert!(d.handle_commitment_deadline(10).is_none());
    assert_eq!(d.handle_slot_tick(12, 5), None);
    assert_eq!(d.consensus.latest_slot, 12);
    assert_eq!(d.handle_slot_tick(32, 6), Some(1));
}

#[test]
fn relay_retry_exhaustion() {
    let mut s = RelaySubmission::new();
    let mut waits = vec![];
    loop {
        match s.on_outcome(SubmitOutcome::Status(502)) {
            RelayAction::RetryAfter(ms) => waits.push(ms),
            RelayAction::GiveUp => break,
            RelayAction::Done => panic!("a failing relay never accepts"),
        }
    }
    assert_eq!(s.attempts, 5);
    assert_eq!(waits, vec![100, 100, 100, 100]);
}

#[test]
fn relay_client_error_is_terminal() {
    let mut s = RelaySubmission::new();
    assert_eq!(s.on_outcome(SubmitOutcome::Status(400)), RelayAction::GiveUp);
    let mut redirected = RelaySubmission::new();
    assert_eq!(redirected.on_outcome(SubmitOutcome::Status(301)), RelayAction::GiveUp);
    let mut t = RelaySubmission::new();
    assert_eq!(t.on_outcome(SubmitOutcome::TransportError), RelayAction::RetryAfter(100));
    assert_eq!(t.on_outcome(SubmitOutcome::Status(200)), RelayAction::Done);
    assert_eq!(t.attempts, 2);
}

fn sign_all(msgs: Vec<bolt_sidecar::template::ConstraintsMessage>) -> Vec<SignedConstraints> {
    msgs.into_iter().map(|m| SignedConstraints { message: m, signature: vec![7; 96] }).collect()
}

#[test]
fn request_admitted_as_a_whole() {
    let mut d = driver(vec![]);
    let req = InclusionRequest { slot: 10, txs: vec![legacy_tx(0xA, 5), legacy_tx(0xA, 6)], signature: vec![] };
    let commitment = req.commit_and_sign(&[7u8; 32]).unwrap();
    assert_eq!(commitment.digest, req.digest());
    let heads = vec![head(5), head(5)];
    // Each on its own against the empty template: nonce 6 is a gap.
    let r = d.prepare_inclusion(req, &heads, SECOND, &vec![key(100)]);
    assert_eq!(r.err(), Some(CommitmentError::Validation(bolt_sidecar::template::ExecutionError::NonceGap)));

    // Admitted together, nonce 6 follows nonce 5.
    let msgs = vec![
        bolt_sidecar::template::ConstraintsMessage { pubkey: key(100), slot: 10, tx: legacy_tx(0xA, 5) },
        bolt_sidecar::template::ConstraintsMessage { pubkey: key(100), slot: 10, tx: legacy_tx(0xA, 6) },
    ];
    assert_eq!(d.admit_request(10, sign_all(msgs), &heads), Ok(()));
    assert_eq!(d.handle_commitment_deadline(10).unwrap().len(), 2);
}

#[test]
fn failing_request_commits_nothing() {
    let mut d = driver(vec![]);
    let msgs = vec![
        bolt_sidecar::template::ConstraintsMessage { pubkey: key(100), slot: 10, tx: legacy_tx(0xA, 5) },
        bolt_sidecar::template::ConstraintsMessage { pubkey: key(100), slot: 10, tx: legacy_tx(0xB, 3) },
    ];
    let r = d.admit_request(10, sign_all(msgs), &vec![head(5), head(0)]);
    assert_eq!(r, Err(CommitmentError::Validation(bolt_sidecar::template::ExecutionError::NonceGap)));
    assert!(d.handle_commitment_deadline(10).is_none());

    let ok = vec![bolt_sidecar::template::ConstraintsMessage { pubkey: key(100), slot: 10, tx: legacy_tx(0xC, 0) }];
    d.admit_request(10, sign_all(ok), &vec![head(0)]).unwrap();
    let again = vec![
        bolt_sidecar::template::ConstraintsMessage { pubkey: key(100), slot: 10, tx: legacy_tx(0xA, 5) },
        bolt_sidecar::template::ConstraintsMessage { pubkey: key(100), slot: 10, tx: legacy_tx(0xC, 0) },
    ];
    // The second constraint repeats a held one: the first must be taken back too.
    assert!(d.admit_request(10, sign_all(again), &vec![head(5), head(0)]).is_err());
    let relayed = d.handle_commitment_deadline(10).unwrap();
    assert_eq!(relayed.len(), 1);
    assert_eq!(relayed[0].transaction[1], 0xC);
}

#[test]
fn replacement_inside_a_request_is_taken_back_on_failure() {
    let mut d = driver(vec![]);
    let first = vec![bolt_sidecar::template::ConstraintsMessage { pubkey: key(100), slot: 10, tx: legacy_tx(0xA, 5) }];
    d.admit_request(10, sign_all(first), &vec![head(5)]).unwrap();
    let mut pricier = legacy_tx(0xA, 5);
    pricier.max_fee_per_gas = 200;
    pricier.envelope = vec![0xf8, 0xA, 99];
    let batch = vec![
        bolt_sidecar::template::ConstraintsMessage { pubkey: key(100), slot: 10, tx: pricier },
        bolt_sidecar::template::ConstraintsMessage { pubkey: key(100), slot: 10, tx: legacy_tx(0xB, 9) },
    ];
    assert!(d.admit_request(10, sign_all(batch), &vec![head(5), head(0)]).is_err());
    let relayed = d.handle_commitment_deadline(10).unwrap();
    assert_eq!(relayed.len(), 1);
    assert_eq!(relayed[0].transaction, vec![0xf8, 0xA, 5]);
}

#[test]
fn commit_inclusion_appends_the_signed_request() {
    let mut d = driver(vec![]);
    let req = InclusionRequest { slot: 10, txs: vec![legacy_tx(0xA, 5), legacy_tx(0xB, 0)], signature: vec![] };
    let heads = vec![head(5), head(0)];
    let (pubkey, msgs) = d.prepare_inclusion(req, &heads, 4 * SECOND, &vec![key(100)]).unwrap();
    let signatures = vec![vec![1u8; 96], vec![2u8; 96]];
    d.commit_inclusion(10, msgs, signatures, &heads).unwrap();
    let relayed = d.handle_commitment_deadline(10).unwrap();
    assert_eq!(relayed.len(), 2);
    assert_eq!(relayed[0].pubkey, pubkey);
    assert_eq!(relayed[0].signature, vec![1u8; 96]);
    assert_eq!(relayed[1].signature, vec![2u8; 96]);
    assert_eq!(relayed[1].transaction, vec![0xf8, 0xB, 0]);

    let again = InclusionRequest { slot: 10, txs: vec![legacy_tx(0xA, 5)], signature: vec![] };
    let r = d.prepare_inclusion(again, &vec![head(5)], 4 * SECOND, &vec![key(100)]);
    assert_eq!(r.err(), Some(CommitmentError::Validation(bolt_sidecar::template::ExecutionError::ReplacementUnderpriced)));
}
