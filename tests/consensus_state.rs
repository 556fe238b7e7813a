use bolt_sidecar::consensus::{CommitmentDeadline, ConsensusError, ConsensusState, ProposerDuty};

fn key(b: u8) -> Vec<u8> {
    vec![b; 48]
}

fn duty(slot: u64, validator_index: u64, public_key: Vec<u8>) -> ProposerDuty {
    ProposerDuty { public_key, slot, validator_index }
}

const SECOND: u64 = 1_000_000_000;

#[test]
fn test_find_validator_index_for_slot() {
    let proposer_duties = vec![
        duty(1, 100, key(0)),
        duty(2, 101, key(0)),
        duty(3, 102, key(0)),
    ];
    let mut state = ConsensusState::new(vec![100, 102], SECOND, false, 0);
    state.set_proposer_duties(proposer_duties, vec![]);

    assert_eq!(state.find_validator_pubkey_for_slot(1).unwrap(), key(0));
    assert_eq!(state.find_validator_pubkey_for_slot(3).unwrap(), key(0));
    assert!(matches!(
        state.find_validator_pubkey_for_slot(4),
        Err(ConsensusError::ValidatorNotFound)
    ));
}

#[test]
fn test_update_slot() {
    let mut state = ConsensusState::new(vec![100, 101, 102], SECOND, false, 0);

    let fetch = state.update_slot(32, 5);
    assert_eq!(fetch, Some(1));
    assert_eq!(state.latest_slot, 32);
    assert_eq!(state.latest_slot_timestamp, 5);
    assert_eq!(state.epoch.value, 1);
    assert_eq!(state.epoch.start_slot, 32);

    state.set_proposer_duties(vec![duty(40, 100, key(1))], vec![]);
    let fetch = state.update_slot(63, 7);
    assert_eq!(fetch, None);
    assert_eq!(state.latest_slot, 63);
    assert_eq!(state.latest_slot_timestamp, 7);
    assert_eq!(state.epoch.value, 1);
    assert_eq!(state.epoch.start_slot, 32);
    assert_eq!(
        state.commitment_deadline,
        CommitmentDeadline { slot: 64, armed_at: 7, duration: SECOND, fired: false }
    );
}

#[test]
fn test_fetch_proposer_duties() {
    let mut state = ConsensusState::new(vec![], SECOND, true, 0);
    assert_eq!(state.epochs_to_fetch(3), vec![3, 4]);
    let current: Vec<ProposerDuty> = (96..128).map(|s| duty(s, s, key(2))).collect();
    let next: Vec<ProposerDuty> = (128..160).map(|s| duty(s, s, key(3))).collect();
    state.set_proposer_duties(current, next);
    assert_eq!(state.epoch.proposer_duties.len(), 64);

    let mut single = ConsensusState::new(vec![], SECOND, false, 0);
    assert_eq!(single.epochs_to_fetch(3), vec![3]);
    single.set_proposer_duties(vec![duty(96, 1, key(2))], vec![duty(128, 1, key(3))]);
    assert_eq!(single.epoch.proposer_duties.len(), 1);
}

/// Slot 8 started at time 0; our validator 100 has duties at slots 9 and 10.
fn state_at_slot_8(lookahead: bool) -> ConsensusState {
    let mut state = ConsensusState::new(vec![100], 8 * SECOND, lookahead, 0);
    state.update_slot(8, 0);
    state.set_proposer_duties(vec![duty(9, 100, key(9)), duty(10, 100, key(10)), duty(11, 7, key(11))], vec![]);
    state
}

#[test]
fn validate_accepts_slot_in_window_with_duty() {
    let state = state_at_slot_8(false);
    assert_eq!(state.validate_request(10, 4 * SECOND), Ok(key(10)));
    assert_eq!(state.validate_request(11, 4 * SECOND), Err(ConsensusError::ValidatorNotFound));
    assert_eq!(state.validate_request(32, 4 * SECOND), Err(ConsensusError::InvalidSlot(32)));
}

#[test]
fn validate_rejects_next_slot_after_deadline() {
    let state = state_at_slot_8(false);
    // 8.1 s into slot 8, a request for slot 9.
    assert_eq!(
        state.validate_request(9, 8 * SECOND + 100_000_000),
        Err(ConsensusError::DeadlineExceeded)
    );
    // Slots further away are not subject to the deadline.
    assert_eq!(state.validate_request(10, 8 * SECOND + 100_000_000), Ok(key(10)));
}

#[test]
fn validate_deadline_boundary() {
    let state = state_at_slot_8(false);
    assert_eq!(state.validate_request(9, 8 * SECOND - 1), Ok(key(9)));
    // At the deadline itself the request is rejected.
    assert_eq!(state.validate_request(9, 8 * SECOND), Err(ConsensusError::DeadlineExceeded));
    assert_eq!(state.validate_request(9, 8 * SECOND + 1), Err(ConsensusError::DeadlineExceeded));
}

#[test]
fn validate_next_epoch_needs_lookahead_and_duty() {
    let mut state = state_at_slot_8(false);
    state.set_proposer_duties(vec![duty(32, 100, key(32))], vec![]);
    assert_eq!(state.validate_request(32, 0), Err(ConsensusError::InvalidSlot(32)));

    let mut ahead = state_at_slot_8(true);
    assert_eq!(ahead.validate_request(32, 0), Err(ConsensusError::ValidatorNotFound));
    ahead.set_proposer_duties(vec![duty(10, 100, key(10))], vec![duty(32, 100, key(32))]);
    assert_eq!(ahead.validate_request(32, 0), Ok(key(32)));
    assert_eq!(ahead.validate_request(64, 0), Err(ConsensusError::InvalidSlot(64)));
}

#[test]
fn validate_rejects_slot_before_epoch() {
    let mut state = ConsensusState::new(vec![100], SECOND, false, 0);
    state.update_slot(40, 0);
    assert_eq!(state.validate_request(31, 0), Err(ConsensusError::InvalidSlot(31)));
}

#[test]
fn deadline_fires_once() {
    let mut d = CommitmentDeadline::new(9, 100, 50);
    assert_eq!(d.wait(149), None);
    assert_eq!(d.wait(150), Some(9));
    assert_eq!(d.wait(200), None);
}
