use bolt_sidecar::execution::ExecutionState;
use bolt_sidecar::template::{
    cost_of, fee_bump_ok, tx_type_str, AccountHead, AccountState, BlockTemplate, ConstraintsMessage, ExecutionError,
    FullTransaction, Limits, SignedConstraints, TxType,
};

fn addr(b: u8) -> Vec<u8> {
    vec![b; 20]
}

fn limits() -> Limits {
    Limits {
        chain_id: 1,
        max_tx_gas: 30_000_000,
        block_gas_limit: 30_000_000,
        max_blobs_per_block: 6,
        min_replacement_bump_percent: 10,
    }
}

fn tx(sender: u8, nonce: u64, max_fee_per_gas: u128) -> FullTransaction {
    FullTransaction {
        envelope: vec![sender, nonce as u8, max_fee_per_gas as u8],
        sender: Some(addr(sender)),
        chain_id: Some(1),
        nonce,
        gas_limit: 21_000,
        max_fee_per_gas,
        value: 0,
        blob_count: 0,
        max_fee_per_blob_gas: 0,
        blobs_verified: true,
    }
}

fn signed(t: FullTransaction) -> SignedConstraints {
    SignedConstraints {
        message: ConstraintsMessage { pubkey: vec![7; 48], slot: 10, tx: t },
        signature: vec![1; 96],
    }
}

fn rich(nonce: u64) -> AccountState {
    AccountState { transaction_count: nonce, balance: 1_000_000_000_000_000_000, has_code: false }
}

#[test]
fn nonce_gap_is_rejected() {
    let tmpl = BlockTemplate::new();
    let r = tmpl.check_transaction(limits(), &tx(0xA, 7, 100), rich(5));
    assert_eq!(r, Err(ExecutionError::NonceGap));
    assert_eq!(ExecutionError::NonceGap.to_tag_str(), "nonce_gap");

    let mut state = ExecutionState::new(limits());
    let r = state.validate_request(10, &vec![tx(0xA, 7, 100)], &vec![rich(5)]);
    assert_eq!(r, Err(ExecutionError::NonceGap));
    assert_eq!(state.add_constraint(10, signed(tx(0xA, 7, 100)), rich(5)), Err(ExecutionError::NonceGap));
    assert!(state.get_block_template(10).is_none());
}

#[test]
fn nonce_too_low_is_rejected() {
    let tmpl = BlockTemplate::new();
    assert_eq!(
        tmpl.check_transaction(limits(), &tx(0xA, 4, 100), rich(5)),
        Err(ExecutionError::NonceTooLow)
    );
}

#[test]
fn replacement_needs_fee_bump() {
    let mut state = ExecutionState::new(limits());
    assert_eq!(state.add_constraint(10, signed(tx(0xA, 5, 100)), rich(5)), Ok(()));
    assert_eq!(
        state.validate_request(10, &vec![tx(0xA, 5, 109)], &vec![rich(5)]),
        Err(ExecutionError::ReplacementUnderpriced)
    );
    assert_eq!(
        state.add_constraint(10, signed(tx(0xA, 5, 109)), rich(5)),
        Err(ExecutionError::ReplacementUnderpriced)
    );
    assert_eq!(ExecutionError::ReplacementUnderpriced.to_tag_str(), "replacement_underpriced");
    assert_eq!(state.validate_request(10, &vec![tx(0xA, 5, 111)], &vec![rich(5)]), Ok(()));
    assert_eq!(state.add_constraint(10, signed(tx(0xA, 5, 111)), rich(5)), Ok(()));
    let tmpl = state.get_block_template(10).unwrap();
    assert_eq!(tmpl.signed_constraints_list.len(), 1);
    assert_eq!(tmpl.signed_constraints_list[0].message.tx.nonce, 5);
    assert_eq!(tmpl.signed_constraints_list[0].message.tx.max_fee_per_gas, 111);
    assert_eq!(tmpl.gas_used, 21_000);
}

#[test]
fn same_constraint_twice_is_rejected() {
    let mut state = ExecutionState::new(limits());
    assert_eq!(state.add_constraint(10, signed(tx(0xA, 5, 100)), rich(5)), Ok(()));
    assert!(state.add_constraint(10, signed(tx(0xA, 5, 100)), rich(5)).is_err());
    let tmpl = state.get_block_template(10).unwrap();
    assert_eq!(tmpl.signed_constraints_list.len(), 1);
    assert_eq!(tmpl.gas_used, 21_000);
}

#[test]
fn one_transaction_fills_the_block_gas() {
    let mut state = ExecutionState::new(limits());
    let mut big = tx(0xA, 5, 1);
    big.gas_limit = 30_000_000;
    assert_eq!(state.add_constraint(10, signed(big), rich(5)), Ok(()));
    assert_eq!(state.get_block_template(10).unwrap().gas_used, 30_000_000);
    let mut small = tx(0xB, 0, 1);
    small.gas_limit = 1;
    assert_eq!(
        state.add_constraint(10, signed(small), rich(0)),
        Err(ExecutionError::MaxGasLimitExceeded)
    );
}

#[test]
fn consecutive_nonces_are_admitted_in_order() {
    let mut state = ExecutionState::new(limits());
    assert_eq!(state.add_constraint(10, signed(tx(0xA, 5, 100)), rich(5)), Ok(()));
    assert_eq!(state.add_constraint(10, signed(tx(0xB, 0, 100)), rich(0)), Ok(()));
    assert_eq!(state.add_constraint(10, signed(tx(0xA, 6, 100)), rich(99)), Ok(()));
    let tmpl = state.get_block_template(10).unwrap();
    let nonces: Vec<u64> = tmpl.signed_constraints_list.iter().map(|c| c.message.tx.nonce).collect();
    assert_eq!(nonces, vec![5, 0, 6]);
    assert_eq!(tmpl.gas_used, 63_000);
    assert_eq!(tmpl.find_head(&addr(0xA)), Some(rich(5)));
}

#[test]
fn batch_transactions_are_checked_each_on_its_own() {
    let state = ExecutionState::new(limits());
    // Both are admissible against the template as it stands; the second is not checked
    // against the first.
    assert_eq!(
        state.validate_request(10, &vec![tx(0xA, 5, 100), tx(0xB, 0, 100)], &vec![rich(5), rich(0)]),
        Ok(())
    );
    assert_eq!(
        state.validate_request(10, &vec![tx(0xA, 5, 100), tx(0xA, 6, 100)], &vec![rich(5), rich(5)]),
        Err(ExecutionError::NonceGap)
    );
}

#[test]
fn each_error_has_an_input() {
    let tmpl = BlockTemplate::new();
    let l = limits();
    let mut t = tx(0xA, 0, 1);
    t.chain_id = Some(5);
    assert_eq!(tmpl.check_transaction(l, &t, rich(0)), Err(ExecutionError::ChainIdMismatch));
    let mut t = tx(0xA, 0, 1);
    t.chain_id = None;
    assert_eq!(tmpl.check_transaction(l, &t, rich(0)), Ok(None));
    t.sender = None;
    assert_eq!(tmpl.check_transaction(l, &t, rich(0)), Err(ExecutionError::InvalidSignature));
    let poor = AccountState { transaction_count: 0, balance: 20_999, has_code: false };
    assert_eq!(tmpl.check_transaction(l, &tx(0xA, 0, 1), poor), Err(ExecutionError::InsufficientBalance));
    let exact = AccountState { transaction_count: 0, balance: 21_000, has_code: false };
    assert_eq!(tmpl.check_transaction(l, &tx(0xA, 0, 1), exact), Ok(None));
    let mut t = tx(0xA, 0, 1);
    t.gas_limit = 30_000_001;
    let l2 = Limits { block_gas_limit: 40_000_000, ..l };
    assert_eq!(tmpl.check_transaction(l2, &t, rich(0)), Err(ExecutionError::GasLimitTooHigh));
    let l3 = Limits { max_tx_gas: 40_000_000, ..l };
    assert_eq!(tmpl.check_transaction(l3, &t, rich(0)), Err(ExecutionError::MaxGasLimitExceeded));
    let mut t = tx(0xA, 0, 1);
    t.blob_count = 7;
    t.max_fee_per_blob_gas = 1;
    assert_eq!(tmpl.check_transaction(l, &t, rich(0)), Err(ExecutionError::TooManyBlobs));
    assert_eq!(ExecutionError::TooManyBlobs.to_tag_str(), "too_many_blobs");
    assert_eq!(ExecutionError::ChainIdMismatch.to_tag_str(), "chain_id_mismatch");
    let mut t = tx(0xA, 0, 1);
    t.blob_count = 1;
    t.max_fee_per_blob_gas = 1;
    t.blobs_verified = false;
    assert_eq!(tmpl.check_transaction(l, &t, rich(0)), Err(ExecutionError::InvalidBlobSidecar));
    assert_eq!(ExecutionError::InvalidBlobSidecar.to_tag_str(), "invalid_blob_sidecar");
}

#[test]
fn transaction_cost_formula() {
    let mut t = tx(0xA, 0, 3);
    t.value = 5;
    t.blob_count = 2;
    t.max_fee_per_blob_gas = 7;
    assert_eq!(cost_of(&t), Some(21_000 * 3 + 5 + 2 * 131_072 * 7));
    t.max_fee_per_gas = u128::MAX;
    assert_eq!(cost_of(&t), None);
}

#[test]
fn fee_bump_boundaries() {
    assert!(!fee_bump_ok(100, 109, 10));
    assert!(fee_bump_ok(100, 110, 10));
    assert!(fee_bump_ok(100, 111, 10));
    assert!(!fee_bump_ok(0, 0, 10));
    assert!(fee_bump_ok(0, 1, 10));
    assert!(!fee_bump_ok(u128::MAX - 1, u128::MAX, 10));
    assert!(fee_bump_ok(u128::MAX / 2, u128::MAX, 10));
}

#[test]
fn head_update_drops_earlier_templates() {
    let mut state = ExecutionState::new(limits());
    state.add_constraint(9, signed(tx(0xA, 5, 100)), rich(5)).unwrap();
    state.add_constraint(10, signed(tx(0xA, 5, 100)), rich(5)).unwrap();
    state.add_constraint(11, signed(tx(0xA, 5, 100)), rich(5)).unwrap();
    state.update_head(10, &vec![]);
    assert!(state.get_block_template(9).is_none());
    assert!(state.get_block_template(10).is_some());
    assert!(state.get_block_template(11).is_some());
    assert_eq!(state.templates.len(), 2);
}

#[test]
fn revalidation_evicts_mined_nonce() {
    let l = limits();
    let mut tmpl = BlockTemplate::new();
    tmpl.add_constraint(l, signed(tx(0xA, 5, 100)), rich(5)).unwrap();
    tmpl.add_constraint(l, signed(tx(0xA, 6, 100)), rich(5)).unwrap();
    tmpl.add_constraint(l, signed(tx(0xB, 0, 100)), rich(0)).unwrap();
    let fresh = vec![AccountHead { address: addr(0xA), state: rich(6) }];
    let (kept, evicted) = tmpl.revalidate(l, &fresh);
    let nonces: Vec<(u8, u64)> =
        kept.signed_constraints_list.iter().map(|c| (c.message.tx.envelope[0], c.message.tx.nonce)).collect();
    assert_eq!(nonces, vec![(0xA, 6), (0xB, 0)]);
    assert_eq!(evicted.len(), 1);
    assert_eq!(evicted[0].message.tx.nonce, 5);
    assert_eq!(kept.gas_used, 42_000);
    assert_eq!(kept.find_head(&addr(0xA)), Some(rich(6)));
}

#[test]
fn revalidation_evicts_on_balance_drop() {
    let l = limits();
    let mut tmpl = BlockTemplate::new();
    tmpl.add_constraint(l, signed(tx(0xA, 5, 100)), rich(5)).unwrap();
    let broke = AccountState { transaction_count: 5, balance: 10, has_code: false };
    let (kept, evicted) = tmpl.revalidate(l, &vec![AccountHead { address: addr(0xA), state: broke }]);
    assert_eq!(kept.signed_constraints_list.len(), 0);
    assert_eq!(evicted.len(), 1);
    assert_eq!(kept.gas_used, 0);
}

#[test]
fn head_update_revalidates_kept_templates() {
    let mut state = ExecutionState::new(limits());
    state.add_constraint(12, signed(tx(0xA, 5, 100)), rich(5)).unwrap();
    state.update_head(11, &vec![AccountHead { address: addr(0xA), state: rich(6) }]);
    assert!(state.get_block_template(12).is_none());
    assert_eq!(state.templates.len(), 1);
}

#[test]
fn transaction_type_labels() {
    assert_eq!(tx_type_str(TxType::Legacy), "legacy");
    assert_eq!(tx_type_str(TxType::Eip4844), "eip4844");
    assert_eq!(tx_type_str(TxType::Eip7702), "eip7702");
}
