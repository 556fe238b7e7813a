//! Block templates: the per-slot accumulators of admitted constraints, with the projected
//! account state, gas and blob usage that admission is checked against.
use vstd::prelude::*;
use crate::consensus::Slot;
use crate::delegation::{BlsPublicKey, BlsSignature};

verus! {

/// A 20-byte execution-layer account address.
pub type Address = Vec<u8>;

/// Blob gas consumed by one blob.
pub const DATA_GAS_PER_BLOB: u64 = 131072;

/// Minimal account state needed for commitment validation.
#[derive(Debug, Clone, Copy, PartialEq, Eq, Structural)]
pub struct AccountState {
    /// The nonce of the account: the number of transactions it has sent.
    pub transaction_count: u64,
    /// The balance of the account in wei.
    pub balance: u128,
    /// Whether the account holds code.
    pub has_code: bool,
}

/// The EIP-2718 type of a transaction.
#[derive(Debug, Clone, Copy, PartialEq, Eq, Structural)]
pub enum TxType {
    Legacy,
    Eip2930,
    Eip1559,
    Eip4844,
    Eip7702,
}

/// The label under which transactions of a type are counted.
pub open spec fn tx_type_label(t: TxType) -> Seq<char> {
    match t {
        TxType::Legacy => "legacy"@,
        TxType::Eip2930 => "eip2930"@,
        TxType::Eip1559 => "eip1559"@,
        TxType::Eip4844 => "eip4844"@,
        TxType::Eip7702 => "eip7702"@,
    }
}

/// The label under which transactions of type `tx_type` are counted.
pub fn tx_type_str(tx_type: TxType) -> (r: &'static str)
    ensures
        r@ == tx_type_label(tx_type),
{
    match tx_type {
        TxType::Legacy => "legacy",
        TxType::Eip2930 => "eip2930",
        TxType::Eip1559 => "eip1559",
        TxType::Eip4844 => "eip4844",
        TxType::Eip7702 => "eip7702",
    }
}

/// A transaction as admission reads it: its raw envelope and the fields decoded from it.
#[derive(Debug, Clone)]
pub struct FullTransaction {
    /// The EIP-2718 envelope bytes.
    pub envelope: Vec<u8>,
    /// The sender recovered from the signature, if recovery succeeded.
    pub sender: Option<Address>,
    pub chain_id: Option<u64>,
    pub nonce: u64,
    pub gas_limit: u64,
    pub max_fee_per_gas: u128,
    pub value: u128,
    /// The number of blobs the transaction carries (zero but for blob transactions).
    pub blob_count: u64,
    pub max_fee_per_blob_gas: u128,
    /// Whether the blob sidecar's commitments match the versioned hashes and its proofs
    /// verify (true for transactions without blobs).
    pub blobs_verified: bool,
}

impl FullTransaction {
    /// The envelope bytes of the transaction.
    pub fn into_inner(self) -> (r: Vec<u8>)
        ensures
            r == self.envelope,
    {
        self.envelope
    }

    /// The sender of the transaction, if recovered.
    pub fn sender(&self) -> (r: Option<&Address>)
        ensures
            match self.sender {
                Some(a) => r == Some(&a),
                None => r.is_none(),
            },
    {
        match &self.sender {
            Some(a) => Some(a),
            None => None,
        }
    }
}

/// The message of a constraint: one transaction promised for a slot under a key.
#[derive(Debug, Clone)]
pub struct ConstraintsMessage {
    pub pubkey: BlsPublicKey,
    pub slot: Slot,
    pub tx: FullTransaction,
}

/// A constraint message with its BLS signature.
#[derive(Debug, Clone)]
pub struct SignedConstraints {
    pub message: ConstraintsMessage,
    pub signature: BlsSignature,
}

/// The head state of an account referenced by a template.
#[derive(Debug, Clone)]
pub struct AccountHead {
    pub address: Address,
    pub state: AccountState,
}

/// The limits that admission enforces.
#[derive(Debug, Clone, Copy, PartialEq, Eq, Structural)]
pub struct Limits {
    /// The chain id that transactions must carry, if they carry one.
    pub chain_id: u64,
    /// The most gas a single transaction may ask for.
    pub max_tx_gas: u64,
    /// The most gas all transactions of a template may ask for together.
    pub block_gas_limit: u64,
    /// The most blobs all transactions of a template may carry together.
    pub max_blobs_per_block: u64,
    /// By how many percent a replacement must raise the fee per gas.
    pub min_replacement_bump_percent: u64,
}

/// Whether `a` sent `t`.
pub open spec fn sends(t: FullTransaction, a: Seq<u8>) -> bool {
    match t.sender {
        Some(x) => x@ == a,
        None => false,
    }
}

/// The sender of `t`, as bytes.
pub open spec fn sender_view(t: FullTransaction) -> Seq<u8> {
    match t.sender {
        Some(x) => x@,
        None => Seq::empty(),
    }
}

/// The most that `t` can cost its sender: gas, value and blob gas at their fee caps.
pub open spec fn tx_cost(t: FullTransaction) -> int {
    t.gas_limit * t.max_fee_per_gas + t.value + t.blob_count * DATA_GAS_PER_BLOB
        * t.max_fee_per_blob_gas
}

/// The sum of `w` over `s`.
pub open spec fn sum_of(s: Seq<FullTransaction>, w: spec_fn(FullTransaction) -> int) -> int
    decreases s.len(),
{
    if s.len() == 0 {
        0
    } else {
        sum_of(s.drop_last(), w) + w(s.last())
    }
}

/// One for each transaction sent by `a`.
pub open spec fn count_weight(a: Seq<u8>) -> spec_fn(FullTransaction) -> int {
    |t: FullTransaction| if sends(t, a) { 1int } else { 0int }
}

/// The cost of each transaction sent by `a`.
pub open spec fn cost_weight(a: Seq<u8>) -> spec_fn(FullTransaction) -> int {
    |t: FullTransaction| if sends(t, a) { tx_cost(t) } else { 0int }
}

/// The gas limit of each transaction.
pub open spec fn gas_weight() -> spec_fn(FullTransaction) -> int {
    |t: FullTransaction| t.gas_limit as int
}

/// The blob count of each transaction.
pub open spec fn blob_weight() -> spec_fn(FullTransaction) -> int {
    |t: FullTransaction| t.blob_count as int
}

/// How many transactions of `s` were sent by `a`.
pub open spec fn count_from(s: Seq<FullTransaction>, a: Seq<u8>) -> int {
    sum_of(s, count_weight(a))
}

/// What the transactions of `s` sent by `a` can cost at most.
pub open spec fn spent_by(s: Seq<FullTransaction>, a: Seq<u8>) -> int {
    sum_of(s, cost_weight(a))
}

/// The gas that the transactions of `s` ask for.
pub open spec fn gas_of(s: Seq<FullTransaction>) -> int {
    sum_of(s, gas_weight())
}

/// The blobs that the transactions of `s` carry.
pub open spec fn blobs_of(s: Seq<FullTransaction>) -> int {
    sum_of(s, blob_weight())
}

/// A recorded head: an address and its state.
pub type HeadView = (Seq<u8>, AccountState);

/// The content of recorded heads.
pub open spec fn heads_view(heads: Seq<AccountHead>) -> Seq<HeadView> {
    heads.map_values(|h: AccountHead| (h.address@, h.state))
}

/// The transactions of a sequence of constraints.
pub open spec fn txs_of(cs: Seq<SignedConstraints>) -> Seq<FullTransaction> {
    cs.map_values(|c: SignedConstraints| c.message.tx)
}

/// The head state recorded for `a`: that of its first entry in `heads`.
pub open spec fn head_of(heads: Seq<HeadView>, a: Seq<u8>) -> Option<AccountState>
    decreases heads.len(),
{
    if heads.len() == 0 {
        None
    } else if heads[0].0 == a {
        Some(heads[0].1)
    } else {
        head_of(heads.drop_first(), a)
    }
}

/// The head state recorded for `a` in `heads`.
pub fn lookup_head(heads: &Vec<AccountHead>, a: &Address) -> (r: Option<AccountState>)
    ensures
        r == head_of(heads_view(heads@), a@),
{
    let ghost hv = heads_view(heads@);
    let mut i: usize = 0;
    assert(hv.skip(0) =~= hv);
    while i < heads.len()
        invariant
            0 <= i <= heads@.len(),
            hv == heads_view(heads@),
            head_of(hv, a@) == head_of(hv.skip(i as int), a@),
        decreases heads@.len() - i,
    {
        let ghost rest = hv.skip(i as int);
        assert(rest[0] == hv[i as int]);
        assert(rest.drop_first() =~= hv.skip(i + 1));
        let same = heads[i].address == *a;
        if same {
            assert(heads@[i as int].address@ =~= a@);
            return Some(heads[i].state);
        }
        assert(heads@[i as int].address@ != a@) by {
            if heads@[i as int].address@ == a@ {
                assert(heads@[i as int].address@ =~= a@);
            }
        }
        i = i + 1;
    }
    None
}

/// The index of the last transaction of `s` sent by `a` with nonce `nonce`.
pub open spec fn last_match(s: Seq<FullTransaction>, a: Seq<u8>, nonce: u64) -> Option<int>
    decreases s.len(),
{
    if s.len() == 0 {
        None
    } else if sends(s.last(), a) && s.last().nonce == nonce {
        Some(s.len() - 1)
    } else {
        last_match(s.drop_last(), a, nonce)
    }
}

/// Summing over one more element adds its weight.
pub proof fn lemma_sum_push(s: Seq<FullTransaction>, x: FullTransaction, w: spec_fn(FullTransaction) -> int)
    ensures
        sum_of(s.push(x), w) == sum_of(s, w) + w(x),
{
    assert(s.push(x).drop_last() =~= s);
}

/// Replacing one element changes the sum by the difference of the weights.
pub proof fn lemma_sum_update(
    s: Seq<FullTransaction>,
    j: int,
    x: FullTransaction,
    w: spec_fn(FullTransaction) -> int,
)
    requires
        0 <= j < s.len(),
    ensures
        sum_of(s.update(j, x), w) == sum_of(s, w) - w(s[j]) + w(x),
    decreases s.len(),
{
    let u = s.update(j, x);
    if j == s.len() - 1 {
        assert(u.drop_last() =~= s.drop_last());
    } else {
        lemma_sum_update(s.drop_last(), j, x, w);
        assert(u.drop_last() =~= s.drop_last().update(j, x));
    }
}

/// With weights that are never negative, a prefix sums to no more than the whole.
pub proof fn lemma_sum_prefix(s: Seq<FullTransaction>, i: int, w: spec_fn(FullTransaction) -> int)
    requires
        0 <= i <= s.len(),
        forall|t: FullTransaction| #[trigger] w(t) >= 0,
    ensures
        0 <= sum_of(s.take(i), w) <= sum_of(s, w),
    decreases s.len(),
{
    if s.len() > 0 {
        if i == s.len() {
            assert(s.take(i) =~= s);
            lemma_sum_prefix(s.drop_last(), i - 1, w);
            assert(s.drop_last().take(i - 1) =~= s.drop_last().take(i - 1));
            lemma_sum_nonneg(s, w);
        } else {
            lemma_sum_prefix(s.drop_last(), i, w);
            assert(s.drop_last().take(i) =~= s.take(i));
        }
    }
}

/// With weights that are never negative, the sum is not negative.
pub proof fn lemma_sum_nonneg(s: Seq<FullTransaction>, w: spec_fn(FullTransaction) -> int)
    requires
        forall|t: FullTransaction| #[trigger] w(t) >= 0,
    ensures
        sum_of(s, w) >= 0,
    decreases s.len(),
{
    if s.len() > 0 {
        lemma_sum_nonneg(s.drop_last(), w);
    }
}

/// Where every weight is zero, so is the sum.
pub proof fn lemma_sum_zero(s: Seq<FullTransaction>, w: spec_fn(FullTransaction) -> int)
    requires
        forall|i: int| 0 <= i < s.len() ==> w(#[trigger] s[i]) == 0,
    ensures
        sum_of(s, w) == 0,
    decreases s.len(),
{
    if s.len() > 0 {
        assert forall|i: int| 0 <= i < s.drop_last().len() implies w(#[trigger] s.drop_last()[i]) == 0 by {
            assert(s.drop_last()[i] == s[i]);
        }
        lemma_sum_zero(s.drop_last(), w);
        assert(w(s[s.len() - 1]) == 0);
    }
}

/// A transaction's cost is never negative.
pub proof fn lemma_cost_nonneg(t: FullTransaction)
    ensures
        tx_cost(t) >= 0,
{
    let a = t.gas_limit as int;
    let b = t.max_fee_per_gas as int;
    let c = t.blob_count as int;
    let d = t.max_fee_per_blob_gas as int;
    assert(a * b >= 0) by (nonlinear_arith)
        requires
            a >= 0,
            b >= 0,
    ;
    assert(c * DATA_GAS_PER_BLOB * d >= 0) by (nonlinear_arith)
        requires
            c >= 0,
            d >= 0,
    ;
}

/// With weights that are never negative, one element weighs no more than the whole.
pub proof fn lemma_elem_le_sum(s: Seq<FullTransaction>, j: int, w: spec_fn(FullTransaction) -> int)
    requires
        0 <= j < s.len(),
        forall|t: FullTransaction| #[trigger] w(t) >= 0,
    ensures
        w(s[j]) <= sum_of(s, w),
    decreases s.len(),
{
    lemma_sum_nonneg(s.drop_last(), w);
    if j < s.len() - 1 {
        lemma_elem_le_sum(s.drop_last(), j, w);
    }
}

/// Recording one more head leaves earlier entries as they were and adds one for a new
/// address.
pub proof fn lemma_head_of_push(heads: Seq<HeadView>, x: HeadView, a: Seq<u8>)
    ensures
        head_of(heads.push(x), a) == (if head_of(heads, a).is_some() {
            head_of(heads, a)
        } else if x.0 == a {
            Some(x.1)
        } else {
            None
        }),
    decreases heads.len(),
{
    if heads.len() > 0 {
        assert(heads.push(x)[0] == heads[0]);
        assert(heads.push(x).drop_first() =~= heads.drop_first().push(x));
        lemma_head_of_push(heads.drop_first(), x, a);
    } else {
        assert(heads.push(x)[0] == x);
        assert(heads.push(x).drop_first() =~= heads);
    }
}

/// Every weight used for templates is never negative.
pub proof fn lemma_weights_nonneg(a: Seq<u8>)
    ensures
        forall|t: FullTransaction| #[trigger] count_weight(a)(t) >= 0,
        forall|t: FullTransaction| #[trigger] cost_weight(a)(t) >= 0,
        forall|t: FullTransaction| #[trigger] gas_weight()(t) >= 0,
        forall|t: FullTransaction| #[trigger] blob_weight()(t) >= 0,
{
    assert forall|t: FullTransaction| #[trigger] cost_weight(a)(t) >= 0 by {
        lemma_cost_nonneg(t);
    }
}

/// Why a transaction cannot be admitted into a template.
#[derive(Debug, Clone, Copy, PartialEq, Eq, Structural)]
pub enum ExecutionError {
    /// The transaction carries another chain's id.
    ChainIdMismatch,
    /// No sender could be recovered from the signature.
    InvalidSignature,
    /// The blob sidecar does not match the versioned hashes, or its proofs fail.
    InvalidBlobSidecar,
    /// The nonce is below the sender's projected nonce.
    NonceTooLow,
    /// The nonce is above the sender's projected nonce.
    NonceGap,
    /// The sender's projected balance cannot pay for the transaction.
    InsufficientBalance,
    /// The transaction asks for more gas than one transaction may.
    GasLimitTooHigh,
    /// The template's gas would exceed the block gas limit.
    MaxGasLimitExceeded,
    /// The template's blobs would exceed the per-block blob limit.
    TooManyBlobs,
    /// A replacement does not raise the fee by the minimum bump.
    ReplacementUnderpriced,
}

impl ExecutionError {
    /// The tag under which this error is counted.
    pub fn to_tag_str(&self) -> (r: &'static str)
        ensures
            r@ == error_tag(*self),
    {
        match self {
            ExecutionError::ChainIdMismatch => "chain_id_mismatch",
            ExecutionError::InvalidSignature => "invalid_signature",
            ExecutionError::InvalidBlobSidecar => "invalid_blob_sidecar",
            ExecutionError::NonceTooLow => "nonce_too_low",
            ExecutionError::NonceGap => "nonce_gap",
            ExecutionError::InsufficientBalance => "insufficient_balance",
            ExecutionError::GasLimitTooHigh => "gas_limit_too_high",
            ExecutionError::MaxGasLimitExceeded => "max_gas_limit_exceeded",
            ExecutionError::TooManyBlobs => "too_many_blobs",
            ExecutionError::ReplacementUnderpriced => "replacement_underpriced",
        }
    }
}

/// The tag of each execution error.
pub open spec fn error_tag(e: ExecutionError) -> Seq<char> {
    match e {
        ExecutionError::ChainIdMismatch => "chain_id_mismatch"@,
        ExecutionError::InvalidSignature => "invalid_signature"@,
        ExecutionError::InvalidBlobSidecar => "invalid_blob_sidecar"@,
        ExecutionError::NonceTooLow => "nonce_too_low"@,
        ExecutionError::NonceGap => "nonce_gap"@,
        ExecutionError::InsufficientBalance => "insufficient_balance"@,
        ExecutionError::GasLimitTooHigh => "gas_limit_too_high"@,
        ExecutionError::MaxGasLimitExceeded => "max_gas_limit_exceeded"@,
        ExecutionError::TooManyBlobs => "too_many_blobs"@,
        ExecutionError::ReplacementUnderpriced => "replacement_underpriced"@,
    }
}

/// Whether a fee per gas of `new_fee` may replace `old_fee`: strictly higher, and higher
/// by at least `bump` percent.
pub open spec fn fee_bumped(old_fee: u128, new_fee: u128, bump: u64) -> bool {
    new_fee > old_fee && new_fee * 100 >= old_fee * (100 + bump)
}

/// Whether `t` can be admitted after `txs`, given the recorded `heads`, with `head` as its
/// sender's head state where none is recorded. `Ok(Some(j))` replaces the transaction at
/// `j`; `Ok(None)` appends.
pub open spec fn admits(
    txs: Seq<FullTransaction>,
    heads: Seq<HeadView>,
    limits: Limits,
    t: FullTransaction,
    head: AccountState,
) -> Result<Option<int>, ExecutionError> {
    let a = sender_view(t);
    let h = match head_of(heads, a) {
        Some(h) => h,
        None => head,
    };
    if t.chain_id.is_some() && t.chain_id.unwrap() != limits.chain_id {
        Err(ExecutionError::ChainIdMismatch)
    } else if t.sender.is_none() {
        Err(ExecutionError::InvalidSignature)
    } else if !t.blobs_verified {
        Err(ExecutionError::InvalidBlobSidecar)
    } else {
        match last_match(txs, a, t.nonce) {
            Some(j) => {
                let prev = txs[j];
                if !fee_bumped(
                    prev.max_fee_per_gas,
                    t.max_fee_per_gas,
                    limits.min_replacement_bump_percent,
                ) {
                    Err(ExecutionError::ReplacementUnderpriced)
                } else if spent_by(txs, a) - tx_cost(prev) + tx_cost(t) > h.balance {
                    Err(ExecutionError::InsufficientBalance)
                } else if t.gas_limit > limits.max_tx_gas {
                    Err(ExecutionError::GasLimitTooHigh)
                } else if gas_of(txs) - prev.gas_limit + t.gas_limit > limits.block_gas_limit {
                    Err(ExecutionError::MaxGasLimitExceeded)
                } else if blobs_of(txs) - prev.blob_count + t.blob_count
                    > limits.max_blobs_per_block {
                    Err(ExecutionError::TooManyBlobs)
                } else {
                    Ok(Some(j))
                }
            },
            None => {
                if t.nonce < h.transaction_count + count_from(txs, a) {
                    Err(ExecutionError::NonceTooLow)
                } else if t.nonce > h.transaction_count + count_from(txs, a) {
                    Err(ExecutionError::NonceGap)
                } else if spent_by(txs, a) + tx_cost(t) > h.balance {
                    Err(ExecutionError::InsufficientBalance)
                } else if t.gas_limit > limits.max_tx_gas {
                    Err(ExecutionError::GasLimitTooHigh)
                } else if gas_of(txs) + t.gas_limit > limits.block_gas_limit {
                    Err(ExecutionError::MaxGasLimitExceeded)
                } else if blobs_of(txs) + t.blob_count > limits.max_blobs_per_block {
                    Err(ExecutionError::TooManyBlobs)
                } else {
                    Ok(None)
                }
            },
        }
    }
}

/// The admitted constraints of one slot, and what admission checks new ones against.
#[derive(Debug)]
pub struct BlockTemplate {
    /// The admitted constraints, in the order in which they were admitted.
    pub signed_constraints_list: Vec<SignedConstraints>,
    /// The head state of every account that a constraint was admitted from.
    pub heads: Vec<AccountHead>,
    /// The gas that the admitted transactions ask for.
    pub gas_used: u64,
    /// The blobs that the admitted transactions carry.
    pub blob_count: u64,
}

impl BlockTemplate {
    /// The admitted transactions, in order.
    pub open spec fn txs(&self) -> Seq<FullTransaction> {
        txs_of(self.signed_constraints_list@)
    }

    /// The recorded heads.
    pub open spec fn hv(&self) -> Seq<HeadView> {
        heads_view(self.heads@)
    }

    /// The projected state of `a` after every admitted transaction, where the template
    /// has recorded a head for it.
    pub open spec fn projected(&self, a: Seq<u8>) -> Option<(int, int)> {
        match head_of(self.hv(), a) {
            Some(h) => Some(
                (
                    h.transaction_count + count_from(self.txs(), a),
                    h.balance - spent_by(self.txs(), a),
                ),
            ),
            None => None,
        }
    }

    /// The template's invariant: every admitted transaction has a known sender whose
    /// nonce, after the transactions before it, equals its own; no projected balance is
    /// negative; gas and blobs stay within the limits.
    pub open spec fn wf(&self, limits: Limits) -> bool {
        let txs = self.txs();
        &&& forall|i: int|
            0 <= i < txs.len() ==> (#[trigger] txs[i]).sender.is_some() && head_of(
                self.hv(),
                sender_view(txs[i]),
            ).is_some()
        &&& forall|i: int|
            0 <= i < txs.len() ==> (#[trigger] txs[i]).nonce == head_of(
                self.hv(),
                sender_view(txs[i]),
            ).unwrap().transaction_count + count_from(txs.take(i), sender_view(txs[i]))
        &&& forall|a: Seq<u8>| #[trigger]
            head_of(self.hv(), a).is_some() ==> spent_by(txs, a) <= head_of(
                self.hv(),
                a,
            ).unwrap().balance
        &&& self.gas_used == gas_of(txs) <= limits.block_gas_limit
        &&& self.blob_count == blobs_of(txs) <= limits.max_blobs_per_block
    }

    /// Whether `t` can be admitted now, with `head` as its sender's head state where the
    /// template has recorded none. `Ok(Some(j))` replaces the transaction at `j`;
    /// `Ok(None)` appends.
    pub open spec fn admission(&self, limits: Limits, t: FullTransaction, head: AccountState) -> Result<
        Option<int>,
        ExecutionError,
    > {
        admits(self.txs(), self.hv(), limits, t, head)
    }

    /// An empty template.
    pub fn new() -> (r: Self)
        ensures
            r.signed_constraints_list@.len() == 0,
            r.heads@.len() == 0,
            r.gas_used == 0,
            r.blob_count == 0,
    {
        BlockTemplate {
            signed_constraints_list: Vec::new(),
            heads: Vec::new(),
            gas_used: 0,
            blob_count: 0,
        }
    }

    /// The head state recorded for `a`.
    pub fn find_head(&self, a: &Address) -> (r: Option<AccountState>)
        ensures
            r == head_of(self.hv(), a@),
    {
        lookup_head(&self.heads, a)
    }
}

/// The cost of `t`, where it fits in 128 bits.
pub fn cost_of(t: &FullTransaction) -> (r: Option<u128>)
    ensures
        match r {
            Some(c) => c == tx_cost(*t),
            None => tx_cost(*t) > u128::MAX,
        },
{
    proof {
        lemma_cost_nonneg(*t);
        let a = t.gas_limit as int;
        let b = t.max_fee_per_gas as int;
        let c = t.blob_count as int;
        let d = t.max_fee_per_blob_gas as int;
        assert(a * b >= 0 && c * DATA_GAS_PER_BLOB >= 0 && c * DATA_GAS_PER_BLOB * d >= 0)
            by (nonlinear_arith)
            requires
                a >= 0,
                b >= 0,
                c >= 0,
                d >= 0,
        ;
        assert(c * DATA_GAS_PER_BLOB * d >= (c * DATA_GAS_PER_BLOB) && d >= 1 || d == 0 || c == 0)
            by (nonlinear_arith)
            requires
                c >= 0,
                d >= 0,
        ;
    }
    let gas_cost = match (t.gas_limit as u128).checked_mul(t.max_fee_per_gas) {
        Some(v) => v,
        None => return None,
    };
    let blob_gas = match (t.blob_count as u128).checked_mul(DATA_GAS_PER_BLOB as u128) {
        Some(v) => v,
        None => return None,
    };
    let blob_cost = match blob_gas.checked_mul(t.max_fee_per_blob_gas) {
        Some(v) => v,
        None => {
            return None;
        },
    };
    let with_value = match gas_cost.checked_add(t.value) {
        Some(v) => v,
        None => return None,
    };
    with_value.checked_add(blob_cost)
}

/// An optional position, as an integer.
pub open spec fn opt_index(o: Option<usize>) -> Option<int> {
    match o {
        Some(j) => Some(j as int),
        None => None,
    }
}

/// Whether `a` sent `t`.
pub fn is_sent_by(t: &FullTransaction, a: &Address) -> (r: bool)
    ensures
        r == sends(*t, a@),
{
    match &t.sender {
        Some(x) => {
            let same = *x == *a;
            proof {
                if same {
                    assert(x@ =~= a@);
                }
            }
            same
        },
        None => false,
    }
}

impl BlockTemplate {
    /// How many admitted transactions `a` sent, what they can cost together, and where
    /// the last one with nonce `nonce` stands.
    fn scan_sender(&self, limits: Limits, a: &Address, nonce: u64) -> (r: (usize, u128, Option<usize>))
        requires
            self.wf(limits),
        ensures
            r.0 == count_from(self.txs(), a@),
            r.1 == spent_by(self.txs(), a@),
            opt_index(r.2) == last_match(self.txs(), a@, nonce),
            r.2 matches Some(j) ==> j < self.txs().len(),
    {
        let ghost txs = self.txs();
        let mut count: usize = 0;
        let mut spent: u128 = 0;
        let mut found: Option<usize> = None;
        let mut i: usize = 0;
        proof {
            lemma_weights_nonneg(a@);
            assert(txs.take(0) =~= Seq::<FullTransaction>::empty());
        }
        while i < self.signed_constraints_list.len()
            invariant
                0 <= i <= txs.len(),
                txs == self.txs(),
                txs.len() == self.signed_constraints_list@.len(),
                self.wf(limits),
                count <= i,
                count == count_from(txs.take(i as int), a@),
                spent == spent_by(txs.take(i as int), a@),
                opt_index(found) == last_match(txs.take(i as int), a@, nonce),
                found matches Some(j) ==> j < i,
                forall|t: FullTransaction| #[trigger] count_weight(a@)(t) >= 0,
                forall|t: FullTransaction| #[trigger] cost_weight(a@)(t) >= 0,
            decreases txs.len() - i,
        {
            let tx = &self.signed_constraints_list[i].message.tx;
            assert(*tx == txs[i as int]);
            let ghost prefix = txs.take(i + 1);
            proof {
                assert(prefix =~= txs.take(i as int).push(txs[i as int]));
                assert(prefix.drop_last() =~= txs.take(i as int));
                lemma_sum_push(txs.take(i as int), txs[i as int], count_weight(a@));
                lemma_sum_push(txs.take(i as int), txs[i as int], cost_weight(a@));
            }
            if is_sent_by(tx, a) {
                proof {
                    assert(sender_view(txs[i as int]) == a@);
                    lemma_sum_prefix(txs, i + 1, cost_weight(a@));
                    lemma_cost_nonneg(txs[i as int]);
                }
                let c = match cost_of(tx) {
                    Some(c) => c,
                    None => {
                        proof {
                            assert(false);
                        }
                        0
                    },
                };
                count = count + 1;
                spent = spent + c;
                if tx.nonce == nonce {
                    found = Some(i);
                }
            }
            i = i + 1;
        }
        proof {
            assert(txs.take(txs.len() as int) =~= txs);
        }
        (count, spent, found)
    }
}

/// Whether a fee per gas of `new_fee` may replace `old_fee` under a `bump` percent
/// minimum raise.
pub fn fee_bump_ok(old_fee: u128, new_fee: u128, bump: u64) -> (r: bool)
    ensures
        r == fee_bumped(old_fee, new_fee, bump),
{
    if new_fee <= old_fee {
        return false;
    }
    let k: u128 = 100 + bump as u128;
    let q: u128 = old_fee / 100;
    let rem: u128 = old_fee % 100;
    proof {
        vstd::arithmetic::div_mod::lemma_fundamental_div_mod(old_fee as int, 100);
        let (o, qq, rr, kk) = (old_fee as int, q as int, rem as int, k as int);
        assert(o * kk == 100 * (qq * kk) + rr * kk) by (nonlinear_arith)
            requires
                o == 100 * qq + rr,
        ;
    }
    match q.checked_mul(k) {
        None => {
            proof {
                let (o, n, qq, rr, kk) = (
                    old_fee as int,
                    new_fee as int,
                    q as int,
                    rem as int,
                    k as int,
                );
                assert(n * 100 < o * kk) by (nonlinear_arith)
                    requires
                        qq * kk > u128::MAX,
                        n <= u128::MAX,
                        o * kk == 100 * (qq * kk) + rr * kk,
                        rr >= 0,
                        kk >= 0,
                ;
            }
            false
        },
        Some(qk) => {
            if new_fee < qk {
                proof {
                    let (o, n, rr, kk) = (old_fee as int, new_fee as int, rem as int, k as int);
                    assert(n * 100 < o * kk) by (nonlinear_arith)
                        requires
                            n < qk,
                            o * kk == 100 * qk + rr * kk,
                            rr >= 0,
                            kk >= 0,
                    ;
                }
                false
            } else {
                let d: u128 = new_fee - qk;
                proof {
                    assert(rem * k <= 99 * (100 + u64::MAX as int)) by (nonlinear_arith)
                        requires
                            rem < 100,
                            k <= 100 + u64::MAX,
                            rem >= 0,
                    ;
                }
                let rk: u128 = rem * k;
                match d.checked_mul(100) {
                    None => {
                        proof {
                            let (o, n, kk) = (old_fee as int, new_fee as int, k as int);
                            assert(n * 100 >= o * kk) by (nonlinear_arith)
                                requires
                                    d * 100 > u128::MAX,
                                    d == n - qk,
                                    o * kk == 100 * qk + rk,
                                    rk <= 99 * (100 + u64::MAX as int),
                            ;
                        }
                        true
                    },
                    Some(d100) => {
                        proof {
                            let (o, n, kk) = (old_fee as int, new_fee as int, k as int);
                            assert((n * 100 >= o * kk) == (d100 >= rk)) by (nonlinear_arith)
                                requires
                                    d100 == d * 100,
                                    d == n - qk,
                                    o * kk == 100 * qk + rk,
                            ;
                        }
                        d100 >= rk
                    },
                }
            }
        },
    }
}

impl BlockTemplate {
    /// Checks whether `t` can be admitted now, with `head` as its sender's head state
    /// where the template has recorded none. `Ok(Some(j))`: `t` replaces the transaction
    /// at `j`; `Ok(None)`: `t` is appended.
    #[verifier::spinoff_prover]
    pub fn check_transaction(&self, limits: Limits, t: &FullTransaction, head: AccountState) -> (r:
        Result<Option<usize>, ExecutionError>)
        requires
            self.wf(limits),
        ensures
            match r {
                Ok(o) => self.admission(limits, *t, head) == Ok::<Option<int>, ExecutionError>(
                    opt_index(o),
                ),
                Err(e) => self.admission(limits, *t, head) == Err::<Option<int>, ExecutionError>(e),
            },
            r matches Ok(Some(j)) ==> j < self.txs().len(),
    {
        let ghost txs = self.txs();
        if let Some(c) = t.chain_id {
            if c != limits.chain_id {
                return Err(ExecutionError::ChainIdMismatch);
            }
        }
        let a = match &t.sender {
            None => {
                return Err(ExecutionError::InvalidSignature);
            },
            Some(a) => a,
        };
        if !t.blobs_verified {
            return Err(ExecutionError::InvalidBlobSidecar);
        }
        assert(sender_view(*t) == a@);
        let known = self.find_head(a);
        let h = match known {
            Some(h) => h,
            None => head,
        };
        let (count, spent, found) = self.scan_sender(limits, a, t.nonce);
        proof {
            lemma_weights_nonneg(a@);
            lemma_sum_nonneg(txs, cost_weight(a@));
            lemma_cost_nonneg(*t);
            if known.is_none() {
                assert forall|i: int| 0 <= i < txs.len() implies cost_weight(a@)(#[trigger] txs[i]) == 0 by {
                    assert(txs[i].sender.is_some());
                    assert(head_of(self.hv(), sender_view(txs[i])).is_some());
                }
                lemma_sum_zero(txs, cost_weight(a@));
            }
            assert(spent <= h.balance);
        }
        match found {
            Some(j) => {
                let prev = &self.signed_constraints_list[j].message.tx;
                assert(*prev == txs[j as int]);
                if !fee_bump_ok(prev.max_fee_per_gas, t.max_fee_per_gas, limits.min_replacement_bump_percent) {
                    return Err(ExecutionError::ReplacementUnderpriced);
                }
                proof {
                    lemma_elem_le_sum(txs, j as int, cost_weight(a@));
                    lemma_elem_le_sum(txs, j as int, gas_weight());
                    lemma_elem_le_sum(txs, j as int, blob_weight());
                    lemma_cost_nonneg(*prev);
                    assert(sends(txs[j as int], a@)) by {
                        assert(last_match(txs, a@, t.nonce) == Some(j as int));
                        lemma_last_match_sends(txs, a@, t.nonce);
                    }
                }
                let prev_cost = match cost_of(prev) {
                    Some(c) => c,
                    None => {
                        proof {
                            assert(false);
                        }
                        0
                    },
                };
                let rest = spent - prev_cost;
                let total = match cost_of(t) {
                    Some(c) => rest.checked_add(c),
                    None => None,
                };
                match total {
                    Some(v) => {
                        if v > h.balance {
                            return Err(ExecutionError::InsufficientBalance);
                        }
                    },
                    None => {
                        return Err(ExecutionError::InsufficientBalance);
                    },
                }
                if t.gas_limit > limits.max_tx_gas {
                    return Err(ExecutionError::GasLimitTooHigh);
                }
                let gas_base = self.gas_used - prev.gas_limit;
                if t.gas_limit > limits.block_gas_limit - gas_base {
                    return Err(ExecutionError::MaxGasLimitExceeded);
                }
                let blob_base = self.blob_count - prev.blob_count;
                if t.blob_count > limits.max_blobs_per_block - blob_base {
                    return Err(ExecutionError::TooManyBlobs);
                }
                Ok(Some(j))
            },
            None => {
                if t.nonce < h.transaction_count || t.nonce - h.transaction_count < count as u64 {
                    return Err(ExecutionError::NonceTooLow);
                }
                if t.nonce - h.transaction_count > count as u64 {
                    return Err(ExecutionError::NonceGap);
                }
                let total = match cost_of(t) {
                    Some(c) => spent.checked_add(c),
                    None => None,
                };
                match total {
                    Some(v) => {
                        if v > h.balance {
                            return Err(ExecutionError::InsufficientBalance);
                        }
                    },
                    None => {
                        return Err(ExecutionError::InsufficientBalance);
                    },
                }
                if t.gas_limit > limits.max_tx_gas {
                    return Err(ExecutionError::GasLimitTooHigh);
                }
                if t.gas_limit > limits.block_gas_limit - self.gas_used {
                    return Err(ExecutionError::MaxGasLimitExceeded);
                }
                if t.blob_count > limits.max_blobs_per_block - self.blob_count {
                    return Err(ExecutionError::TooManyBlobs);
                }
                Ok(None)
            },
        }
    }
}

/// The transaction that `last_match` finds was sent by `a` with that nonce.
pub proof fn lemma_last_match_sends(s: Seq<FullTransaction>, a: Seq<u8>, nonce: u64)
    ensures
        last_match(s, a, nonce) matches Some(j) ==> 0 <= j < s.len() && sends(s[j], a) && s[j].nonce
            == nonce,
    decreases s.len(),
{
    if s.len() > 0 {
        lemma_last_match_sends(s.drop_last(), a, nonce);
    }
}

/// Appending an admitted transaction keeps the template's invariant.
proof fn lemma_push_keeps_wf(
    before: BlockTemplate,
    after: BlockTemplate,
    limits: Limits,
    c: SignedConstraints,
    head: AccountState,
)
    requires
        before.wf(limits),
        before.admission(limits, c.message.tx, head) == Ok::<Option<int>, ExecutionError>(None),
        after.signed_constraints_list@ == before.signed_constraints_list@.push(c),
        after.hv() == (if head_of(before.hv(), sender_view(c.message.tx)).is_some() {
            before.hv()
        } else {
            before.hv().push((sender_view(c.message.tx), head))
        }),
        after.gas_used == before.gas_used + c.message.tx.gas_limit,
        after.blob_count == before.blob_count + c.message.tx.blob_count,
    ensures
        after.wf(limits),
{
    let t = c.message.tx;
    let a = sender_view(t);
    let txs = before.txs();
    let txs2 = after.txs();
    let n = txs.len() as int;
    assert(txs2 =~= txs.push(t));
    let h = match head_of(before.hv(), a) {
        Some(h) => h,
        None => head,
    };
    assert forall|b: Seq<u8>| true implies head_of(after.hv(), b) == (if head_of(before.hv(), b).is_some() {
        head_of(before.hv(), b)
    } else if b == a {
        Some(h)
    } else {
        None
    }) by {
        if head_of(before.hv(), a).is_none() {
            lemma_head_of_push(before.hv(), (a, head), b);
        }
    }
    assert forall|i: int| 0 <= i < txs2.len() implies (#[trigger] txs2[i]).sender.is_some()
        && head_of(after.hv(), sender_view(txs2[i])).is_some() by {
        if i < n {
            assert(txs2[i] == txs[i]);
        }
    }
    assert forall|i: int| 0 <= i < txs2.len() implies (#[trigger] txs2[i]).nonce == head_of(
        after.hv(),
        sender_view(txs2[i]),
    ).unwrap().transaction_count + count_from(txs2.take(i), sender_view(txs2[i])) by {
        if i < n {
            assert(txs2[i] == txs[i]);
            assert(txs2.take(i) =~= txs.take(i));
        } else {
            assert(txs2.take(i) =~= txs);
        }
    }
    lemma_sum_push(txs, t, gas_weight());
    lemma_sum_push(txs, t, blob_weight());
    assert forall|b: Seq<u8>| #[trigger] head_of(after.hv(), b).is_some() implies spent_by(txs2, b)
        <= head_of(after.hv(), b).unwrap().balance by {
        lemma_sum_push(txs, t, cost_weight(b));
        if b != a {
            assert(cost_weight(b)(t) == 0);
        } else if head_of(before.hv(), a).is_none() {
            lemma_sum_zero_when_unknown(before, limits, a);
        }
    }
}

/// A sender without a recorded head has no admitted transactions.
proof fn lemma_sum_zero_when_unknown(tmpl: BlockTemplate, limits: Limits, a: Seq<u8>)
    requires
        tmpl.wf(limits),
        head_of(tmpl.hv(), a).is_none(),
    ensures
        spent_by(tmpl.txs(), a) == 0,
        count_from(tmpl.txs(), a) == 0,
{
    let txs = tmpl.txs();
    assert forall|i: int| 0 <= i < txs.len() implies cost_weight(a)(#[trigger] txs[i]) == 0 && count_weight(a)(txs[i]) == 0 by {
        assert(head_of(tmpl.hv(), sender_view(txs[i])).is_some());
    }
    assert forall|i: int| 0 <= i < txs.len() implies count_weight(a)(#[trigger] txs[i]) == 0 by {
        assert(head_of(tmpl.hv(), sender_view(txs[i])).is_some());
    }
    lemma_sum_zero(txs, cost_weight(a));
    lemma_sum_zero(txs, count_weight(a));
}

/// Replacing a transaction with an admitted one of the same sender and nonce keeps the
/// template's invariant.
proof fn lemma_replace_keeps_wf(
    before: BlockTemplate,
    after: BlockTemplate,
    limits: Limits,
    c: SignedConstraints,
    head: AccountState,
    j: int,
)
    requires
        before.wf(limits),
        before.admission(limits, c.message.tx, head) == Ok::<Option<int>, ExecutionError>(Some(j)),
        0 <= j < before.signed_constraints_list@.len(),
        after.signed_constraints_list@ == before.signed_constraints_list@.update(j, c),
        after.hv() == before.hv(),
        after.gas_used == before.gas_used - before.txs()[j].gas_limit + c.message.tx.gas_limit,
        after.blob_count == before.blob_count - before.txs()[j].blob_count + c.message.tx.blob_count,
    ensures
        after.wf(limits),
{
    let t = c.message.tx;
    let a = sender_view(t);
    let txs = before.txs();
    let txs2 = after.txs();
    let prev = txs[j];
    assert(txs2 =~= txs.update(j, t));
    lemma_last_match_sends(txs, a, t.nonce);
    assert(sends(prev, a) && prev.nonce == t.nonce);
    assert(sender_view(prev) == a);
    assert forall|b: Seq<u8>| true implies (#[trigger] count_weight(b)(t)) == count_weight(b)(prev) by {}
    assert forall|i: int| 0 <= i < txs2.len() implies (#[trigger] txs2[i]).sender.is_some()
        && head_of(after.hv(), sender_view(txs2[i])).is_some() by {
        if i != j {
            assert(txs2[i] == txs[i]);
        }
    }
    assert forall|i: int| 0 <= i < txs2.len() implies (#[trigger] txs2[i]).nonce == head_of(
        after.hv(),
        sender_view(txs2[i]),
    ).unwrap().transaction_count + count_from(txs2.take(i), sender_view(txs2[i])) by {
        let sv = sender_view(txs2[i]);
        if i != j {
            assert(txs2[i] == txs[i]);
        }
        if j < i {
            assert(txs2.take(i) =~= txs.take(i).update(j, t));
            lemma_sum_update(txs.take(i), j, t, count_weight(sv));
            assert(txs.take(i)[j] == prev);
        } else {
            assert(txs2.take(i) =~= txs.take(i));
        }
    }
    lemma_sum_update(txs, j, t, gas_weight());
    lemma_sum_update(txs, j, t, blob_weight());
    assert forall|b: Seq<u8>| #[trigger] head_of(after.hv(), b).is_some() implies spent_by(txs2, b)
        <= head_of(after.hv(), b).unwrap().balance by {
        lemma_sum_update(txs, j, t, cost_weight(b));
    }
}

impl BlockTemplate {
    /// Admits a signed constraint, with `head` as its sender's head state where the
    /// template has recorded none.
    ///
    /// A transaction that replaces one of the same sender and nonce takes its place;
    /// any other is appended. A constraint that cannot be admitted leaves the template
    /// as it was.
    pub fn add_constraint(&mut self, limits: Limits, constraint: SignedConstraints, head: AccountState) -> (r:
        Result<(), ExecutionError>)
        requires
            old(self).wf(limits),
        ensures
            final(self).wf(limits),
            match r {
                Ok(()) => match old(self).admission(limits, constraint.message.tx, head) {
                    Ok(Some(j)) => final(self).signed_constraints_list@
                        == old(self).signed_constraints_list@.update(j, constraint)
                        && final(self).hv() == old(self).hv(),
                    Ok(None) => final(self).signed_constraints_list@
                        == old(self).signed_constraints_list@.push(constraint) && final(self).hv()
                        == (if head_of(old(self).hv(), sender_view(constraint.message.tx)).is_some() {
                        old(self).hv()
                    } else {
                        old(self).hv().push((sender_view(constraint.message.tx), head))
                    }),
                    Err(_) => false,
                },
                Err(e) => old(self).admission(limits, constraint.message.tx, head) == Err::<
                    Option<int>,
                    ExecutionError,
                >(e) && final(self).signed_constraints_list@ == old(self).signed_constraints_list@
                    && final(self).heads@ == old(self).heads@ && final(self).gas_used == old(
                    self,
                ).gas_used && final(self).blob_count == old(self).blob_count,
            },
    {
        match self.admit_step(limits, constraint, head) {
            Ok(_) => Ok(()),
            Err(e) => Err(e),
        }
    }

    /// Admits `constraint` as `add_constraint` does, and says how to undo it.
    #[verifier::spinoff_prover]
    fn admit_step(&mut self, limits: Limits, constraint: SignedConstraints, head: AccountState) -> (r:
        Result<UndoStep, ExecutionError>)
        requires
            old(self).wf(limits),
        ensures
            final(self).wf(limits),
            r matches Ok(u) ==> undoes(u, *old(self), *final(self)),
            match r {
                Ok(_) => match old(self).admission(limits, constraint.message.tx, head) {
                    Ok(Some(j)) => final(self).signed_constraints_list@
                        == old(self).signed_constraints_list@.update(j, constraint)
                        && final(self).hv() == old(self).hv(),
                    Ok(None) => final(self).signed_constraints_list@
                        == old(self).signed_constraints_list@.push(constraint) && final(self).hv()
                        == (if head_of(old(self).hv(), sender_view(constraint.message.tx)).is_some() {
                        old(self).hv()
                    } else {
                        old(self).hv().push((sender_view(constraint.message.tx), head))
                    }),
                    Err(_) => false,
                },
                Err(e) => old(self).admission(limits, constraint.message.tx, head) == Err::<
                    Option<int>,
                    ExecutionError,
                >(e) && final(self).signed_constraints_list@ == old(self).signed_constraints_list@
                    && final(self).heads@ == old(self).heads@ && final(self).gas_used == old(
                    self,
                ).gas_used && final(self).blob_count == old(self).blob_count,
            },
    {
        let found = match self.check_transaction(limits, &constraint.message.tx, head) {
            Err(e) => {
                return Err(e);
            },
            Ok(found) => found,
        };
        match found {
            Some(j) => Ok(self.replace_admitted(limits, constraint, head, j)),
            None => Ok(self.append_admitted(limits, constraint, head)),
        }
    }

    /// Puts an admitted replacement in place of the constraint at `j`.
    #[verifier::rlimit(100)]
    #[verifier::spinoff_prover]
    fn replace_admitted(&mut self, limits: Limits, constraint: SignedConstraints, head: AccountState, j: usize) -> (u:
        UndoStep)
        requires
            old(self).wf(limits),
            old(self).admission(limits, constraint.message.tx, head) == Ok::<Option<int>, ExecutionError>(
                Some(j as int),
            ),
            j < old(self).signed_constraints_list@.len(),
        ensures
            final(self).wf(limits),
            undoes(u, *old(self), *final(self)),
            final(self).signed_constraints_list@ == old(self).signed_constraints_list@.update(
                j as int,
                constraint,
            ),
            final(self).hv() == old(self).hv(),
    {
        let ghost before = *self;
        let gas = constraint.message.tx.gas_limit;
        let blobs = constraint.message.tx.blob_count;
        let prev_gas = self.signed_constraints_list[j].message.tx.gas_limit;
        let prev_blobs = self.signed_constraints_list[j].message.tx.blob_count;
        proof {
            assert(before.txs()[j as int] == before.signed_constraints_list@[j as int].message.tx);
            lemma_elem_le_sum(before.txs(), j as int, gas_weight());
            lemma_elem_le_sum(before.txs(), j as int, blob_weight());
            lemma_weights_nonneg(Seq::empty());
        }
        self.gas_used = self.gas_used - prev_gas + gas;
        self.blob_count = self.blob_count - prev_blobs + blobs;
        let previous = self.signed_constraints_list.remove(j);
        self.signed_constraints_list.insert(j, constraint);
        proof {
            assert(self.signed_constraints_list@ =~= before.signed_constraints_list@.update(
                j as int,
                constraint,
            ));
            lemma_replace_keeps_wf(before, *self, limits, constraint, head, j as int);
            assert(previous == before.signed_constraints_list@[j as int]);
        }
        UndoStep::Replaced { index: j, previous }
    }

    /// Appends an admitted constraint, recording its sender's head if new.
    #[verifier::spinoff_prover]
    fn append_admitted(&mut self, limits: Limits, constraint: SignedConstraints, head: AccountState) -> (u:
        UndoStep)
        requires
            old(self).wf(limits),
            old(self).admission(limits, constraint.message.tx, head) == Ok::<Option<int>, ExecutionError>(
                None,
            ),
        ensures
            final(self).wf(limits),
            undoes(u, *old(self), *final(self)),
            final(self).signed_constraints_list@ == old(self).signed_constraints_list@.push(constraint),
            final(self).hv() == (if head_of(old(self).hv(), sender_view(constraint.message.tx)).is_some() {
                old(self).hv()
            } else {
                old(self).hv().push((sender_view(constraint.message.tx), head))
            }),
    {
        let ghost before = *self;
        let gas = constraint.message.tx.gas_limit;
        let blobs = constraint.message.tx.blob_count;
        proof {
            lemma_weights_nonneg(Seq::empty());
            lemma_sum_nonneg(before.txs(), gas_weight());
        }
        let mut new_head = false;
        match &constraint.message.tx.sender {
            Some(a) => {
                if self.find_head(a).is_none() {
                    let address = a.clone();
                    let ghost a_view = a@;
                    assert(address@ =~= a_view);
                    self.heads.push(AccountHead { address, state: head });
                    assert(self.hv() =~= before.hv().push((a_view, head)));
                    assert(self.heads@.drop_last() =~= before.heads@);
                    new_head = true;
                }
            },
            None => {},
        }
        self.gas_used = self.gas_used + gas;
        self.blob_count = self.blob_count + blobs;
        self.signed_constraints_list.push(constraint);
        proof {
            lemma_push_keeps_wf(before, *self, limits, constraint, head);
            assert(self.signed_constraints_list@.drop_last() =~= before.signed_constraints_list@);
        }
        UndoStep::Appended { new_head }
    }
}

/// Two admitted transactions of one sender: the later has the higher nonce.
pub proof fn lemma_sender_nonces_increase(tmpl: BlockTemplate, limits: Limits, i: int, k: int)
    requires
        tmpl.wf(limits),
        0 <= i < k < tmpl.txs().len(),
        sender_view(tmpl.txs()[i]) == sender_view(tmpl.txs()[k]),
    ensures
        tmpl.txs()[i].nonce < tmpl.txs()[k].nonce,
{
    let txs = tmpl.txs();
    let a = sender_view(txs[i]);
    lemma_weights_nonneg(a);
    assert(txs.take(i + 1) =~= txs.take(i).push(txs[i]));
    lemma_sum_push(txs.take(i), txs[i], count_weight(a));
    assert(sends(txs[i], a));
    lemma_sum_prefix(txs.take(k), i + 1, count_weight(a));
    assert(txs.take(k).take(i + 1) =~= txs.take(i + 1));
}

/// The template's invariant, spelled out: each admitted transaction's nonce is its
/// sender's head nonce plus the number of its earlier transactions in the template; no
/// sender's projected balance is negative; gas and blobs stay within the limits.
pub proof fn lemma_template_invariants(tmpl: BlockTemplate, limits: Limits)
    requires
        tmpl.wf(limits),
    ensures
        forall|i: int|
            0 <= i < tmpl.txs().len() ==> #[trigger] tmpl.txs()[i].nonce == head_of(
                tmpl.hv(),
                sender_view(tmpl.txs()[i]),
            ).unwrap().transaction_count + count_from(
                tmpl.txs().take(i),
                sender_view(tmpl.txs()[i]),
            ),
        forall|a: Seq<u8>| #[trigger]
            tmpl.projected(a).is_some() ==> tmpl.projected(a).unwrap().1 >= 0,
        gas_of(tmpl.txs()) <= limits.block_gas_limit,
        blobs_of(tmpl.txs()) <= limits.max_blobs_per_block,
{
    assert forall|a: Seq<u8>| #[trigger] tmpl.projected(a).is_some() implies tmpl.projected(a).unwrap().1 >= 0 by {
        assert(head_of(tmpl.hv(), a).is_some());
    }
}

/// A transaction that the template already holds is rejected when offered again.
pub proof fn lemma_held_transaction_rejected(
    tmpl: BlockTemplate,
    limits: Limits,
    j: int,
    head: AccountState,
)
    requires
        tmpl.wf(limits),
        0 <= j < tmpl.txs().len(),
    ensures
        tmpl.admission(limits, tmpl.txs()[j], head).is_err(),
{
    let txs = tmpl.txs();
    let t = txs[j];
    let a = sender_view(t);
    if t.chain_id.is_some() && t.chain_id.unwrap() != limits.chain_id {
    } else {
        lemma_last_match_finds(txs, a, t.nonce, j);
        let m = last_match(txs, a, t.nonce).unwrap();
        lemma_last_match_sends(txs, a, t.nonce);
        if m != j {
            if m < j {
                lemma_sender_nonces_increase(tmpl, limits, m, j);
            } else {
                lemma_sender_nonces_increase(tmpl, limits, j, m);
            }
        }
    }
}

/// `last_match` finds something wherever a match exists.
proof fn lemma_last_match_finds(s: Seq<FullTransaction>, a: Seq<u8>, nonce: u64, j: int)
    requires
        0 <= j < s.len(),
        sends(s[j], a),
        s[j].nonce == nonce,
    ensures
        last_match(s, a, nonce).is_some(),
    decreases s.len(),
{
    if j < s.len() - 1 {
        assert(s.drop_last()[j] == s[j]);
        lemma_last_match_finds(s.drop_last(), a, nonce, j);
    }
}

/// Applying the same constraint twice: once it was admitted, the template that results
/// rejects it, so the second application changes nothing.
pub proof fn lemma_same_constraint_twice(
    before: BlockTemplate,
    after: BlockTemplate,
    limits: Limits,
    c: SignedConstraints,
    head: AccountState,
    head_again: AccountState,
)
    requires
        before.wf(limits),
        after.wf(limits),
        before.admission(limits, c.message.tx, head).is_ok(),
        before.admission(limits, c.message.tx, head) matches Ok(Some(j))
            ==> after.signed_constraints_list@ == before.signed_constraints_list@.update(j, c),
        before.admission(limits, c.message.tx, head) matches Ok(None)
            ==> after.signed_constraints_list@ == before.signed_constraints_list@.push(c),
    ensures
        after.admission(limits, c.message.tx, head_again).is_err(),
{
    let n = before.signed_constraints_list@.len() as int;
    match before.admission(limits, c.message.tx, head) {
        Ok(Some(j)) => {
            lemma_last_match_sends(before.txs(), sender_view(c.message.tx), c.message.tx.nonce);
            assert(after.txs()[j] == c.message.tx);
            lemma_held_transaction_rejected(after, limits, j, head_again);
        },
        _ => {
            assert(after.txs()[n] == c.message.tx);
            lemma_held_transaction_rejected(after, limits, n, head_again);
        },
    }
}

/// A template whose gas reaches the block gas limit rejects every further transaction
/// that asks for gas, unless it replaces one the template holds.
pub proof fn lemma_full_template_rejects(
    tmpl: BlockTemplate,
    limits: Limits,
    t: FullTransaction,
    head: AccountState,
)
    requires
        tmpl.wf(limits),
        gas_of(tmpl.txs()) == limits.block_gas_limit,
        t.gas_limit > 0,
        last_match(tmpl.txs(), sender_view(t), t.nonce).is_none(),
    ensures
        tmpl.admission(limits, t, head).is_err(),
{
}

/// The head state a constraint is revalidated with: the fresh one of its sender where
/// there is one, else the one recorded before.
pub open spec fn revalidation_head(t: FullTransaction, fresh: Seq<HeadView>, recorded: Seq<HeadView>) -> AccountState {
    match head_of(fresh, sender_view(t)) {
        Some(h) => h,
        None => match head_of(recorded, sender_view(t)) {
            Some(h) => h,
            None => AccountState { transaction_count: 0, balance: 0, has_code: false },
        },
    }
}

/// Offering the constraints `cs` in order to an empty template, each with its
/// revalidation head: the constraints kept, the heads recorded, and those evicted.
pub open spec fn replay(
    cs: Seq<SignedConstraints>,
    fresh: Seq<HeadView>,
    recorded: Seq<HeadView>,
    limits: Limits,
) -> (Seq<SignedConstraints>, Seq<HeadView>, Seq<SignedConstraints>)
    decreases cs.len(),
{
    if cs.len() == 0 {
        (Seq::empty(), Seq::empty(), Seq::empty())
    } else {
        let (kept, heads, evicted) = replay(cs.drop_last(), fresh, recorded, limits);
        let c = cs.last();
        let a = sender_view(c.message.tx);
        let h = revalidation_head(c.message.tx, fresh, recorded);
        match admits(txs_of(kept), heads, limits, c.message.tx, h) {
            Ok(Some(j)) => (kept.update(j, c), heads, evicted),
            Ok(None) => (
                kept.push(c),
                if head_of(heads, a).is_some() {
                    heads
                } else {
                    heads.push((a, h))
                },
                evicted,
            ),
            Err(_) => (kept, heads, evicted.push(c)),
        }
    }
}

impl BlockTemplate {
    /// Revalidates the template on a new head: offers every admitted constraint again, in
    /// order, to an empty template, with the `fresh` head state of its sender where one is
    /// given (else the one recorded before). Returns the new template and the evicted
    /// constraints.
    #[verifier::spinoff_prover]
    pub fn revalidate(self, limits: Limits, fresh: &Vec<AccountHead>) -> (r: (BlockTemplate, Vec<SignedConstraints>))
        ensures
            r.0.wf(limits),
            (r.0.signed_constraints_list@, r.0.hv(), r.1@) == replay(
                self.signed_constraints_list@,
                heads_view(fresh@),
                self.hv(),
                limits,
            ),
    {
        let ghost recorded = self.hv();
        let ghost fresh_view = heads_view(fresh@);
        let ghost orig = self.signed_constraints_list@;
        let BlockTemplate { signed_constraints_list, heads, gas_used: _, blob_count: _ } = self;
        let mut rest = signed_constraints_list;
        let mut out = BlockTemplate::new();
        let mut evicted: Vec<SignedConstraints> = Vec::new();
        proof {
            assert(orig.take(0) =~= Seq::<SignedConstraints>::empty());
            assert(out.hv() =~= Seq::<HeadView>::empty());
            assert(orig.skip(0) =~= orig);
            assert(out.txs() =~= Seq::<FullTransaction>::empty());
        }
        while rest.len() > 0
            invariant
                out.wf(limits),
                recorded == heads_view(heads@),
                fresh_view == heads_view(fresh@),
                rest@.len() <= orig.len(),
                rest@ == orig.skip(orig.len() - rest@.len()),
                (out.signed_constraints_list@, out.hv(), evicted@) == replay(
                    orig.take(orig.len() - rest@.len()),
                    fresh_view,
                    recorded,
                    limits,
                ),
            decreases rest@.len(),
        {
            let ghost done = orig.len() - rest@.len();
            let c = rest.remove(0);
            proof {
                assert(c == orig[done]);
                assert(rest@ =~= orig.skip(done + 1));
                assert(orig.take(done + 1).drop_last() =~= orig.take(done));
                assert(orig.take(done + 1).last() == c);
                assert(out.txs() == txs_of(out.signed_constraints_list@));
            }
            let h = match &c.message.tx.sender {
                Some(a) => match lookup_head(fresh, a) {
                    Some(h) => h,
                    None => match lookup_head(&heads, a) {
                        Some(h) => h,
                        None => AccountState { transaction_count: 0, balance: 0, has_code: false },
                    },
                },
                None => AccountState { transaction_count: 0, balance: 0, has_code: false },
            };
            proof {
                if c.message.tx.sender.is_none() {
                    assert(out.admission(limits, c.message.tx, h).is_err());
                }
            }
            match out.check_transaction(limits, &c.message.tx, h) {
                Err(_) => {
                    evicted.push(c);
                },
                Ok(_) => {
                    let added = out.add_constraint(limits, c, h);
                    assert(added.is_ok());
                },
            }
        }
        proof {
            assert(orig.take(orig.len() as int) =~= orig);
        }
        (out, evicted)
    }
}

/// How to take back one admission.
#[derive(Debug)]
pub enum UndoStep {
    /// The constraint was appended, with a new head recorded for its sender or not.
    Appended { new_head: bool },
    /// The constraint replaced `previous` at `index`.
    Replaced { index: usize, previous: SignedConstraints },
}

/// Whether the two templates hold the same constraints, heads, gas and blobs.
pub open spec fn same_content(a: BlockTemplate, b: BlockTemplate) -> bool {
    &&& a.signed_constraints_list@ == b.signed_constraints_list@
    &&& a.heads@ == b.heads@
    &&& a.gas_used == b.gas_used
    &&& a.blob_count == b.blob_count
}

/// Whether taking back `step` from `after` gives `before`.
pub open spec fn undoes(step: UndoStep, before: BlockTemplate, after: BlockTemplate) -> bool {
    let bl = before.signed_constraints_list@;
    let al = after.signed_constraints_list@;
    match step {
        UndoStep::Appended { new_head } => {
            &&& al.len() == bl.len() + 1
            &&& al.drop_last() == bl
            &&& new_head ==> after.heads@.len() == before.heads@.len() + 1 && after.heads@.drop_last()
                == before.heads@
            &&& !new_head ==> after.heads@ == before.heads@
            &&& after.gas_used == before.gas_used + al.last().message.tx.gas_limit
            &&& after.blob_count == before.blob_count + al.last().message.tx.blob_count
        },
        UndoStep::Replaced { index, previous } => {
            &&& index < bl.len()
            &&& bl[index as int] == previous
            &&& al == bl.update(index as int, al[index as int])
            &&& after.heads@ == before.heads@
            &&& before.gas_used >= previous.message.tx.gas_limit
            &&& before.blob_count >= previous.message.tx.blob_count
            &&& after.gas_used == before.gas_used - previous.message.tx.gas_limit
                + al[index as int].message.tx.gas_limit
            &&& after.blob_count == before.blob_count - previous.message.tx.blob_count
                + al[index as int].message.tx.blob_count
        },
    }
}

/// Admitting the constraints `cs` one after another, each against the template as the
/// ones before it left it (`hs[i]` being the head state of the sender of `cs[i]`): the
/// resulting constraints and heads, or the error of the first that cannot be admitted.
pub open spec fn admit_all(
    list: Seq<SignedConstraints>,
    heads: Seq<HeadView>,
    limits: Limits,
    cs: Seq<SignedConstraints>,
    hs: Seq<AccountState>,
) -> Result<(Seq<SignedConstraints>, Seq<HeadView>), ExecutionError>
    decreases cs.len(),
{
    if cs.len() == 0 {
        Ok((list, heads))
    } else {
        let t = cs[0].message.tx;
        match admits(txs_of(list), heads, limits, t, hs[0]) {
            Err(e) => Err(e),
            Ok(Some(j)) => admit_all(list.update(j, cs[0]), heads, limits, cs.drop_first(), hs.drop_first()),
            Ok(None) => admit_all(
                list.push(cs[0]),
                if head_of(heads, sender_view(t)).is_some() {
                    heads
                } else {
                    heads.push((sender_view(t), hs[0]))
                },
                limits,
                cs.drop_first(),
                hs.drop_first(),
            ),
        }
    }
}

impl BlockTemplate {
    /// Takes back one admission.
    fn undo(&mut self, step: UndoStep, before: Ghost<BlockTemplate>)
        requires
            undoes(step, before@, *old(self)),
        ensures
            same_content(*final(self), before@),
    {
        let ghost after = *self;
        match step {
            UndoStep::Appended { new_head } => {
                match self.signed_constraints_list.pop() {
                    Some(c) => {
                        self.gas_used = self.gas_used - c.message.tx.gas_limit;
                        self.blob_count = self.blob_count - c.message.tx.blob_count;
                    },
                    None => {},
                }
                if new_head {
                    let _ = self.heads.pop();
                }
            },
            UndoStep::Replaced { index, previous } => {
                let current = self.signed_constraints_list.remove(index);
                self.gas_used = self.gas_used - current.message.tx.gas_limit + previous.message.tx.gas_limit;
                self.blob_count = self.blob_count - current.message.tx.blob_count
                    + previous.message.tx.blob_count;
                self.signed_constraints_list.insert(index, previous);
                assert(self.signed_constraints_list@ =~= before@.signed_constraints_list@);
            },
        }
    }

    /// Takes back the admissions of `log`, last first.
    fn unwind(&mut self, log: Vec<UndoStep>, hist: Ghost<Seq<BlockTemplate>>)
        requires
            hist@.len() == log@.len() + 1,
            same_content(*old(self), hist@.last()),
            forall|k: int| 0 <= k < log@.len() ==> undoes(#[trigger] log@[k], hist@[k], hist@[k + 1]),
        ensures
            same_content(*final(self), hist@[0]),
    {
        let mut log = log;
        while log.len() > 0
            invariant
                hist@.len() >= log@.len() + 1,
                same_content(*self, hist@[log@.len() as int]),
                forall|k: int| 0 <= k < log@.len() ==> undoes(#[trigger] log@[k], hist@[k], hist@[k + 1]),
            decreases log@.len(),
        {
            let ghost n = log@.len() - 1;
            let ghost kept = log@;
            let step = log.pop().unwrap();
            proof {
                assert(undoes(kept[n], hist@[n], hist@[n + 1]));
                assert(forall|k: int| 0 <= k < log@.len() ==> log@[k] == kept[k]);
            }
            self.undo(step, Ghost(hist@[n]));
        }
    }

    /// Admits the constraints `constraints` together, each against the template as the ones
    /// before it left it (`heads[i]` being the head state of the sender of
    /// `constraints[i]`): all of them, or, with the error of the first that cannot be
    /// admitted, none.
    #[verifier::spinoff_prover]
    pub fn admit_batch(
        &mut self,
        limits: Limits,
        constraints: Vec<SignedConstraints>,
        heads: &Vec<AccountState>,
    ) -> (r: Result<(), ExecutionError>)
        requires
            old(self).wf(limits),
            constraints@.len() == heads@.len(),
        ensures
            final(self).wf(limits),
            match admit_all(
                old(self).signed_constraints_list@,
                old(self).hv(),
                limits,
                constraints@,
                heads@,
            ) {
                Ok((l, h)) => r is Ok && final(self).signed_constraints_list@ == l && final(self).hv() == h,
                Err(e) => r == Err::<(), ExecutionError>(e) && same_content(*final(self), *old(self)),
            },
    {
        let ghost orig = *self;
        let ghost all = constraints@;
        let mut log: Vec<UndoStep> = Vec::new();
        let ghost mut hist: Seq<BlockTemplate> = seq![*self];
        let mut cs = constraints;
        let mut i: usize = 0;
        assert(all.skip(0) =~= all);
        assert(heads@.skip(0) =~= heads@);
        while cs.len() > 0
            invariant
                self.wf(limits),
                i + cs@.len() == all.len(),
                all.len() == heads@.len(),
                cs@ == all.skip(i as int),
                hist.len() == log@.len() + 1,
                hist[0] == orig,
                orig == *old(self),
                all == constraints@,
                orig.wf(limits),
                hist.last() == *self,
                forall|k: int| 0 <= k < log@.len() ==> undoes(#[trigger] log@[k], hist[k], hist[k + 1]),
                admit_all(orig.signed_constraints_list@, orig.hv(), limits, all, heads@) == admit_all(
                    self.signed_constraints_list@,
                    self.hv(),
                    limits,
                    all.skip(i as int),
                    heads@.skip(i as int),
                ),
            decreases cs@.len(),
        {
            let c = cs.remove(0);
            proof {
                assert(c == all.skip(i as int)[0]);
                assert(cs@ =~= all.skip(i + 1));
                assert(all.skip(i as int).drop_first() =~= all.skip(i + 1));
                assert(heads@.skip(i as int).drop_first() =~= heads@.skip(i + 1));
                assert(heads@.skip(i as int)[0] == heads@[i as int]);
            }
            let ghost pre = *self;
            match self.admit_step(limits, c, heads[i]) {
                Err(e) => {
                    proof {
                        assert(pre.admission(limits, c.message.tx, heads@[i as int]) == Err::<
                            Option<int>,
                            ExecutionError,
                        >(e));
                        assert(admit_all(
                            pre.signed_constraints_list@,
                            pre.hv(),
                            limits,
                            all.skip(i as int),
                            heads@.skip(i as int),
                        ) == Err::<(Seq<SignedConstraints>, Seq<HeadView>), ExecutionError>(e));
                    }
                    self.unwind(log, Ghost(hist));
                    proof {
                        assert(self.txs() == orig.txs());
                        assert(self.hv() == orig.hv());
                    }
                    return Err(e);
                },
                Ok(step) => {
                    let ghost before_log = log@;
                    log.push(step);
                    proof {
                        hist = hist.push(*self);
                        assert forall|k: int| 0 <= k < log@.len() implies undoes(
                            #[trigger] log@[k],
                            hist[k],
                            hist[k + 1],
                        ) by {
                            if k < before_log.len() {
                                assert(log@[k] == before_log[k]);
                            }
                        }
                    }
                    let n = heads.len();
                    assert(i < n);
                    i = i + 1;
                },
            }
        }
        proof {
            assert(all.skip(i as int) =~= Seq::<SignedConstraints>::empty());
        }
        Ok(())
    }
}

/// Admitting a request's constraints never lengthens the list by more than their number;
/// when it does by exactly that, none replaced a held one and the list ends with the
/// request's constraints, in request order.
pub proof fn lemma_admit_all_appends(
    list: Seq<SignedConstraints>,
    heads: Seq<HeadView>,
    limits: Limits,
    cs: Seq<SignedConstraints>,
    hs: Seq<AccountState>,
)
    requires
        admit_all(list, heads, limits, cs, hs).is_ok(),
    ensures
        ({
            let l = admit_all(list, heads, limits, cs, hs).unwrap().0;
            &&& l.len() <= list.len() + cs.len()
            &&& l.len() == list.len() + cs.len() ==> l == list + cs
        }),
    decreases cs.len(),
{
    if cs.len() == 0 {
        assert(list + cs =~= list);
    } else {
        let t = cs[0].message.tx;
        match admits(txs_of(list), heads, limits, t, hs[0]) {
            Err(_) => {},
            Ok(Some(j)) => {
                lemma_last_match_sends(txs_of(list), sender_view(t), t.nonce);
                lemma_admit_all_appends(list.update(j, cs[0]), heads, limits, cs.drop_first(), hs.drop_first());
            },
            Ok(None) => {
                let h2 = if head_of(heads, sender_view(t)).is_some() {
                    heads
                } else {
                    heads.push((sender_view(t), hs[0]))
                };
                lemma_admit_all_appends(list.push(cs[0]), h2, limits, cs.drop_first(), hs.drop_first());
                assert(list.push(cs[0]) + cs.drop_first() =~= list + cs);
            },
        }
    }
}

} // verus!
