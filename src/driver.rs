//! The decisions of the sidecar's event loop: what each event does to the consensus and
//! execution state, and what must be signed, relayed or answered.
use vstd::prelude::*;
use crate::commitment::InclusionRequest;
use crate::consensus::{ConsensusError, ConsensusState, Slot};
use crate::delegation::{
    delegatees_in, pick_public_key, picked_key, BlsPublicKey, BlsSignature, DelegationStore,
};
use crate::execution::{head_updated, request_admission, ExecutionState};
use crate::template::{
    admit_all, heads_view, lemma_admit_all_appends, AccountHead, AccountState, ConstraintsMessage, ExecutionError, SignedConstraints,
};
use crate::wire::{relay_view, RecordView, RelayConstraint};

verus! {

/// Why a commitment request was not honoured.
#[derive(Debug, Clone, Copy, PartialEq, Eq, Structural)]
pub enum CommitmentError {
    /// Rejected by the consensus state.
    Consensus(ConsensusError),
    /// Rejected by the execution state.
    Validation(ExecutionError),
    /// No key could sign, or signing failed.
    Internal,
}

/// The state that the event loop owns: consensus, execution, and the delegations that
/// decide which key signs constraints.
#[derive(Debug)]
pub struct SidecarDriver {
    pub consensus: ConsensusState,
    pub execution: ExecutionState,
    pub delegations: DelegationStore,
}

/// The constraints made of `messages[i]` signed with `signatures[i]`.
pub open spec fn signed_with(messages: Seq<ConstraintsMessage>, signatures: Seq<BlsSignature>) -> Seq<
    SignedConstraints,
> {
    Seq::new(
        messages.len(),
        |i: int| SignedConstraints { message: messages[i], signature: signatures[i] },
    )
}

/// The relay record of each constraint in `cs`, in order.
pub open spec fn relay_records(cs: Seq<SignedConstraints>) -> Seq<RecordView> {
    cs.map_values(
        |c: SignedConstraints|
            (c.message.pubkey@, c.message.slot, c.message.tx.envelope@, c.signature@),
    )
}

impl SidecarDriver {
    /// A driver over the given states.
    pub fn new(consensus: ConsensusState, execution: ExecutionState, delegations: DelegationStore) -> (r:
        Self)
        ensures
            r.consensus == consensus,
            r.execution == execution,
            r.delegations == delegations,
    {
        SidecarDriver { consensus, execution, delegations }
    }

    /// What an inclusion request for `slot` received at `now` resolves to before signing:
    /// the key that signs its constraints, or why it is refused.
    pub open spec fn inclusion_outcome(
        &self,
        slot: Slot,
        req: Seq<crate::template::FullTransaction>,
        heads: Seq<AccountState>,
        now: u64,
        available: Seq<Seq<u8>>,
    ) -> Result<Seq<u8>, CommitmentError> {
        match self.consensus.validation(slot, now) {
            Err(e) => Err(CommitmentError::Consensus(e)),
            Ok(v) => match request_admission(
                self.execution.txs_at(slot),
                self.execution.heads_at(slot),
                self.execution.limits,
                req,
                heads,
            ) {
                Err(e) => Err(CommitmentError::Validation(e)),
                Ok(()) => match picked_key(v, available, delegatees_in(self.delegations.records@, v)) {
                    Some(k) => Ok(k),
                    None => Err(CommitmentError::Internal),
                },
            },
        }
    }

    /// Handles an inclusion request up to signing: validates it against the consensus
    /// state, then each transaction against the slot's template (`heads[i]` being the
    /// head state of the sender of the `i`-th transaction), and picks the signing key.
    /// Returns the key and one constraint message per transaction, in request order.
    pub fn prepare_inclusion(
        &self,
        request: InclusionRequest,
        heads: &Vec<AccountState>,
        now: u64,
        available: &Vec<BlsPublicKey>,
    ) -> (r: Result<(BlsPublicKey, Vec<ConstraintsMessage>), CommitmentError>)
        requires
            self.execution.wf(),
            request.txs@.len() == heads@.len(),
        ensures
            match r {
                Ok((k, msgs)) => self.inclusion_outcome(
                    request.slot,
                    request.txs@,
                    heads@,
                    now,
                    available.deep_view(),
                ) == Ok::<Seq<u8>, CommitmentError>(k@) && msgs@.len() == request.txs@.len() && forall|
                    i: int,
                | 0 <= i < msgs@.len() ==> (#[trigger] msgs@[i]).pubkey@ == k@ && msgs@[i].slot
                    == request.slot && msgs@[i].tx == request.txs@[i],
                Err(e) => self.inclusion_outcome(
                    request.slot,
                    request.txs@,
                    heads@,
                    now,
                    available.deep_view(),
                ) == Err::<Seq<u8>, CommitmentError>(e),
            },
    {
        let slot = request.slot;
        let validator = match self.consensus.validate_request(slot, now) {
            Ok(v) => v,
            Err(e) => {
                return Err(CommitmentError::Consensus(e));
            },
        };
        if let Err(e) = self.execution.validate_request(slot, &request.txs, heads) {
            return Err(CommitmentError::Validation(e));
        }
        let delegatees = self.delegations.find_delegatees(&validator);
        let key = match pick_public_key(validator, available, &delegatees) {
            Some(k) => k,
            None => {
                return Err(CommitmentError::Internal);
            },
        };
        let ghost orig = request.txs@;
        let mut txs = request.txs;
        let mut msgs: Vec<ConstraintsMessage> = Vec::new();
        while txs.len() > 0
            invariant
                msgs@.len() + txs@.len() == orig.len(),
                txs@ == orig.skip(msgs@.len() as int),
                forall|i: int|
                    0 <= i < msgs@.len() ==> (#[trigger] msgs@[i]).pubkey@ == key@ && msgs@[i].slot
                        == slot && msgs@[i].tx == orig[i],
            decreases txs@.len(),
        {
            let ghost done = msgs@.len() as int;
            let tx = txs.remove(0);
            assert(tx == orig[done]);
            assert(txs@ =~= orig.skip(done + 1));
            let pubkey = key.clone();
            assert(pubkey@ =~= key@);
            msgs.push(ConstraintsMessage { pubkey, slot, tx });
        }
        Ok((key, msgs))
    }

    /// Admits a signed constraint into its slot's template; `head` is the head state of
    /// the transaction's sender.
    pub fn admit_signed(&mut self, signed: SignedConstraints, head: AccountState) -> (r: Result<(), CommitmentError>)
        requires
            old(self).execution.wf(),
        ensures
            final(self).execution.wf(),
            final(self).consensus == old(self).consensus,
            final(self).delegations == old(self).delegations,
            final(self).execution.limits == old(self).execution.limits,
            match r {
                Ok(()) => match crate::template::admits(
                    old(self).execution.txs_at(signed.message.slot),
                    old(self).execution.heads_at(signed.message.slot),
                    old(self).execution.limits,
                    signed.message.tx,
                    head,
                ) {
                    Ok(Some(j)) => final(self).execution.constraints_at(signed.message.slot) == old(
                        self,
                    ).execution.constraints_at(signed.message.slot).update(j, signed),
                    Ok(None) => final(self).execution.constraints_at(signed.message.slot) == old(
                        self,
                    ).execution.constraints_at(signed.message.slot).push(signed),
                    Err(_) => false,
                },
                Err(e) => e matches CommitmentError::Validation(err) && crate::template::admits(
                    old(self).execution.txs_at(signed.message.slot),
                    old(self).execution.heads_at(signed.message.slot),
                    old(self).execution.limits,
                    signed.message.tx,
                    head,
                ) == Err::<Option<int>, ExecutionError>(err) && final(self).execution.constraints_at(
                    signed.message.slot,
                ) == old(self).execution.constraints_at(signed.message.slot),
            },
            forall|s: Slot|
                s != signed.message.slot ==> #[trigger] final(self).execution.constraints_at(s) == old(
                    self,
                ).execution.constraints_at(s),
    {
        let slot = signed.message.slot;
        match self.execution.add_constraint(slot, signed, head) {
            Ok(()) => Ok(()),
            Err(e) => Err(CommitmentError::Validation(e)),
        }
    }

    /// Admits the signed constraints of one request for `slot` together (`heads[i]` being
    /// the head state of the sender of `signed[i]`): all of them, or none with the error
    /// of the first that cannot be admitted on top of the ones before it.
    pub fn admit_request(
        &mut self,
        slot: Slot,
        signed: Vec<SignedConstraints>,
        heads: &Vec<AccountState>,
    ) -> (r: Result<(), CommitmentError>)
        requires
            old(self).execution.wf(),
            signed@.len() == heads@.len(),
        ensures
            final(self).execution.wf(),
            final(self).consensus == old(self).consensus,
            final(self).delegations == old(self).delegations,
            final(self).execution.limits == old(self).execution.limits,
            match admit_all(
                old(self).execution.constraints_at(slot),
                old(self).execution.heads_at(slot),
                old(self).execution.limits,
                signed@,
                heads@,
            ) {
                Ok((l, _)) => r is Ok && final(self).execution.constraints_at(slot) == l,
                Err(e) => r == Err::<(), CommitmentError>(CommitmentError::Validation(e))
                    && final(self).execution.constraints_at(slot) == old(self).execution.constraints_at(
                    slot,
                ),
            },
            forall|s: Slot|
                s != slot ==> #[trigger] final(self).execution.constraints_at(s) == old(
                    self,
                ).execution.constraints_at(s),
    {
        match self.execution.admit_request(slot, signed, heads) {
            Ok(()) => Ok(()),
            Err(e) => Err(CommitmentError::Validation(e)),
        }
    }

    /// Completes an inclusion request for `slot` once its constraint messages are signed:
    /// pairs `messages[i]` with `signatures[i]` and admits them together (`heads[i]`
    /// being the head state of the sender of the `i`-th transaction). On success, and
    /// when none replaced a held constraint, the slot's list is the old one followed by
    /// the request's constraints in request order; on failure nothing changes.
    pub fn commit_inclusion(
        &mut self,
        slot: Slot,
        messages: Vec<ConstraintsMessage>,
        signatures: Vec<BlsSignature>,
        heads: &Vec<AccountState>,
    ) -> (r: Result<(), CommitmentError>)
        requires
            old(self).execution.wf(),
            messages@.len() == signatures@.len(),
            messages@.len() == heads@.len(),
        ensures
            final(self).execution.wf(),
            final(self).consensus == old(self).consensus,
            final(self).delegations == old(self).delegations,
            final(self).execution.limits == old(self).execution.limits,
            match admit_all(
                old(self).execution.constraints_at(slot),
                old(self).execution.heads_at(slot),
                old(self).execution.limits,
                signed_with(messages@, signatures@),
                heads@,
            ) {
                Ok((l, _)) => r is Ok && final(self).execution.constraints_at(slot) == l,
                Err(e) => r == Err::<(), CommitmentError>(CommitmentError::Validation(e))
                    && final(self).execution.constraints_at(slot) == old(self).execution.constraints_at(
                    slot,
                ),
            },
            r is Ok ==> final(self).execution.constraints_at(slot).len()
                <= old(self).execution.constraints_at(slot).len() + messages@.len(),
            r is Ok && final(self).execution.constraints_at(slot).len()
                == old(self).execution.constraints_at(slot).len() + messages@.len()
                ==> final(self).execution.constraints_at(slot)
                == old(self).execution.constraints_at(slot) + signed_with(messages@, signatures@),
            forall|s: Slot|
                s != slot ==> #[trigger] final(self).execution.constraints_at(s) == old(
                    self,
                ).execution.constraints_at(s),
    {
        let ghost all = signed_with(messages@, signatures@);
        let ghost old_list = self.execution.constraints_at(slot);
        let ghost old_heads = self.execution.heads_at(slot);
        let mut ms = messages;
        let mut sigs = signatures;
        let mut signed: Vec<SignedConstraints> = Vec::new();
        while ms.len() > 0
            invariant
                ms@.len() == sigs@.len(),
                signed@.len() + ms@.len() == all.len(),
                all.len() == messages@.len(),
                messages@.len() == signatures@.len(),
                ms@ == messages@.skip(signed@.len() as int),
                sigs@ == signatures@.skip(signed@.len() as int),
                all == signed_with(messages@, signatures@),
                forall|i: int| 0 <= i < signed@.len() ==> #[trigger] signed@[i] == all[i],
            decreases ms@.len(),
        {
            let ghost n = signed@.len() as int;
            let message = ms.remove(0);
            let signature = sigs.remove(0);
            assert(message == messages@[n]);
            assert(signature == signatures@[n]);
            assert(ms@ =~= messages@.skip(n + 1));
            assert(sigs@ =~= signatures@.skip(n + 1));
            signed.push(SignedConstraints { message, signature });
        }
        assert(signed@ =~= all);
        let r = self.admit_request(slot, signed, heads);
        proof {
            if r is Ok {
                lemma_admit_all_appends(old_list, old_heads, old(self).execution.limits, all, heads@);
            }
        }
        r
    }

    /// At the commitment deadline of `slot`: the constraints to relay (and to build the
    /// local payload with), in the order in which they were admitted; none when the slot
    /// has no constraints.
    pub fn handle_commitment_deadline(&self, slot: Slot) -> (r: Option<Vec<RelayConstraint>>)
        ensures
            match r {
                Some(v) => v@.map_values(|c: RelayConstraint| relay_view(c)) == relay_records(
                    self.execution.constraints_at(slot),
                ) && v@.len() > 0,
                None => self.execution.constraints_at(slot).len() == 0,
            },
    {
        let template = match self.execution.get_block_template(slot) {
            Some(t) => t,
            None => {
                return None;
            },
        };
        let list = &template.signed_constraints_list;
        let mut out: Vec<RelayConstraint> = Vec::new();
        let mut i: usize = 0;
        while i < list.len()
            invariant
                0 <= i <= list@.len(),
                out@.len() == i,
                forall|j: int|
                    0 <= j < i ==> relay_view(#[trigger] out@[j]) == relay_records(list@)[j],
            decreases list@.len() - i,
        {
            out.push(list[i].to_relay());
            i = i + 1;
        }
        assert(out@.map_values(|c: RelayConstraint| relay_view(c)) =~= relay_records(list@));
        Some(out)
    }

    /// On a new head: drops the templates of slots before `head_slot` and revalidates
    /// the others with the `fresh` head states of the accounts they reference.
    pub fn handle_new_head_event(&mut self, head_slot: Slot, fresh: &Vec<AccountHead>)
        requires
            old(self).execution.wf(),
        ensures
            final(self).execution.wf(),
            head_updated(old(self).execution, final(self).execution, head_slot, heads_view(fresh@)),
            final(self).consensus == old(self).consensus,
            final(self).delegations == old(self).delegations,
    {
        self.execution.update_head(head_slot, fresh);
    }

    /// On a slot tick: records the slot and returns the epoch whose proposer duties must
    /// be fetched, if any.
    pub fn handle_slot_tick(&mut self, slot: Slot, now: u64) -> (fetch: Option<u64>)
        requires
            slot < u64::MAX,
        ensures
            final(self).consensus.latest_slot == slot,
            final(self).consensus.latest_slot_timestamp == now,
            final(self).execution == old(self).execution,
            final(self).delegations == old(self).delegations,
            fetch == (if slot / crate::consensus::SLOTS_PER_EPOCH != old(self).consensus.epoch.value
                || old(self).consensus.epoch.proposer_duties@.len() == 0 {
                Some((slot / crate::consensus::SLOTS_PER_EPOCH) as u64)
            } else {
                None::<u64>
            }),
    {
        self.consensus.update_slot(slot, now)
    }
}

/// The constraints of requests in order: each request's constraints in request order.
pub open spec fn concat_requests(requests: Seq<Seq<SignedConstraints>>) -> Seq<SignedConstraints>
    decreases requests.len(),
{
    if requests.len() == 0 {
        Seq::empty()
    } else {
        concat_requests(requests.drop_last()) + requests.last()
    }
}

/// Requests admitted one after another for a slot, none of whose constraints replaced a
/// held one, are relayed at the slot's deadline in the order in which the requests were
/// handled, each contributing its constraints in request order.
pub proof fn lemma_relayed_in_admission_order(
    states: Seq<ExecutionState>,
    requests: Seq<Seq<SignedConstraints>>,
    slot: Slot,
)
    requires
        states.len() == requests.len() + 1,
        states[0].constraints_at(slot).len() == 0,
        forall|i: int|
            0 <= i < requests.len() ==> #[trigger] states[i + 1].constraints_at(slot) == states[i].constraints_at(
                slot,
            ) + requests[i],
    ensures
        states.last().constraints_at(slot) == concat_requests(requests),
        relay_records(states.last().constraints_at(slot)) == relay_records(concat_requests(requests)),
    decreases requests.len(),
{
    if requests.len() == 0 {
        assert(states[0].constraints_at(slot) =~= concat_requests(requests));
    } else {
        let n = requests.len() - 1;
        assert forall|i: int| 0 <= i < requests.drop_last().len() implies #[trigger] states.drop_last()[i
            + 1].constraints_at(slot) == states.drop_last()[i].constraints_at(slot) + requests.drop_last()[i] by {
            assert(states[i + 1].constraints_at(slot) == states[i].constraints_at(slot) + requests[i]);
        }
        lemma_relayed_in_admission_order(states.drop_last(), requests.drop_last(), slot);
        assert(states[n + 1].constraints_at(slot) == states[n].constraints_at(slot) + requests[n]);
    }
}

} // verus!
