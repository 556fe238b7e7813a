//! Consensus state: the latest slot, the current epoch and its proposer duties, and the
//! commitment deadline of the next slot.
use vstd::prelude::*;
use crate::delegation::BlsPublicKey;

verus! {

/// A beacon-chain slot number.
pub type Slot = u64;

/// Slots in one epoch.
pub const SLOTS_PER_EPOCH: u64 = 32;

/// Consensus-related errors.
#[derive(Debug, Clone, Copy, PartialEq, Eq, Structural)]
pub enum ConsensusError {
    /// The beacon API could not deliver proposer duties.
    BeaconApiError,
    /// The requested slot is outside the window that this sidecar accepts.
    InvalidSlot(Slot),
    /// The request is for the next slot and its commitment deadline has passed.
    DeadlineExceeded,
    /// None of our validators proposes in the requested slot.
    ValidatorNotFound,
}

/// The assignment of a validator to propose in a slot.
#[derive(Debug, Clone)]
pub struct ProposerDuty {
    pub public_key: BlsPublicKey,
    pub slot: Slot,
    pub validator_index: u64,
}

/// An epoch of the beacon chain and the proposer duties known for it.
///
/// With unsafe lookahead enabled, `proposer_duties` also holds the next epoch's duties.
#[derive(Debug)]
pub struct Epoch {
    pub value: u64,
    pub start_slot: Slot,
    pub proposer_duties: Vec<ProposerDuty>,
}

/// A one-shot timer that yields `slot` once `duration` nanoseconds have passed since
/// `armed_at`.
#[derive(Debug, Clone, Copy, PartialEq, Eq, Structural)]
pub struct CommitmentDeadline {
    pub slot: Slot,
    pub armed_at: u64,
    pub duration: u64,
    pub fired: bool,
}

/// Whether a deadline armed at `armed_at` for `duration` has been reached at `now`.
pub open spec fn deadline_reached(armed_at: u64, duration: u64, now: u64) -> bool {
    now >= armed_at + duration
}

impl CommitmentDeadline {
    /// Arms a deadline for `slot` that fires `duration` nanoseconds after `now`.
    pub fn new(slot: Slot, now: u64, duration: u64) -> (r: Self)
        ensures
            r == (CommitmentDeadline { slot, armed_at: now, duration, fired: false }),
    {
        CommitmentDeadline { slot, armed_at: now, duration, fired: false }
    }

    /// Yields the slot the first time this is polled at or after the deadline.
    pub fn wait(&mut self, now: u64) -> (r: Option<Slot>)
        ensures
            !old(self).fired && deadline_reached(old(self).armed_at, old(self).duration, now)
                ==> r == Some(old(self).slot) && *final(self) == (CommitmentDeadline {
                fired: true,
                ..*old(self)
            }),
            !(!old(self).fired && deadline_reached(old(self).armed_at, old(self).duration, now))
                ==> r.is_none() && *final(self) == *old(self),
    {
        if !self.fired && now >= self.armed_at && now - self.armed_at >= self.duration {
            self.fired = true;
            Some(self.slot)
        } else {
            None
        }
    }
}

/// The consensus state of the sidecar.
///
/// Times are nanoseconds on a monotonic clock.
#[derive(Debug)]
pub struct ConsensusState {
    pub epoch: Epoch,
    /// The validators on whose behalf this sidecar issues commitments.
    pub validator_indexes: Vec<u64>,
    /// When the latest slot was received.
    pub latest_slot_timestamp: u64,
    /// The latest slot received.
    pub latest_slot: Slot,
    /// The deadline past which no commitments are accepted for the next slot.
    pub commitment_deadline: CommitmentDeadline,
    /// How far into a slot the commitment deadline lies.
    pub commitment_deadline_duration: u64,
    /// Whether requests for the next epoch are accepted as well.
    pub unsafe_lookahead_enabled: bool,
}

/// How many slots from the epoch start requests are accepted for.
pub open spec fn lookahead_window(unsafe_lookahead: bool) -> int {
    if unsafe_lookahead {
        2 * SLOTS_PER_EPOCH
    } else {
        SLOTS_PER_EPOCH as int
    }
}

/// The public key of the first duty in `duties` for `slot` held by a validator in `indexes`.
pub open spec fn duty_key_for(duties: Seq<ProposerDuty>, indexes: Seq<u64>, slot: Slot) -> Option<
    Seq<u8>,
>
    decreases duties.len(),
{
    if duties.len() == 0 {
        None
    } else if duties[0].slot == slot && indexes.contains(duties[0].validator_index) {
        Some(duties[0].public_key@)
    } else {
        duty_key_for(duties.drop_first(), indexes, slot)
    }
}

impl ConsensusState {
    /// The epoch's start slot is its first slot.
    pub open spec fn wf(&self) -> bool {
        self.epoch.start_slot == self.epoch.value * SLOTS_PER_EPOCH
    }

    /// Whether `slot` lies in the epoch window that requests may target.
    pub open spec fn slot_in_window(&self, slot: Slot) -> bool {
        self.epoch.start_slot <= slot < self.epoch.start_slot + lookahead_window(
            self.unsafe_lookahead_enabled,
        )
    }

    /// Whether a request for `slot` made at `now` comes at or after the next slot's
    /// deadline.
    pub open spec fn past_deadline(&self, slot: Slot, now: u64) -> bool {
        slot == self.latest_slot + 1 && now >= self.latest_slot_timestamp
            + self.commitment_deadline_duration
    }

    /// The proposer key that a request for `slot` resolves to.
    pub open spec fn duty_key(&self, slot: Slot) -> Option<Seq<u8>> {
        duty_key_for(self.epoch.proposer_duties@, self.validator_indexes@, slot)
    }

    /// What validating a request for `slot` at `now` yields.
    pub open spec fn validation(&self, slot: Slot, now: u64) -> Result<Seq<u8>, ConsensusError> {
        if !self.slot_in_window(slot) {
            Err(ConsensusError::InvalidSlot(slot))
        } else if self.past_deadline(slot, now) {
            Err(ConsensusError::DeadlineExceeded)
        } else {
            match self.duty_key(slot) {
                Some(k) => Ok(k),
                None => Err(ConsensusError::ValidatorNotFound),
            }
        }
    }

    /// Create a new consensus state at slot 0 with no known duties.
    pub fn new(
        validator_indexes: Vec<u64>,
        commitment_deadline_duration: u64,
        unsafe_lookahead_enabled: bool,
        now: u64,
    ) -> (r: Self)
        ensures
            r.wf(),
            r.epoch.value == 0,
            r.epoch.start_slot == 0,
            r.epoch.proposer_duties@.len() == 0,
            r.validator_indexes@ == validator_indexes@,
            r.latest_slot == 0,
            r.latest_slot_timestamp == now,
            r.commitment_deadline == (CommitmentDeadline {
                slot: 0,
                armed_at: now,
                duration: commitment_deadline_duration,
                fired: false,
            }),
            r.commitment_deadline_duration == commitment_deadline_duration,
            r.unsafe_lookahead_enabled == unsafe_lookahead_enabled,
    {
        ConsensusState {
            epoch: Epoch { value: 0, start_slot: 0, proposer_duties: Vec::new() },
            validator_indexes,
            latest_slot_timestamp: now,
            latest_slot: 0,
            commitment_deadline: CommitmentDeadline::new(0, now, commitment_deadline_duration),
            commitment_deadline_duration,
            unsafe_lookahead_enabled,
        }
    }

    /// Validates a commitment request for `slot` received at `now`, and returns the public
    /// key of the validator that proposes in that slot.
    ///
    /// Checks, in order: the slot lies in the current epoch (or the next one too, with
    /// unsafe lookahead); a request for the next slot comes before its deadline; one of
    /// our validators has the duty for the slot.
    pub fn validate_request(&self, slot: Slot, now: u64) -> (r: Result<BlsPublicKey, ConsensusError>)
        ensures
            match r {
                Ok(k) => self.validation(slot, now) == Ok::<Seq<u8>, ConsensusError>(k@),
                Err(e) => self.validation(slot, now) == Err::<Seq<u8>, ConsensusError>(e),
            },
    {
        let start = self.epoch.start_slot;
        let window: u64 = if self.unsafe_lookahead_enabled {
            2 * SLOTS_PER_EPOCH
        } else {
            SLOTS_PER_EPOCH
        };
        if slot < start || slot - start >= window {
            return Err(ConsensusError::InvalidSlot(slot));
        }
        if slot > self.latest_slot && slot - self.latest_slot == 1
            && now >= self.latest_slot_timestamp
            && now - self.latest_slot_timestamp >= self.commitment_deadline_duration {
            return Err(ConsensusError::DeadlineExceeded);
        }
        self.find_validator_pubkey_for_slot(slot)
    }

    /// Finds the public key of the first duty for `slot` held by one of our validators.
    pub fn find_validator_pubkey_for_slot(&self, slot: Slot) -> (r: Result<BlsPublicKey, ConsensusError>)
        ensures
            match r {
                Ok(k) => self.duty_key(slot) == Some(k@),
                Err(e) => self.duty_key(slot).is_none() && e == ConsensusError::ValidatorNotFound,
            },
    {
        let duties = &self.epoch.proposer_duties;
        let mut i: usize = 0;
        assert(duties@.skip(0) =~= duties@);
        while i < duties.len()
            invariant
                0 <= i <= duties@.len(),
                duties == &self.epoch.proposer_duties,
                self.duty_key(slot) == duty_key_for(duties@.skip(i as int), self.validator_indexes@, slot),
            decreases duties@.len() - i,
        {
            let ghost rest = duties@.skip(i as int);
            assert(rest[0] == duties@[i as int]);
            assert(rest.drop_first() =~= duties@.skip(i + 1));
            let d = &duties[i];
            if d.slot == slot && contains_index(&self.validator_indexes, d.validator_index) {
                let k = d.public_key.clone();
                assert(k@ =~= d.public_key@);
                return Ok(k);
            }
            i = i + 1;
        }
        Err(ConsensusError::ValidatorNotFound)
    }

    /// Records a new slot received at `now` and arms the deadline of the slot after it.
    ///
    /// Moves to the slot's epoch when it changed. Returns the epoch whose proposer duties
    /// must be fetched: the new one when the epoch changed or no duties are known.
    pub fn update_slot(&mut self, slot: Slot, now: u64) -> (fetch: Option<u64>)
        requires
            slot < u64::MAX,
        ensures
            old(self).wf() ==> final(self).wf(),
            final(self).latest_slot == slot,
            final(self).latest_slot_timestamp == now,
            final(self).commitment_deadline == (CommitmentDeadline {
                slot: (slot + 1) as u64,
                armed_at: now,
                duration: old(self).commitment_deadline_duration,
                fired: false,
            }),
            final(self).epoch.value == slot / SLOTS_PER_EPOCH,
            final(self).epoch.start_slot == (if slot / SLOTS_PER_EPOCH != old(self).epoch.value {
                (slot / SLOTS_PER_EPOCH) * SLOTS_PER_EPOCH
            } else {
                old(self).epoch.start_slot as int
            }),
            final(self).epoch.proposer_duties@ == old(self).epoch.proposer_duties@,
            final(self).validator_indexes@ == old(self).validator_indexes@,
            final(self).commitment_deadline_duration == old(self).commitment_deadline_duration,
            final(self).unsafe_lookahead_enabled == old(self).unsafe_lookahead_enabled,
            fetch == (if slot / SLOTS_PER_EPOCH != old(self).epoch.value
                || old(self).epoch.proposer_duties@.len() == 0 {
                Some((slot / SLOTS_PER_EPOCH) as u64)
            } else {
                None::<u64>
            }),
    {
        self.commitment_deadline = CommitmentDeadline::new(slot + 1, now, self.commitment_deadline_duration);
        self.latest_slot_timestamp = now;
        self.latest_slot = slot;
        let epoch = slot / SLOTS_PER_EPOCH;
        if epoch != self.epoch.value {
            self.epoch.value = epoch;
            self.epoch.start_slot = epoch * SLOTS_PER_EPOCH;
            Some(epoch)
        } else if self.epoch.proposer_duties.len() == 0 {
            Some(epoch)
        } else {
            None
        }
    }

    /// The epochs whose duties a fetch for `epoch` asks the beacon node for: `epoch`, and
    /// the one after it with unsafe lookahead.
    pub fn epochs_to_fetch(&self, epoch: u64) -> (r: Vec<u64>)
        requires
            epoch < u64::MAX,
        ensures
            self.unsafe_lookahead_enabled ==> r@ == seq![epoch, (epoch + 1) as u64],
            !self.unsafe_lookahead_enabled ==> r@ == seq![epoch],
    {
        let mut r: Vec<u64> = Vec::new();
        r.push(epoch);
        if self.unsafe_lookahead_enabled {
            r.push(epoch + 1);
        }
        r
    }

    /// Stores the fetched duties: those of the epoch, followed by those of the next epoch
    /// when unsafe lookahead is enabled.
    pub fn set_proposer_duties(&mut self, current: Vec<ProposerDuty>, next: Vec<ProposerDuty>)
        ensures
            final(self).wf() == old(self).wf(),
            final(self).epoch.proposer_duties@ == (if old(self).unsafe_lookahead_enabled {
                current@ + next@
            } else {
                current@
            }),
            final(self).epoch.value == old(self).epoch.value,
            final(self).epoch.start_slot == old(self).epoch.start_slot,
            final(self).validator_indexes@ == old(self).validator_indexes@,
            final(self).latest_slot == old(self).latest_slot,
            final(self).latest_slot_timestamp == old(self).latest_slot_timestamp,
            final(self).commitment_deadline == old(self).commitment_deadline,
            final(self).commitment_deadline_duration == old(self).commitment_deadline_duration,
            final(self).unsafe_lookahead_enabled == old(self).unsafe_lookahead_enabled,
    {
        let mut duties = current;
        if self.unsafe_lookahead_enabled {
            let mut next = next;
            duties.append(&mut next);
        }
        self.epoch.proposer_duties = duties;
    }
}

/// Whether `indexes` holds `index`.
pub fn contains_index(indexes: &Vec<u64>, index: u64) -> (r: bool)
    ensures
        r == indexes@.contains(index),
{
    let mut i: usize = 0;
    while i < indexes.len()
        invariant
            0 <= i <= indexes@.len(),
            forall|j: int| 0 <= j < i ==> indexes@[j] != index,
        decreases indexes@.len() - i,
    {
        if indexes[i] == index {
            return true;
        }
        i = i + 1;
    }
    false
}

/// Whether one of `duties` for `slot` is held by a validator in `indexes`.
pub open spec fn has_authorized_duty(duties: Seq<ProposerDuty>, indexes: Seq<u64>, slot: Slot) -> bool {
    exists|i: int|
        0 <= i < duties.len() && #[trigger] duties[i].slot == slot && indexes.contains(
            duties[i].validator_index,
        )
}

/// A key is found for `slot` exactly when some duty for `slot` is held by one of `indexes`.
pub proof fn lemma_duty_key_found(duties: Seq<ProposerDuty>, indexes: Seq<u64>, slot: Slot)
    ensures
        duty_key_for(duties, indexes, slot).is_some() <==> has_authorized_duty(duties, indexes, slot),
    decreases duties.len(),
{
    if duties.len() > 0 {
        let rest = duties.drop_first();
        lemma_duty_key_found(rest, indexes, slot);
        if has_authorized_duty(rest, indexes, slot) {
            let i = choose|i: int|
                0 <= i < rest.len() && #[trigger] rest[i].slot == slot && indexes.contains(
                    rest[i].validator_index,
                );
            assert(duties[i + 1] == rest[i]);
        }
        if has_authorized_duty(duties, indexes, slot) && !(duties[0].slot == slot
            && indexes.contains(duties[0].validator_index)) {
            let i = choose|i: int|
                0 <= i < duties.len() && #[trigger] duties[i].slot == slot && indexes.contains(
                    duties[i].validator_index,
                );
            assert(i > 0);
            assert(rest[i - 1] == duties[i]);
        }
    }
}

/// Outside an expired deadline for the next slot, a request is accepted exactly when its
/// slot lies in the accepted epoch window (one epoch, or two with unsafe lookahead) and
/// one of our validators has the proposer duty for that slot.
pub proof fn lemma_accepted_iff_window_and_duty(s: ConsensusState, slot: Slot, now: u64)
    requires
        !s.past_deadline(slot, now),
    ensures
        s.validation(slot, now).is_ok() <==> (s.epoch.start_slot <= slot < s.epoch.start_slot
            + lookahead_window(s.unsafe_lookahead_enabled) && has_authorized_duty(
            s.epoch.proposer_duties@,
            s.validator_indexes@,
            slot,
        )),
{
    lemma_duty_key_found(s.epoch.proposer_duties@, s.validator_indexes@, slot);
}

/// At the deadline boundary of the next slot: a request made one nanosecond before the
/// deadline is not rejected for the deadline (it is accepted when the slot lies in the
/// window and has one of our duties); one made exactly at the deadline, or after it, is
/// rejected with `DeadlineExceeded`.
pub proof fn lemma_next_slot_deadline_boundary(s: ConsensusState, now: u64)
    requires
        s.latest_slot < u64::MAX,
        s.slot_in_window((s.latest_slot + 1) as u64),
    ensures
        now + 1 == s.latest_slot_timestamp + s.commitment_deadline_duration ==> s.validation(
            (s.latest_slot + 1) as u64,
            now,
        ) == match s.duty_key((s.latest_slot + 1) as u64) {
            Some(k) => Ok::<Seq<u8>, ConsensusError>(k),
            None => Err(ConsensusError::ValidatorNotFound),
        },
        now == s.latest_slot_timestamp + s.commitment_deadline_duration ==> s.validation(
            (s.latest_slot + 1) as u64,
            now,
        ) == Err::<Seq<u8>, ConsensusError>(ConsensusError::DeadlineExceeded),
        now >= s.latest_slot_timestamp + s.commitment_deadline_duration ==> s.validation(
            (s.latest_slot + 1) as u64,
            now,
        ) == Err::<Seq<u8>, ConsensusError>(ConsensusError::DeadlineExceeded),
{
}

/// A request for the first slot of the next epoch is accepted only when unsafe lookahead
/// is enabled and a duty of ours for that slot was fetched.
pub proof fn lemma_next_epoch_first_slot(s: ConsensusState, now: u64)
    requires
        s.epoch.start_slot + SLOTS_PER_EPOCH <= u64::MAX,
    ensures
        s.validation((s.epoch.start_slot + SLOTS_PER_EPOCH) as u64, now).is_ok() ==> (
        s.unsafe_lookahead_enabled && has_authorized_duty(
            s.epoch.proposer_duties@,
            s.validator_indexes@,
            (s.epoch.start_slot + SLOTS_PER_EPOCH) as u64,
        )),
{
    lemma_duty_key_found(
        s.epoch.proposer_duties@,
        s.validator_indexes@,
        (s.epoch.start_slot + SLOTS_PER_EPOCH) as u64,
    );
}

} // verus!
