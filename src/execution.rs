//! Execution state: the block templates of the slots that commitments were issued for,
//! and the limits that admission enforces.
use vstd::prelude::*;
use crate::consensus::Slot;
use crate::template::{
    admit_all, heads_view, lemma_admit_all_appends, lemma_held_transaction_rejected, replay,
    AccountHead, admits, opt_index, AccountState, BlockTemplate, ExecutionError, FullTransaction, HeadView,
    Limits, SignedConstraints,
};

verus! {

/// The block template of one slot.
#[derive(Debug)]
pub struct SlotTemplate {
    pub slot: Slot,
    pub template: BlockTemplate,
}

/// The position of the first template for `slot`.
pub open spec fn template_index(ts: Seq<SlotTemplate>, slot: Slot) -> Option<int>
    decreases ts.len(),
{
    if ts.len() == 0 {
        None
    } else if ts[0].slot == slot {
        Some(0)
    } else {
        match template_index(ts.drop_first(), slot) {
            Some(k) => Some(k + 1),
            None => None,
        }
    }
}

/// The templates of `ts` for slots at or after `head_slot`, in order.
pub open spec fn kept_from(ts: Seq<SlotTemplate>, head_slot: Slot) -> Seq<SlotTemplate>
    decreases ts.len(),
{
    if ts.len() == 0 {
        Seq::empty()
    } else if ts[0].slot >= head_slot {
        seq![ts[0]] + kept_from(ts.drop_first(), head_slot)
    } else {
        kept_from(ts.drop_first(), head_slot)
    }
}

/// Whether every transaction of `req`, on its own, can be admitted after `txs`; the
/// error of the first that cannot.
pub open spec fn request_admission(
    txs: Seq<FullTransaction>,
    heads: Seq<HeadView>,
    limits: Limits,
    req: Seq<FullTransaction>,
    req_heads: Seq<AccountState>,
) -> Result<(), ExecutionError>
    decreases req.len(),
{
    if req.len() == 0 {
        Ok(())
    } else {
        match admits(txs, heads, limits, req[0], req_heads[0]) {
            Err(e) => Err(e),
            Ok(_) => request_admission(txs, heads, limits, req.drop_first(), req_heads.drop_first()),
        }
    }
}

/// What moving to a new head at `head_slot` with `fresh` head states makes of `before`:
/// the templates of slots before the head are dropped; each other one, in order, is
/// replayed from empty with the fresh heads.
pub open spec fn head_updated(
    before: ExecutionState,
    after: ExecutionState,
    head_slot: Slot,
    fresh: Seq<HeadView>,
) -> bool {
    &&& after.limits == before.limits
    &&& after.templates@.len() == kept_from(before.templates@, head_slot).len()
    &&& forall|k: int|
        0 <= k < after.templates@.len() ==> {
            let prev = kept_from(before.templates@, head_slot)[k];
            let r = replay(
                prev.template.signed_constraints_list@,
                fresh,
                prev.template.hv(),
                before.limits,
            );
            &&& (#[trigger] after.templates@[k]).slot == prev.slot
            &&& after.templates@[k].template.signed_constraints_list@ == r.0
            &&& after.templates@[k].template.hv() == r.1
        }
}

/// The execution state: one block template per slot with admitted constraints.
#[derive(Debug)]
pub struct ExecutionState {
    pub limits: Limits,
    pub templates: Vec<SlotTemplate>,
}

proof fn lemma_template_index_bound(ts: Seq<SlotTemplate>, slot: Slot)
    ensures
        template_index(ts, slot) matches Some(k) ==> 0 <= k < ts.len() && ts[k].slot == slot,
    decreases ts.len(),
{
    if ts.len() > 0 {
        lemma_template_index_bound(ts.drop_first(), slot);
    }
}

proof fn lemma_kept_elements(ts: Seq<SlotTemplate>, head_slot: Slot)
    ensures
        forall|k: int|
            0 <= k < kept_from(ts, head_slot).len() ==> exists|m: int|
                0 <= m < ts.len() && ts[m] == #[trigger] kept_from(ts, head_slot)[k],
    decreases ts.len(),
{
    if ts.len() > 0 {
        let rest = ts.drop_first();
        lemma_kept_elements(rest, head_slot);
        let ks = kept_from(ts, head_slot);
        assert forall|k: int| 0 <= k < ks.len() implies exists|m: int|
            0 <= m < ts.len() && ts[m] == #[trigger] ks[k] by {
            if ts[0].slot >= head_slot && k == 0 {
                assert(ts[0] == ks[0]);
            } else {
                let k2 = if ts[0].slot >= head_slot { k - 1 } else { k };
                assert(ks[k] == kept_from(rest, head_slot)[k2]);
                let m = choose|m: int| 0 <= m < rest.len() && rest[m] == kept_from(rest, head_slot)[k2];
                assert(ts[m + 1] == rest[m]);
            }
        }
    }
}

impl ExecutionState {
    /// Every template keeps its invariant under the limits.
    pub open spec fn wf(&self) -> bool {
        forall|k: int|
            0 <= k < self.templates@.len() ==> (#[trigger] self.templates@[k]).template.wf(
                self.limits,
            )
    }

    /// The transactions admitted for `slot`.
    pub open spec fn txs_at(&self, slot: Slot) -> Seq<FullTransaction> {
        match template_index(self.templates@, slot) {
            Some(k) => self.templates@[k].template.txs(),
            None => Seq::empty(),
        }
    }

    /// The head states recorded for `slot`.
    pub open spec fn heads_at(&self, slot: Slot) -> Seq<HeadView> {
        match template_index(self.templates@, slot) {
            Some(k) => self.templates@[k].template.hv(),
            None => Seq::empty(),
        }
    }

    /// The constraints admitted for `slot`, in order.
    pub open spec fn constraints_at(&self, slot: Slot) -> Seq<SignedConstraints> {
        match template_index(self.templates@, slot) {
            Some(k) => self.templates@[k].template.signed_constraints_list@,
            None => Seq::empty(),
        }
    }

    /// An execution state with no templates.
    pub fn new(limits: Limits) -> (r: Self)
        ensures
            r.wf(),
            r.limits == limits,
            r.templates@.len() == 0,
    {
        ExecutionState { limits, templates: Vec::new() }
    }

    /// The position of the template for `slot`.
    pub fn find_template(&self, slot: Slot) -> (r: Option<usize>)
        ensures
            opt_index(r) == template_index(self.templates@, slot),
            r matches Some(k) ==> k < self.templates@.len(),
    {
        let mut i: usize = 0;
        while i < self.templates.len()
            invariant
                0 <= i <= self.templates@.len(),
                forall|m: int| 0 <= m < i ==> self.templates@[m].slot != slot,
            decreases self.templates@.len() - i,
        {
            if self.templates[i].slot == slot {
                proof {
                    lemma_first_index(self.templates@, slot, i as int);
                }
                return Some(i);
            }
            i = i + 1;
        }
        proof {
            lemma_first_index(self.templates@, slot, self.templates@.len() as int);
        }
        None
    }

    /// Validates the transactions of a request for `slot`, each on its own against the
    /// slot's template as it stands; `heads[i]` is the head state of the sender of
    /// `txs[i]`. Fails with the error of the first transaction that cannot be admitted.
    pub fn validate_request(&self, slot: Slot, txs: &Vec<FullTransaction>, heads: &Vec<AccountState>) -> (r:
        Result<(), ExecutionError>)
        requires
            self.wf(),
            txs@.len() == heads@.len(),
        ensures
            r == request_admission(self.txs_at(slot), self.heads_at(slot), self.limits, txs@, heads@),
    {
        match self.find_template(slot) {
            Some(k) => check_all(&self.templates[k].template, self.limits, txs, heads),
            None => {
                let empty = BlockTemplate::new();
                assert(empty.txs() =~= Seq::<FullTransaction>::empty());
                assert(empty.hv() =~= Seq::<HeadView>::empty());
                check_all(&empty, self.limits, txs, heads)
            },
        }
    }

    /// Admits a signed constraint into the template of `slot`, creating the template when
    /// the slot has none; `head` is the head state of the transaction's sender.
    #[verifier::spinoff_prover]
    pub fn add_constraint(&mut self, slot: Slot, constraint: SignedConstraints, head: AccountState) -> (r:
        Result<(), ExecutionError>)
        requires
            old(self).wf(),
        ensures
            final(self).wf(),
            final(self).limits == old(self).limits,
            match r {
                Ok(()) => match admits(
                    old(self).txs_at(slot),
                    old(self).heads_at(slot),
                    old(self).limits,
                    constraint.message.tx,
                    head,
                ) {
                    Ok(Some(j)) => final(self).constraints_at(slot) == old(self).constraints_at(
                        slot,
                    ).update(j, constraint),
                    Ok(None) => final(self).constraints_at(slot) == old(self).constraints_at(
                        slot,
                    ).push(constraint),
                    Err(_) => false,
                },
                Err(e) => admits(
                    old(self).txs_at(slot),
                    old(self).heads_at(slot),
                    old(self).limits,
                    constraint.message.tx,
                    head,
                ) == Err::<Option<int>, ExecutionError>(e) && final(self).constraints_at(slot)
                    == old(self).constraints_at(slot),
            },
            forall|s: Slot| s != slot ==> #[trigger] final(self).constraints_at(s) == old(self).constraints_at(s),
    {
        let ghost before = self.templates@;
        let k = match self.find_template(slot) {
            Some(k) => k,
            None => {
                let t = BlockTemplate::new();
                assert(t.txs() =~= Seq::<FullTransaction>::empty());
                self.templates.push(SlotTemplate { slot, template: t });
                proof {
                    lemma_index_after_push(before, SlotTemplate { slot, template: t });
                }
                self.templates.len() - 1
            },
        };
        let ghost mid = self.templates@;
        proof {
            lemma_template_index_bound(mid, slot);
            assert(mid[k as int].template.txs() == self.txs_at(slot));
        }
        let mut entry = self.templates.remove(k);
        let res = entry.template.add_constraint(self.limits, constraint, head);
        self.templates.insert(k, entry);
        proof {
            assert(self.templates@ =~= mid.update(k as int, entry));
            lemma_index_after_update(mid, k as int, entry);
            assert forall|s: Slot| s != slot implies #[trigger] self.constraints_at(s) == old(
                self,
            ).constraints_at(s) by {
                lemma_template_index_bound(mid, s);
                lemma_template_index_bound(before, s);
                if template_index(before, s).is_some() {
                    let m = template_index(before, s).unwrap();
                    assert(mid[m] == before[m]);
                }
            }
        }
        res
    }

    /// Admits the constraints of one request for `slot` together, each against the
    /// template as the ones before it left it (`heads[i]` being the head state of the
    /// sender of `constraints[i]`): all of them, or, with the error of the first that
    /// cannot be admitted, none.
    #[verifier::spinoff_prover]
    pub fn admit_request(
        &mut self,
        slot: Slot,
        constraints: Vec<SignedConstraints>,
        heads: &Vec<AccountState>,
    ) -> (r: Result<(), ExecutionError>)
        requires
            old(self).wf(),
            constraints@.len() == heads@.len(),
        ensures
            final(self).wf(),
            final(self).limits == old(self).limits,
            match admit_all(
                old(self).constraints_at(slot),
                old(self).heads_at(slot),
                old(self).limits,
                constraints@,
                heads@,
            ) {
                Ok((l, h)) => r is Ok && final(self).constraints_at(slot) == l && final(self).heads_at(slot)
                    == h,
                Err(e) => r == Err::<(), ExecutionError>(e) && final(self).constraints_at(slot) == old(
                    self,
                ).constraints_at(slot),
            },
            forall|s: Slot| s != slot ==> #[trigger] final(self).constraints_at(s) == old(self).constraints_at(s),
    {
        let ghost before = self.templates@;
        let k = match self.find_template(slot) {
            Some(k) => k,
            None => {
                let t = BlockTemplate::new();
                assert(t.txs() =~= Seq::<FullTransaction>::empty());
                assert(t.hv() =~= Seq::<HeadView>::empty());
                self.templates.push(SlotTemplate { slot, template: t });
                proof {
                    lemma_index_after_push(before, SlotTemplate { slot, template: t });
                }
                self.templates.len() - 1
            },
        };
        let ghost mid = self.templates@;
        proof {
            lemma_template_index_bound(mid, slot);
            assert(mid[k as int].template.signed_constraints_list@ == old(self).constraints_at(slot));
            assert(mid[k as int].template.hv() == old(self).heads_at(slot));
        }
        let mut entry = self.templates.remove(k);
        let res = entry.template.admit_batch(self.limits, constraints, heads);
        self.templates.insert(k, entry);
        proof {
            assert(self.templates@ =~= mid.update(k as int, entry));
            lemma_index_after_update(mid, k as int, entry);
            assert forall|s: Slot| s != slot implies #[trigger] self.constraints_at(s) == old(
                self,
            ).constraints_at(s) by {
                lemma_template_index_bound(mid, s);
                lemma_template_index_bound(before, s);
                if template_index(before, s).is_some() {
                    let m = template_index(before, s).unwrap();
                    assert(mid[m] == before[m]);
                }
            }
        }
        res
    }

    /// Moves to a new head: drops the templates of slots before `head_slot`, keeps the
    /// others in order, and revalidates each of them with the `fresh` head states of
    /// the accounts they reference (see `BlockTemplate::revalidate`); constraints that no
    /// longer pass are evicted.
    #[verifier::rlimit(100)]
    #[verifier::spinoff_prover]
    pub fn update_head(&mut self, head_slot: Slot, fresh: &Vec<AccountHead>)
        requires
            old(self).wf(),
        ensures
            final(self).wf(),
            head_updated(*old(self), *final(self), head_slot, heads_view(fresh@)),
    {
        self.drop_before(head_slot);
        let ghost kept = self.templates@;
        let mut k: usize = 0;
        while k < self.templates.len()
            invariant
                0 <= k <= self.templates@.len(),
                self.templates@.len() == kept.len(),
                self.limits == old(self).limits,
                kept == kept_from(old(self).templates@, head_slot),
                forall|m: int| 0 <= m < kept.len() ==> (#[trigger] kept[m]).template.wf(self.limits),
                forall|m: int| k <= m < kept.len() ==> #[trigger] self.templates@[m] == kept[m],
                forall|m: int|
                    0 <= m < k ==> {
                        let r = replay(
                            kept[m].template.signed_constraints_list@,
                            heads_view(fresh@),
                            kept[m].template.hv(),
                            self.limits,
                        );
                        &&& (#[trigger] self.templates@[m]).slot == kept[m].slot
                        &&& self.templates@[m].template.wf(self.limits)
                        &&& self.templates@[m].template.signed_constraints_list@ == r.0
                        &&& self.templates@[m].template.hv() == r.1
                    },
            decreases self.templates@.len() - k,
        {
            let ghost before = self.templates@;
            let entry = self.templates.remove(k);
            assert(entry == kept[k as int]);
            let (template, _evicted) = entry.template.revalidate(self.limits, fresh);
            self.templates.insert(k, SlotTemplate { slot: entry.slot, template });
            proof {
                assert forall|m: int| k < m < kept.len() implies #[trigger] self.templates@[m] == kept[m] by {
                    assert(self.templates@[m] == before[m]);
                }
                assert forall|m: int| 0 <= m < k implies #[trigger] self.templates@[m] == before[m] by {}
            }
            k = k + 1;
        }
    }

    /// Drops the templates of slots before `head_slot` and keeps the others in order.
    fn drop_before(&mut self, head_slot: Slot)
        requires
            old(self).wf(),
        ensures
            final(self).wf(),
            final(self).limits == old(self).limits,
            final(self).templates@ == kept_from(old(self).templates@, head_slot),
            forall|m: int|
                0 <= m < final(self).templates@.len() ==> (#[trigger] final(self).templates@[m]).template.wf(
                    final(self).limits,
                ),
    {
        let ghost orig = self.templates@;
        let mut i: usize = self.templates.len();
        assert(orig.skip(orig.len() as int) =~= Seq::<SlotTemplate>::empty());
        assert(orig.take(orig.len() as int) =~= orig);
        assert(self.templates@ =~= orig.take(i as int) + kept_from(orig.skip(i as int), head_slot));
        while i > 0
            invariant
                0 <= i <= orig.len(),
                self.limits == old(self).limits,
                orig == old(self).templates@,
                self.templates@ == orig.take(i as int) + kept_from(orig.skip(i as int), head_slot),
            decreases i,
        {
            i = i - 1;
            let ghost tail = orig.skip(i as int);
            assert(tail.drop_first() =~= orig.skip(i + 1));
            assert(tail[0] == orig[i as int]);
            assert(self.templates@[i as int] == orig[i as int]);
            if self.templates[i].slot < head_slot {
                self.templates.remove(i);
                assert(self.templates@ =~= orig.take(i as int) + kept_from(tail, head_slot));
            } else {
                assert(self.templates@ =~= orig.take(i as int) + kept_from(tail, head_slot));
            }
        }
        assert(orig.skip(0) =~= orig);
        assert(self.templates@ =~= kept_from(orig, head_slot));
        proof {
            lemma_kept_elements(orig, head_slot);
            assert forall|k: int| 0 <= k < self.templates@.len() implies (
            #[trigger] self.templates@[k]).template.wf(self.limits) by {
                let m = choose|m: int|
                    0 <= m < orig.len() && orig[m] == #[trigger] kept_from(orig, head_slot)[k];
                assert(orig[m].template.wf(self.limits));
            }
        }
    }

    /// The template of `slot`, if it holds any constraint.
    pub fn get_block_template(&self, slot: Slot) -> (r: Option<&BlockTemplate>)
        ensures
            match r {
                Some(t) => template_index(self.templates@, slot) matches Some(k) && *t
                    == self.templates@[k].template && t.signed_constraints_list@.len() > 0,
                None => self.constraints_at(slot).len() == 0,
            },
    {
        match self.find_template(slot) {
            Some(k) => {
                if self.templates[k].template.signed_constraints_list.len() > 0 {
                    Some(&self.templates[k].template)
                } else {
                    None
                }
            },
            None => None,
        }
    }
}

/// Checks each of `txs` on its own against `tmpl`.
fn check_all(tmpl: &BlockTemplate, limits: Limits, txs: &Vec<FullTransaction>, heads: &Vec<AccountState>) -> (r:
    Result<(), ExecutionError>)
    requires
        tmpl.wf(limits),
        txs@.len() == heads@.len(),
    ensures
        r == request_admission(tmpl.txs(), tmpl.hv(), limits, txs@, heads@),
{
    let mut i: usize = 0;
    assert(txs@.skip(0) =~= txs@);
    assert(heads@.skip(0) =~= heads@);
    while i < txs.len()
        invariant
            0 <= i <= txs@.len(),
            txs@.len() == heads@.len(),
            tmpl.wf(limits),
            request_admission(tmpl.txs(), tmpl.hv(), limits, txs@, heads@) == request_admission(
                tmpl.txs(),
                tmpl.hv(),
                limits,
                txs@.skip(i as int),
                heads@.skip(i as int),
            ),
        decreases txs@.len() - i,
    {
        assert(txs@.skip(i as int)[0] == txs@[i as int]);
        assert(heads@.skip(i as int)[0] == heads@[i as int]);
        assert(txs@.skip(i as int).drop_first() =~= txs@.skip(i + 1));
        assert(heads@.skip(i as int).drop_first() =~= heads@.skip(i + 1));
        if let Err(e) = tmpl.check_transaction(limits, &txs[i], heads[i]) {
            return Err(e);
        }
        i = i + 1;
    }
    Ok(())
}

proof fn lemma_first_index(ts: Seq<SlotTemplate>, slot: Slot, i: int)
    requires
        0 <= i <= ts.len(),
        forall|m: int| 0 <= m < i ==> ts[m].slot != slot,
    ensures
        i < ts.len() && ts[i].slot == slot ==> template_index(ts, slot) == Some(i),
        i == ts.len() ==> template_index(ts, slot).is_none(),
    decreases i,
{
    if i > 0 {
        let rest = ts.drop_first();
        assert forall|m: int| 0 <= m < i - 1 implies rest[m].slot != slot by {
            assert(rest[m] == ts[m + 1]);
        }
        lemma_first_index(rest, slot, i - 1);
    }
}

proof fn lemma_index_after_push(ts: Seq<SlotTemplate>, x: SlotTemplate)
    requires
        template_index(ts, x.slot).is_none(),
    ensures
        template_index(ts.push(x), x.slot) == Some(ts.len() as int),
        forall|s: Slot| s != x.slot ==> #[trigger] template_index(ts.push(x), s) == template_index(ts, s),
    decreases ts.len(),
{
    if ts.len() > 0 {
        assert(ts.push(x).drop_first() =~= ts.drop_first().push(x));
        lemma_index_after_push(ts.drop_first(), x);
        assert(ts.push(x)[0] == ts[0]);
    } else {
        assert(ts.push(x)[0] == x);
        assert(ts.push(x).drop_first() =~= ts);
    }
    assert forall|s: Slot| s != x.slot implies #[trigger] template_index(ts.push(x), s) == template_index(ts, s) by {
        lemma_index_other_push(ts, x, s);
    }
}

proof fn lemma_index_other_push(ts: Seq<SlotTemplate>, x: SlotTemplate, s: Slot)
    requires
        s != x.slot,
    ensures
        template_index(ts.push(x), s) == template_index(ts, s),
    decreases ts.len(),
{
    if ts.len() > 0 {
        assert(ts.push(x).drop_first() =~= ts.drop_first().push(x));
        assert(ts.push(x)[0] == ts[0]);
        lemma_index_other_push(ts.drop_first(), x, s);
    } else {
        assert(ts.push(x)[0] == x);
        assert(ts.push(x).drop_first() =~= ts);
    }
}

proof fn lemma_index_after_update(ts: Seq<SlotTemplate>, k: int, x: SlotTemplate)
    requires
        0 <= k < ts.len(),
        x.slot == ts[k].slot,
    ensures
        forall|s: Slot| #[trigger] template_index(ts.update(k, x), s) == template_index(ts, s),
    decreases ts.len(),
{
    assert forall|s: Slot| #[trigger] template_index(ts.update(k, x), s) == template_index(ts, s) by {
        lemma_index_update_one(ts, k, x, s);
    }
}

proof fn lemma_index_update_one(ts: Seq<SlotTemplate>, k: int, x: SlotTemplate, s: Slot)
    requires
        0 <= k < ts.len(),
        x.slot == ts[k].slot,
    ensures
        template_index(ts.update(k, x), s) == template_index(ts, s),
    decreases ts.len(),
{
    if k > 0 {
        assert(ts.update(k, x).drop_first() =~= ts.drop_first().update(k - 1, x));
        lemma_index_update_one(ts.drop_first(), k - 1, x, s);
    } else {
        assert(ts.update(k, x).drop_first() =~= ts.drop_first());
    }
}

/// Handling the same request twice: once its constraints were all appended for a slot,
/// admitting them again is rejected (and so changes nothing).
pub proof fn lemma_same_request_twice(
    before: ExecutionState,
    after: ExecutionState,
    slot: Slot,
    cs: Seq<SignedConstraints>,
    hs: Seq<AccountState>,
    hs_again: Seq<AccountState>,
)
    requires
        before.wf(),
        after.wf(),
        after.limits == before.limits,
        cs.len() > 0,
        admit_all(before.constraints_at(slot), before.heads_at(slot), before.limits, cs, hs).is_ok(),
        admit_all(before.constraints_at(slot), before.heads_at(slot), before.limits, cs, hs).unwrap().0
            == after.constraints_at(slot),
        after.constraints_at(slot).len() == before.constraints_at(slot).len() + cs.len(),
        hs_again.len() == cs.len(),
    ensures
        admit_all(after.constraints_at(slot), after.heads_at(slot), after.limits, cs, hs_again).is_err(),
{
    lemma_admit_all_appends(before.constraints_at(slot), before.heads_at(slot), before.limits, cs, hs);
    let n = before.constraints_at(slot).len();
    let l = after.constraints_at(slot);
    assert(l == before.constraints_at(slot) + cs);
    assert(l[n as int] == cs[0]);
    lemma_template_index_bound(after.templates@, slot);
    let k = template_index(after.templates@, slot).unwrap();
    let tmpl = after.templates@[k].template;
    assert(tmpl.wf(after.limits));
    assert(tmpl.txs()[n as int] == cs[0].message.tx);
    lemma_held_transaction_rejected(tmpl, after.limits, n as int, hs_again[0]);
}

} // verus!
