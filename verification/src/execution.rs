//! The dual-ledger reconciliation engine.
//!
//! The state owns the finalized chain and the candidate suffix derived from
//! the current blockclique; the candidate chain is their concatenation.
//! Exactly one worker mutates the state per wake cycle; queries only read.
use vstd::prelude::*;
use vstd::pervasive::VecAdditionalExecFns;
use crate::slot::Slot;
use crate::slot_map::{has_slot, SlotMap};
use crate::types::{BlockModel, ExecutedBlock, ExecutionConfig, ExecutionError};
use vstd::string::StringExecFns;
use vstd::seq_lib::group_seq_properties;

verus! {

broadcast use group_seq_properties;

/// Last finalized period of thread `t` in the chain, scanning from the end.
pub open spec fn cursor_of(chain: Seq<BlockModel>, t: u8) -> Option<u64>
    decreases chain.len(),
{
    if chain.len() == 0 {
        None
    } else if chain.last().slot.thread == t {
        Some(chain.last().slot.period)
    } else {
        cursor_of(chain.drop_last(), t)
    }
}

/// A newly finalized block is admissible iff its thread exists and its
/// period lies strictly beyond the thread's already-advanced cursor.
pub open spec fn entry_admissible(cursors: Seq<Option<u64>>, thread_count: u8, b: BlockModel) -> bool {
    &&& b.slot.thread < thread_count
    &&& match cursors[b.slot.thread as int] {
        None => true,
        Some(p) => b.slot.period > p,
    }
}

/// A finalized delta is admissible iff each of its blocks is.
pub open spec fn delta_admissible(
    cursors: Seq<Option<u64>>,
    thread_count: u8,
    delta: Seq<BlockModel>,
) -> bool {
    forall|i: int| 0 <= i < delta.len() ==> entry_admissible(cursors, thread_count, #[trigger] delta[i])
}

/// The blocks of `s` whose slots are not finalized in `fin`.
///
/// This is the finalized-wins tie-break: a blockclique entry at a slot that
/// is already finalized contributes nothing to the candidate chain.
pub open spec fn unfinalized(fin: Seq<BlockModel>, s: Seq<BlockModel>) -> Seq<BlockModel> {
    s.filter(|b: BlockModel| !has_slot(fin, b.slot))
}

/// Filtering a one-element sequence keeps or drops its element.
pub proof fn lemma_filter_singleton<A>(x: A, pred: spec_fn(A) -> bool)
    ensures
        pred(x) ==> seq![x].filter(pred) =~= seq![x],
        !pred(x) ==> seq![x].filter(pred) =~= Seq::<A>::empty(),
{
    reveal_with_fuel(Seq::<_>::filter, 2);
    assert(seq![x].drop_last() =~= Seq::<A>::empty());
    assert(seq![x].last() == x);
}

/// Every element of a filtered sequence comes from the sequence filtered.
pub proof fn lemma_filter_elems_contained<A>(s: Seq<A>, pred: spec_fn(A) -> bool)
    ensures
        forall|j: int|
            0 <= j < s.filter(pred).len() ==> s.contains(#[trigger] s.filter(pred)[j]),
    decreases s.len(),
{
    reveal_with_fuel(Seq::<_>::filter, 1);
    if s.len() > 0 {
        lemma_filter_elems_contained(s.drop_last(), pred);
        assert forall|j: int|
            0 <= j < s.filter(pred).len() implies s.contains(#[trigger] s.filter(pred)[j]) by {
            let sub = s.drop_last().filter(pred);
            if j < sub.len() {
                assert(sub[j] == s.filter(pred)[j]);
                assert(s.drop_last().contains(sub[j]));
                let k = choose|k: int| 0 <= k < s.drop_last().len() && s.drop_last()[k] == sub[j];
                assert(s[k] == sub[j]);
            } else {
                assert(s.filter(pred)[j] == s.last());
                assert(s[s.len() - 1] == s.last());
            }
        }
    }
}

/// The dual-ledger execution state: the finalized chain, the per-thread
/// finalization cursors, and the candidate suffix built from the current
/// blockclique.
pub struct ExecutionState {
    /// Static configuration.
    pub config: ExecutionConfig,
    /// Finalized blocks, in the order they were applied.
    pub final_blocks: Vec<ExecutedBlock>,
    /// Per-thread last finalized period; index `t` belongs to thread `t`.
    pub last_periods: Vec<Option<u64>>,
    /// Blocks of the current blockclique at slots not yet finalized, in
    /// ascending slot order.
    pub candidate_suffix: Vec<ExecutedBlock>,
}

impl ExecutionState {
    /// The finalized chain, in application order.
    pub open spec fn finalized(&self) -> Seq<BlockModel> {
        self.final_blocks.deep_view()
    }

    /// The candidate-only part of the candidate chain.
    pub open spec fn suffix(&self) -> Seq<BlockModel> {
        self.candidate_suffix.deep_view()
    }

    /// The candidate chain: the finalized chain followed by the surviving
    /// blockclique blocks.
    pub open spec fn candidate_chain(&self) -> Seq<BlockModel> {
        self.finalized() + self.suffix()
    }

    /// The per-thread finalization cursors.
    pub open spec fn cursors(&self) -> Seq<Option<u64>> {
        self.last_periods.deep_view()
    }

    /// Cursor bookkeeping is sound: one cursor per thread, each equal to
    /// the last finalized period of its thread.
    pub open spec fn wf_cursors(&self) -> bool {
        &&& self.cursors().len() == self.config.thread_count
        &&& forall|t: int|
            0 <= t < self.config.thread_count ==> self.cursors()[t] == cursor_of(
                self.finalized(),
                t as u8,
            )
    }

    /// Internal invariant: sound cursors, and a candidate suffix free of
    /// finalized slots (finalized wins).
    pub open spec fn wf(&self) -> bool {
        &&& self.wf_cursors()
        &&& forall|i: int|
            0 <= i < self.suffix().len() ==> !has_slot(self.finalized(), #[trigger] self.suffix()[i].slot)
    }

    /// Builds the startup state: empty finalized chain, empty candidate.
    pub fn new(config: ExecutionConfig) -> (r: ExecutionState)
        ensures
            r.wf(),
            r.config == config,
            r.finalized() =~= Seq::<BlockModel>::empty(),
            r.suffix() =~= Seq::<BlockModel>::empty(),
    {
        let mut last_periods: Vec<Option<u64>> = Vec::new();
        let mut t: usize = 0;
        while t < config.thread_count as usize
            invariant
                t <= config.thread_count as usize,
                last_periods@.len() == t,
                forall|i: int| 0 <= i < t ==> last_periods@[i] is None,
            decreases config.thread_count as usize - t,
        {
            last_periods.push(None);
            t = t + 1;
        }
        let r = ExecutionState {
            config,
            final_blocks: Vec::new(),
            last_periods,
            candidate_suffix: Vec::new(),
        };
        proof {
            assert forall|t: int| 0 <= t < config.thread_count implies r.cursors()[t] == cursor_of(
                r.finalized(),
                t as u8,
            ) by {
                assert(r.cursors()[t] == r.last_periods@[t].deep_view());
                assert(r.last_periods@[t] is None);
            }
        }
        r
    }

    /// Applies a finalized delta to the finalized chain, in ascending slot
    /// order, advancing the per-thread cursors.
    ///
    /// Succeeds iff every block of the delta is admissible against the
    /// already-advanced cursors; otherwise the monotonic-finalization
    /// invariant would be breached, the state is left untouched and a
    /// consistency error is returned. The candidate suffix is not touched.
    pub(crate) fn apply_finalized(&mut self, delta: SlotMap) -> (r: Result<(), ExecutionError>)
        requires
            old(self).wf_cursors(),
            delta.wf(),
        ensures
            final(self).wf_cursors(),
            final(self).config == old(self).config,
            final(self).suffix() =~= old(self).suffix(),
            r is Ok <==> delta_admissible(old(self).cursors(), old(self).config.thread_count, delta@),
            r is Ok ==> final(self).finalized() =~= old(self).finalized() + delta@,
            r is Err ==> *final(self) == *old(self) && r->Err_0 is ConsistencyError,
    {
        // Validation pass: no mutation until the whole delta is known to be
        // admissible, so a violation leaves the state untouched.
        let mut i: usize = 0;
        while i < delta.items.len()
            invariant
                i <= delta.items.len(),
                delta_admissible(self.cursors(), self.config.thread_count, delta@.take(i as int)),
                self.wf_cursors(),
                *self == *old(self),
            decreases delta.items.len() - i,
        {
            let b = &delta.items[i];
            let admissible = if b.slot.thread >= self.config.thread_count {
                false
            } else {
                match self.last_periods[b.slot.thread as usize] {
                    None => true,
                    Some(p) => b.slot.period > p,
                }
            };
            proof {
                assert(delta@[i as int] == delta.items@[i as int].deep_view());
                if b.slot.thread < self.config.thread_count {
                    assert(self.cursors()[b.slot.thread as int] == self.last_periods@[b.slot.thread as int].deep_view());
                }
            }
            if !admissible {
                proof {
                    assert(!entry_admissible(
                        self.cursors(),
                        self.config.thread_count,
                        delta@[i as int],
                    ));
                }
                return Err(
                    ExecutionError::ConsistencyError(
                        String::from_str("refinalization of an already finalized slot"),
                    ),
                );
            }
            proof {
                assert(entry_admissible(self.cursors(), self.config.thread_count, delta@[i as int]));
                assert(delta@.take(i as int + 1) =~= delta@.take(i as int).push(delta@[i as int]));
                assert forall|k: int|
                    0 <= k < i as int + 1 implies entry_admissible(
                    self.cursors(),
                    self.config.thread_count,
                    #[trigger] delta@.take(i as int + 1)[k],
                ) by {
                    if k < i {
                        assert(delta@.take(i as int)[k] == delta@.take(i as int + 1)[k]);
                        assert(entry_admissible(
                            self.cursors(),
                            self.config.thread_count,
                            delta@.take(i as int)[k],
                        ));
                    }
                }
            }
            i = i + 1;
        }
        proof {
            assert(delta@.take(delta@.len() as int) =~= delta@);
        }
        // Application pass: append in ascending slot order, advancing the
        // cursor of each block's thread.
        let ghost fin0 = self.finalized();
        let ghost delta_model = delta@;
        let mut rest = delta;
        while rest.items.len() > 0
            invariant
                self.config == old(self).config,
                self.wf_cursors(),
                self.candidate_suffix == old(self).candidate_suffix,
                delta_admissible(old(self).cursors(), self.config.thread_count, delta_model),
                rest.items@.len() == rest@.len(),
                self.final_blocks@.len() == self.finalized().len(),
                rest@.len() <= delta_model.len(),
                rest@ =~= delta_model.skip(delta_model.len() - rest@.len()),
                self.finalized() =~= fin0 + delta_model.take(delta_model.len() - rest@.len()),
            decreases rest.items.len(),
        {
            let ghost done = delta_model.len() - rest@.len();
            let ghost pre_fin = self.finalized();
            proof {
                assert(pre_fin.len() == self.final_blocks@.len());
            }
            let b = rest.items.remove(0);
            let ghost bm = b.deep_view();
            proof {
                assert(rest.items@.len() == rest@.len());
                assert(bm == delta_model[done]);
                assert(entry_admissible(old(self).cursors(), self.config.thread_count, bm));
                assert(rest.items.deep_view() =~= delta_model.skip(done + 1));
            }
            let ghost pre_cursors = self.cursors();
            proof {
                assert(pre_cursors.len() == self.last_periods@.len());
            }
            let thread = b.slot.thread as usize;
            let period = b.slot.period;
            self.last_periods.set(thread, Some(period));
            self.final_blocks.push(b);
            proof {
                assert(self.finalized() =~= pre_fin.push(bm));
                assert(self.finalized() =~= fin0 + delta_model.take(done + 1));
                assert(self.cursors() =~= pre_cursors.update(thread as int, Some(period)));
                assert forall|t: int|
                    0 <= t < self.config.thread_count implies self.cursors()[t] == cursor_of(
                    self.finalized(),
                    t as u8,
                ) by {
                    assert(pre_fin.push(bm).drop_last() =~= pre_fin);
                    assert(pre_fin.push(bm).last() == bm);
                    if t == thread as int {
                        assert(self.cursors()[t] == Some(period));
                        assert(bm.slot.thread == t as u8);
                    } else {
                        assert(self.cursors()[t] == pre_cursors[t]);
                        assert(pre_cursors[t] == cursor_of(pre_fin, t as u8));
                        assert(bm.slot.thread != t as u8);
                    }
                }
            }
        }
        proof {
            assert(delta_model.take(delta_model.len() as int) =~= delta_model);
        }
        Ok(())
    }

    /// True iff some finalized block stands at `slot`.
    fn finalized_at(&self, slot: &Slot) -> (r: bool)
        ensures
            r == has_slot(self.finalized(), *slot),
    {
        let mut i: usize = 0;
        while i < self.final_blocks.len()
            invariant
                i <= self.final_blocks.len(),
                forall|k: int| 0 <= k < i ==> self.finalized()[k].slot != *slot,
            decreases self.final_blocks.len() - i,
        {
            if self.final_blocks[i].slot == *slot {
                proof {
                    assert(self.finalized()[i as int].slot == *slot);
                }
                return true;
            }
            i = i + 1;
        }
        proof {
            assert(!has_slot(self.finalized(), *slot));
        }
        false
    }

    /// Rebuilds the candidate suffix from the given blocks, dropping every
    /// block whose slot is already finalized (finalized wins).
    pub(crate) fn rebuild_suffix(&mut self, source: Vec<ExecutedBlock>)
        requires
            old(self).wf_cursors(),
        ensures
            final(self).wf(),
            final(self).config == old(self).config,
            final(self).finalized() =~= old(self).finalized(),
            final(self).cursors() =~= old(self).cursors(),
            final(self).suffix() =~= unfinalized(old(self).finalized(), source.deep_view()),
    {
        let ghost src = source.deep_view();
        let ghost fin = old(self).finalized();
        let ghost pred = |b: BlockModel| !has_slot(fin, b.slot);
        let mut kept: Vec<ExecutedBlock> = Vec::new();
        let mut rest = source;
        while rest.len() > 0
            invariant
                self == old(self),
                fin == self.finalized(),
                rest@.len() == rest.deep_view().len(),
                kept@.len() == kept.deep_view().len(),
                rest.deep_view().len() <= src.len(),
                rest.deep_view() =~= src.skip(src.len() - rest.deep_view().len()),
                kept.deep_view() =~= src.take(src.len() - rest.deep_view().len()).filter(pred),
                pred == (|b: BlockModel| !has_slot(fin, b.slot)),
            decreases rest.len(),
        {
            let ghost done = src.len() - rest.deep_view().len();
            let ghost pre_kept = kept.deep_view();
            let b = rest.remove(0);
            let ghost bm = b.deep_view();
            proof {
                assert(rest@.len() == rest.deep_view().len());
                assert(bm == src[done]);
                assert(rest.deep_view() =~= src.skip(done + 1));
            }
            let keep = !self.finalized_at(&b.slot);
            if keep {
                kept.push(b);
            }
            proof {
                let taken = src.take(done);
                let taken1 = src.take(done + 1);
                assert(taken1 =~= taken + seq![bm]);
                Seq::<BlockModel>::filter_distributes_over_add(taken, seq![bm], pred);
                assert(pred(bm) == !has_slot(fin, bm.slot));
                assert(bm.slot == src[done].slot);
                assert(keep == !has_slot(fin, bm.slot));
                assert(pred(bm) == keep);
                lemma_filter_singleton(bm, pred);
                if keep {
                    assert(kept.deep_view() =~= pre_kept.push(bm));
                    assert(kept.deep_view() =~= taken1.filter(pred));
                } else {
                    assert(kept.deep_view() =~= taken1.filter(pred));
                }
            }
        }
        proof {
            assert(src.take(src.len() as int) =~= src);
        }
        self.candidate_suffix = kept;
        proof {
            assert(self.suffix() =~= unfinalized(fin, src));
            assert forall|i: int|
                0 <= i < self.suffix().len() implies !has_slot(
                self.finalized(),
                #[trigger] self.suffix()[i].slot,
            ) by {
                src.lemma_filter_pred(pred, i);
            }
        }
    }
}

} // verus!
