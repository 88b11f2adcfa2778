//! The append-only output-event log and its filtered queries.
//!
//! Events are emitted by ledger changes as blocks run; the log of a chain
//! is the concatenation of each block's emissions, in chain order. A query
//! keeps every event matching all populated fields of its filter.
use vstd::prelude::*;
use crate::execution::{lemma_filter_singleton, ExecutionState};
use crate::slot::{slot_le, Slot};
use crate::types::{
    copy_bytes, lemma_bytes_deep_view, BlockModel, ChangeModel, EventFilter, EventModel,
    ExecutedBlock, SCOutputEvent, StateChange,
};

verus! {

broadcast use lemma_bytes_deep_view;

/// The events emitted by a block's change list, in order.
pub open spec fn events_in_changes(slot: Slot, cs: Seq<ChangeModel>) -> Seq<EventModel>
    decreases cs.len(),
{
    if cs.len() == 0 {
        Seq::empty()
    } else {
        events_in_changes(slot, cs.drop_last()) + (match cs.last() {
            ChangeModel::EmitEvent {
                emitter_address,
                original_caller_address,
                original_operation_id,
                data,
            } => seq![
                EventModel {
                    slot,
                    emitter_address,
                    original_caller_address,
                    original_operation_id,
                    data,
                },
            ],
            _ => Seq::empty(),
        })
    }
}

/// The output-event log of a chain, in emission order.
pub open spec fn events_of(chain: Seq<BlockModel>) -> Seq<EventModel>
    decreases chain.len(),
{
    if chain.len() == 0 {
        Seq::empty()
    } else {
        events_of(chain.drop_last()) + events_in_changes(
            chain.last().slot,
            chain.last().payload.changes,
        )
    }
}

/// The event log of a concatenation is the concatenation of the logs.
pub proof fn lemma_events_concat(a: Seq<BlockModel>, b: Seq<BlockModel>)
    ensures
        events_of(a + b) =~= events_of(a) + events_of(b),
    decreases b.len(),
{
    if b.len() == 0 {
        assert(a + b =~= a);
        assert(events_of(b) =~= Seq::<EventModel>::empty());
    } else {
        assert((a + b).drop_last() =~= a + b.drop_last());
        assert((a + b).last() == b.last());
        lemma_events_concat(a, b.drop_last());
    }
}

/// True iff the event matches every populated field of the filter.
pub open spec fn event_matches(f: EventFilter, e: EventModel) -> bool {
    &&& (f.start matches Some(s) ==> slot_le(s, e.slot))
    &&& (f.end matches Some(s) ==> slot_le(e.slot, s))
    &&& (f.emitter_address matches Some(a) ==> e.emitter_address == a)
    &&& (f.original_caller_address matches Some(a) ==> e.original_caller_address == a)
    &&& (f.original_operation_id matches Some(o) ==> e.original_operation_id == o)
}

/// True iff the event matches every populated field of the filter.
fn event_passes(f: &EventFilter, e: &SCOutputEvent) -> (r: bool)
    ensures
        r == event_matches(*f, e.deep_view()),
{
    let start_ok = match &f.start {
        Some(s) => s.precedes_or_eq(&e.slot),
        None => true,
    };
    let end_ok = match &f.end {
        Some(s) => e.slot.precedes_or_eq(s),
        None => true,
    };
    let emitter_ok = match &f.emitter_address {
        Some(a) => e.emitter_address == *a,
        None => true,
    };
    let caller_ok = match &f.original_caller_address {
        Some(a) => e.original_caller_address == *a,
        None => true,
    };
    let op_ok = match &f.original_operation_id {
        Some(o) => e.original_operation_id == *o,
        None => true,
    };
    start_ok && end_ok && emitter_ok && caller_ok && op_ok
}

/// Appends to `acc` the events of the given blocks that match the filter,
/// in emission order.
fn collect_events(acc: &mut Vec<SCOutputEvent>, blocks: &Vec<ExecutedBlock>, f: &EventFilter)
    ensures
        final(acc).deep_view() =~= old(acc).deep_view() + events_of(blocks.deep_view()).filter(
            |e: EventModel| event_matches(*f, e),
        ),
{
    let ghost chain = blocks.deep_view();
    let ghost acc0 = old(acc).deep_view();
    let ghost pred = |e: EventModel| event_matches(*f, e);
    let mut i: usize = 0;
    proof {
        assert(chain.take(0) =~= Seq::<BlockModel>::empty());
        assert(events_of(chain.take(0)) =~= Seq::<EventModel>::empty());
        assert(Seq::<EventModel>::empty().filter(pred) =~= Seq::<EventModel>::empty());
        assert(acc.deep_view() =~= acc0 + events_of(chain.take(0)).filter(pred));
    }
    while i < blocks.len()
        invariant
            chain == blocks.deep_view(),
            blocks@.len() == chain.len(),
            i <= chain.len(),
            pred == (|e: EventModel| event_matches(*f, e)),
            acc.deep_view() =~= acc0 + events_of(chain.take(i as int)).filter(pred),
        decreases chain.len() - i,
    {
        let b = &blocks[i];
        let ghost bm = chain[i as int];
        proof {
            assert(bm == blocks@[i as int].deep_view());
        }
        let cs = &b.payload.changes;
        let ghost csm = bm.payload.changes;
        let ghost upto_block = acc0 + events_of(chain.take(i as int)).filter(pred);
        let mut j: usize = 0;
        proof {
            assert(csm.take(0) =~= Seq::<ChangeModel>::empty());
            assert(events_in_changes(bm.slot, csm.take(0)) =~= Seq::<EventModel>::empty());
            assert(Seq::<EventModel>::empty().filter(pred) =~= Seq::<EventModel>::empty());
            assert(acc.deep_view() =~= upto_block + events_in_changes(bm.slot, csm.take(0)).filter(
                pred,
            ));
        }
        while j < cs.len()
            invariant
                csm == blocks@[i as int].payload.changes.deep_view(),
                cs == &blocks@[i as int].payload.changes,
                *b == blocks@[i as int],
                bm == blocks@[i as int].deep_view(),
                blocks@.len() == chain.len(),
                i < chain.len(),
                cs@.len() == csm.len(),
                j <= csm.len(),
                pred == (|e: EventModel| event_matches(*f, e)),
                upto_block == acc0 + events_of(chain.take(i as int)).filter(pred),
                acc.deep_view() =~= upto_block + events_in_changes(bm.slot, csm.take(j as int)).filter(pred),
            decreases csm.len() - j,
        {
            let c = &cs[j];
            let ghost cm = csm[j as int];
            proof {
                assert(cm == cs@[j as int].deep_view());
                assert(csm.take(j as int + 1).drop_last() =~= csm.take(j as int));
                assert(csm.take(j as int + 1).last() == cm);
            }
            let ghost pre_acc = acc.deep_view();
            match c {
                StateChange::EmitEvent {
                    emitter_address,
                    original_caller_address,
                    original_operation_id,
                    data,
                } => {
                    let ev = SCOutputEvent {
                        slot: b.slot,
                        emitter_address: *emitter_address,
                        original_caller_address: *original_caller_address,
                        original_operation_id: *original_operation_id,
                        data: copy_bytes(data),
                    };
                    let ghost evm = EventModel {
                        slot: bm.slot,
                        emitter_address: *emitter_address,
                        original_caller_address: *original_caller_address,
                        original_operation_id: *original_operation_id,
                        data: data.deep_view(),
                    };
                    proof {
                        assert(cm == (ChangeModel::EmitEvent {
                            emitter_address: *emitter_address,
                            original_caller_address: *original_caller_address,
                            original_operation_id: *original_operation_id,
                            data: data.deep_view(),
                        }));
                        assert(bm.slot == b.slot);
                        assert(ev.data@ == data@);
                        assert(ev.deep_view() == evm);
                        assert(events_in_changes(bm.slot, csm.take(j as int + 1))
                            =~= events_in_changes(bm.slot, csm.take(j as int)) + seq![evm]);
                        Seq::<EventModel>::filter_distributes_over_add(
                            events_in_changes(bm.slot, csm.take(j as int)),
                            seq![evm],
                            pred,
                        );
                        lemma_filter_singleton(evm, pred);
                    }
                    if event_passes(f, &ev) {
                        acc.push(ev);
                        proof {
                            assert(acc.deep_view() =~= pre_acc.push(evm));
                        }
                    }
                },
                _ => {
                    proof {
                        assert(events_in_changes(bm.slot, csm.take(j as int + 1))
                            =~= events_in_changes(bm.slot, csm.take(j as int)) + Seq::<
                            EventModel,
                        >::empty());
                        assert(events_in_changes(bm.slot, csm.take(j as int + 1)) =~= events_in_changes(
                            bm.slot,
                            csm.take(j as int),
                        ));
                    }
                },
            }
            j = j + 1;
        }
        proof {
            assert(csm.take(csm.len() as int) =~= csm);
            assert(chain.take(i as int + 1).drop_last() =~= chain.take(i as int));
            assert(chain.take(i as int + 1).last() == bm);
            assert(events_of(chain.take(i as int + 1)) =~= events_of(chain.take(i as int))
                + events_in_changes(bm.slot, csm));
            Seq::<EventModel>::filter_distributes_over_add(
                events_of(chain.take(i as int)),
                events_in_changes(bm.slot, csm),
                pred,
            );
        }
        i = i + 1;
    }
    proof {
        assert(chain.take(chain.len() as int) =~= chain);
    }
}

impl ExecutionState {
    /// The output events of the candidate chain matching the filter, in
    /// emission order.
    pub fn get_filtered_sc_output_event(&self, filter: EventFilter) -> (r: Vec<SCOutputEvent>)
        ensures
            r.deep_view() =~= events_of(self.candidate_chain()).filter(
                |e: EventModel| event_matches(filter, e),
            ),
    {
        let mut r: Vec<SCOutputEvent> = Vec::new();
        proof {
            assert(r.deep_view() =~= Seq::<EventModel>::empty());
        }
        collect_events(&mut r, &self.final_blocks, &filter);
        collect_events(&mut r, &self.candidate_suffix, &filter);
        proof {
            lemma_events_concat(self.finalized(), self.suffix());
            Seq::<EventModel>::filter_distributes_over_add(
                events_of(self.finalized()),
                events_of(self.suffix()),
                |e: EventModel| event_matches(filter, e),
            );
        }
        r
    }
}

} // verus!
