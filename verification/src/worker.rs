//! The worker's wake-cycle: drain a batch, reconcile, answer.
//!
//! Exactly one worker thread calls [`ExecutionState::apply_input`], with a
//! batch it previously took from the shared input channel. The cycle
//! applies the finalized delta, rebuilds the candidate suffix (a freshly
//! supplied blockclique wholesale-replaces the previous one), and answers
//! every queued read-only request against the rebuilt candidate chain —
//! exactly one reply per accepted request, in queue order, whether or not
//! the batch also asked the worker to stop.
use vstd::prelude::*;
use crate::execution::{delta_admissible, unfinalized, ExecutionState};
use crate::input::ExecutionInputData;
use crate::queries::{readonly_allowed, readonly_output_of};
use crate::types::{ExecutedBlock, ExecutionError, ExecutionOutput};

verus! {

/// The reply owed for one queued read-only request.
#[derive(Debug)]
pub struct ReadOnlyReply {
    /// Ticket of the request this reply answers.
    pub ticket: u64,
    /// What the execution produced, or why it failed.
    pub result: Result<ExecutionOutput, ExecutionError>,
}

impl ExecutionState {
    /// Runs one worker cycle on a drained batch.
    ///
    /// Succeeds iff the batch's finalized delta is admissible; the
    /// finalized chain then grows by exactly the delta, the candidate
    /// suffix is rebuilt — from the freshly supplied blockclique if one
    /// came, else from the previous suffix — with finalized slots dropped
    /// (finalized wins), and every queued request is answered once, in
    /// order, against the new candidate chain. An inadmissible delta is a
    /// consistency violation: the state is left untouched and the error
    /// returned is fatal to the worker.
    pub fn apply_input(&mut self, input: ExecutionInputData) -> (r: Result<
        Vec<ReadOnlyReply>,
        ExecutionError,
    >)
        requires
            old(self).wf(),
            input.wf(),
        ensures
            final(self).config == old(self).config,
            r is Ok <==> delta_admissible(
                old(self).cursors(),
                old(self).config.thread_count,
                input.finalized_blocks@,
            ),
            r is Ok ==> final(self).wf(),
            r is Ok ==> final(self).finalized() =~= old(self).finalized()
                + input.finalized_blocks@,
            r is Ok ==> final(self).suffix() =~= unfinalized(
                final(self).finalized(),
                if input.new_blockclique is Some {
                    input.new_blockclique->0@
                } else {
                    old(self).suffix()
                },
            ),
            r is Ok ==> r->Ok_0@.len() == input.readonly_requests@.len(),
            r is Ok ==> forall|i: int|
                0 <= i < input.readonly_requests@.len() ==> {
                    let reply = #[trigger] r->Ok_0@[i];
                    &&& reply.ticket == input.readonly_requests@[i].0
                    &&& (readonly_allowed(
                        final(self).config.max_read_only_gas,
                        input.readonly_requests@[i].1,
                    ) <==> reply.result is Ok)
                    &&& (reply.result matches Ok(out) ==> out.deep_view() == readonly_output_of(
                        final(self).candidate_chain(),
                        input.readonly_requests@[i].1,
                    ))
                    &&& (reply.result matches Err(e) ==> e is RuntimeError)
                },
            r is Err ==> *final(self) == *old(self) && r->Err_0 is ConsistencyError,
    {
        let ExecutionInputData { stop: _, finalized_blocks, new_blockclique, readonly_requests } =
            input;
        match self.apply_finalized(finalized_blocks) {
            Ok(()) => {},
            Err(e) => {
                return Err(e);
            },
        }
        match new_blockclique {
            Some(bc) => {
                self.rebuild_suffix(bc.items);
            },
            None => {
                let mut source: Vec<ExecutedBlock> = Vec::new();
                core::mem::swap(&mut source, &mut self.candidate_suffix);
                self.rebuild_suffix(source);
            },
        }
        let ghost queue0 = readonly_requests@;
        let ghost mid = *self;
        let mut queue = readonly_requests;
        let mut replies: Vec<ReadOnlyReply> = Vec::new();
        loop
            invariant
                *self == mid,
                self.wf(),
                queue.wf(),
                replies@.len() + queue@.len() == queue0.len(),
                queue@ =~= queue0.skip(replies@.len() as int),
                forall|i: int|
                    0 <= i < replies@.len() ==> {
                        let reply = #[trigger] replies@[i];
                        &&& reply.ticket == queue0[i].0
                        &&& (readonly_allowed(self.config.max_read_only_gas, queue0[i].1)
                            <==> reply.result is Ok)
                        &&& (reply.result matches Ok(out) ==> out.deep_view()
                            == readonly_output_of(self.candidate_chain(), queue0[i].1))
                        &&& (reply.result matches Err(e) ==> e is RuntimeError)
                    },
            ensures
                *self == mid,
                replies@.len() == queue0.len(),
                forall|i: int|
                    0 <= i < replies@.len() ==> {
                        let reply = #[trigger] replies@[i];
                        &&& reply.ticket == queue0[i].0
                        &&& (readonly_allowed(self.config.max_read_only_gas, queue0[i].1)
                            <==> reply.result is Ok)
                        &&& (reply.result matches Ok(out) ==> out.deep_view()
                            == readonly_output_of(self.candidate_chain(), queue0[i].1))
                        &&& (reply.result matches Err(e) ==> e is RuntimeError)
                    },
            decreases queue@.len(),
        {
            let ghost pre_queue = queue@;
            let next = queue.pop_front();
            match next {
                None => {
                    break;
                },
                Some(item) => {
                    let ghost k = replies@.len() as int;
                    proof {
                        assert(item.deep_view() == pre_queue[0]);
                        assert(pre_queue[0] == queue0[k]);
                        assert(queue@ =~= queue0.skip(k + 1));
                    }
                    let result = self.execute_readonly_request(&item.request);
                    replies.push(ReadOnlyReply { ticket: item.ticket, result });
                },
            }
        }
        Ok(replies)
    }
}

} // verus!
