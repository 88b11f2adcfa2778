//! The shared input batch exchanged between caller threads and the worker.
//!
//! Callers mutate the batch under a lock held by the layer around the
//! library and signal a wake condition; the worker swaps the batch for a
//! fresh empty one with [`ExecutionInputData::take`] and processes the old
//! batch without holding the lock, so lock hold time never grows with the
//! amount of accumulated work.
use vstd::prelude::*;
use crate::request_queue::RequestQueue;
use crate::slot_map::{has_slot, SlotMap};
use crate::types::{ExecutionConfig, ExecutionError, ReadOnlyExecutionRequest};

verus! {

/// Everything callers hand to the worker between two wake-ups.
pub struct ExecutionInputData {
    /// Set to ask the worker to exit after the batch it drains next.
    pub stop: bool,
    /// Newly finalized blocks, accumulated across calls.
    pub finalized_blocks: SlotMap,
    /// Replacement blockclique, if a new one was supplied; the latest
    /// supplied one wholesale-replaces any earlier one.
    pub new_blockclique: Option<SlotMap>,
    /// Queue of read-only execution requests awaiting replies.
    pub readonly_requests: RequestQueue,
}

impl ExecutionInputData {
    /// Internal invariant of the batch.
    pub open spec fn wf(&self) -> bool {
        &&& self.finalized_blocks.wf()
        &&& (self.new_blockclique is Some ==> self.new_blockclique->0.wf())
        &&& self.readonly_requests.wf()
    }

    /// The batch asks the worker for no work at all.
    pub open spec fn is_reset(&self) -> bool {
        &&& !self.stop
        &&& self.finalized_blocks@.len() == 0
        &&& self.new_blockclique is None
        &&& self.readonly_requests@.len() == 0
    }

    /// Builds an empty batch whose read-only queue has the configured
    /// capacity.
    pub fn new(config: ExecutionConfig) -> (r: ExecutionInputData)
        ensures
            r.wf(),
            r.is_reset(),
            r.readonly_requests.capacity() == config.readonly_queue_length,
    {
        ExecutionInputData {
            stop: false,
            finalized_blocks: SlotMap::new(),
            new_blockclique: None,
            readonly_requests: RequestQueue::new(config.readonly_queue_length),
        }
    }

    /// Atomically swaps the batch for a fresh empty one and returns the old
    /// batch, so the worker can process it without holding any lock.
    ///
    /// The fresh batch keeps the queue's capacity and its ticket counter,
    /// so tickets stay unique across wake cycles.
    pub fn take(&mut self) -> (r: ExecutionInputData)
        requires
            old(self).wf(),
        ensures
            final(self).wf(),
            r.wf(),
            final(self).is_reset(),
            final(self).readonly_requests.capacity() == old(self).readonly_requests.capacity(),
            final(self).readonly_requests.upcoming_ticket() == old(
                self,
            ).readonly_requests.upcoming_ticket(),
            r.stop == old(self).stop,
            r.finalized_blocks@ =~= old(self).finalized_blocks@,
            r.new_blockclique is Some <==> old(self).new_blockclique is Some,
            r.new_blockclique is Some ==> r.new_blockclique->0@ =~= old(
                self,
            ).new_blockclique->0@,
            r.readonly_requests@ =~= old(self).readonly_requests@,
    {
        let stop = self.stop;
        self.stop = false;
        let mut finalized_blocks = SlotMap::new();
        core::mem::swap(&mut finalized_blocks, &mut self.finalized_blocks);
        let mut new_blockclique = None;
        core::mem::swap(&mut new_blockclique, &mut self.new_blockclique);
        let readonly_requests = self.readonly_requests.take();
        ExecutionInputData { stop, finalized_blocks, new_blockclique, readonly_requests }
    }

    /// Registers a blockclique change: appends the newly finalized blocks
    /// to the pending delta (the fresh report wins over a slot still
    /// pending) and wholesale-replaces the pending blockclique.
    ///
    /// The pending finalized-slot set never shrinks: every slot already
    /// pending is still pending afterwards.
    pub fn update_blockclique_status(&mut self, finalized_blocks: SlotMap, new_blockclique: SlotMap)
        requires
            old(self).wf(),
            finalized_blocks.wf(),
            new_blockclique.wf(),
        ensures
            final(self).wf(),
            final(self).stop == old(self).stop,
            final(self).readonly_requests == old(self).readonly_requests,
            // the delta is merged in, the fresh report winning per slot
            forall|b: crate::types::BlockModel|
                final(self).finalized_blocks@.contains(b) <==> (finalized_blocks@.contains(b)
                    || (old(self).finalized_blocks@.contains(b) && !has_slot(
                    finalized_blocks@,
                    b.slot,
                ))),
            // the pending finalized-slot set only grows
            forall|s: crate::slot::Slot|
                has_slot(final(self).finalized_blocks@, s) <==> (has_slot(
                    old(self).finalized_blocks@,
                    s,
                ) || has_slot(finalized_blocks@, s)),
            // the pending blockclique is replaced outright
            final(self).new_blockclique is Some,
            final(self).new_blockclique->0@ =~= new_blockclique@,
    {
        self.finalized_blocks.extend(finalized_blocks);
        self.new_blockclique = Some(new_blockclique);
    }

    /// Tries to enqueue a read-only request, failing fast with a capacity
    /// error when the queue already holds its configured capacity.
    ///
    /// On success the returned ticket names the single reply the worker
    /// owes for the request.
    pub fn push_readonly_request(&mut self, request: ReadOnlyExecutionRequest) -> (r: Result<
        u64,
        ExecutionError,
    >)
        requires
            old(self).wf(),
        ensures
            final(self).wf(),
            final(self).stop == old(self).stop,
            final(self).finalized_blocks == old(self).finalized_blocks,
            final(self).new_blockclique == old(self).new_blockclique,
            final(self).readonly_requests.capacity() == old(self).readonly_requests.capacity(),
            old(self).readonly_requests@.len() < old(self).readonly_requests.capacity() && old(
                self,
            ).readonly_requests.upcoming_ticket() < u64::MAX ==> {
                &&& r is Ok
                &&& r->Ok_0 == old(self).readonly_requests.upcoming_ticket()
                &&& final(self).readonly_requests@ =~= old(self).readonly_requests@.push(
                    (r->Ok_0, request.deep_view()),
                )
            },
            old(self).readonly_requests@.len() >= old(self).readonly_requests.capacity() || old(
                self,
            ).readonly_requests.upcoming_ticket() == u64::MAX ==> {
                &&& r is Err
                &&& r->Err_0 is ChannelError
                &&& final(self).readonly_requests == old(self).readonly_requests
            },
    {
        self.readonly_requests.push(request)
    }
}

} // verus!
