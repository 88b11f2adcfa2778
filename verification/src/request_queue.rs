//! Bounded FIFO queue of read-only execution requests.
//!
//! Each accepted request is paired with a fresh ticket; the layer around the
//! library routes the single reply for a ticket back to the caller that
//! pushed it. The queue rejects a push once it holds its configured
//! capacity, so producers never block and never queue without bound.
use vstd::prelude::*;
use crate::types::{ExecutionError, ReadOnlyExecutionRequest, RequestModel};
use vstd::string::StringExecFns;

verus! {

/// A queued request together with the ticket its reply must carry.
pub struct QueuedRequest {
    /// Ticket pairing the request with its one reply.
    pub ticket: u64,
    /// The request itself.
    pub request: ReadOnlyExecutionRequest,
}

impl DeepView for QueuedRequest {
    type V = (u64, RequestModel);

    open spec fn deep_view(&self) -> (u64, RequestModel) {
        (self.ticket, self.request.deep_view())
    }
}

/// Bounded FIFO of read-only requests awaiting the worker.
pub struct RequestQueue {
    /// Largest number of requests the queue may hold at once.
    max_items: usize,
    /// Ticket handed to the next accepted request.
    next_ticket: u64,
    /// The queued requests, oldest first.
    queue: Vec<QueuedRequest>,
}

impl RequestQueue {
    /// The queued requests as a sequence of (ticket, request) pairs,
    /// oldest first.
    pub closed spec fn view(&self) -> Seq<(u64, RequestModel)> {
        self.queue.deep_view()
    }

    /// The configured capacity.
    pub closed spec fn capacity(&self) -> usize {
        self.max_items
    }

    /// The ticket the next accepted request will get.
    pub closed spec fn upcoming_ticket(&self) -> u64 {
        self.next_ticket
    }

    /// Internal invariant: the queue never exceeds its capacity, and
    /// tickets are strictly increasing, all below the upcoming one.
    pub closed spec fn wf(&self) -> bool {
        &&& self.queue.len() <= self.max_items
        &&& forall|i: int, j: int|
            0 <= i < j < self.queue.len() ==> self.queue[i].ticket < self.queue[j].ticket
        &&& forall|i: int| 0 <= i < self.queue.len() ==> #[trigger] self.queue[i].ticket < self.next_ticket
    }

    /// All tickets in the queue are distinct.
    pub proof fn lemma_tickets_distinct(&self)
        requires
            self.wf(),
        ensures
            forall|i: int, j: int|
                0 <= i < self@.len() && 0 <= j < self@.len() && i != j ==> self@[i].0 != self@[j].0,
    {
        assert forall|i: int, j: int|
            0 <= i < self@.len() && 0 <= j < self@.len() && i != j implies self@[i].0 != self@[j].0 by {
            if i < j {
                assert(self.queue[i].ticket < self.queue[j].ticket);
            } else {
                assert(self.queue[j].ticket < self.queue[i].ticket);
            }
        }
    }

    /// The queue never holds more than its configured capacity: the bound
    /// is part of the queue's invariant, which every operation preserves,
    /// and a push against a full queue fails fast without enqueuing.
    pub proof fn lemma_never_exceeds_capacity(&self)
        requires
            self.wf(),
        ensures
            self@.len() <= self.capacity(),
    {
    }

    /// Builds an empty queue of the given capacity.
    pub fn new(max_items: usize) -> (r: RequestQueue)
        ensures
            r.wf(),
            r@ =~= Seq::<(u64, RequestModel)>::empty(),
            r.capacity() == max_items,
            r.upcoming_ticket() == 0,
    {
        RequestQueue { max_items, next_ticket: 0, queue: Vec::new() }
    }

    /// Number of queued requests.
    pub fn len(&self) -> (r: usize)
        ensures
            r == self@.len(),
    {
        self.queue.len()
    }

    /// True iff the queue holds its configured capacity.
    pub fn is_full(&self) -> (r: bool)
        ensures
            r == (self@.len() >= self.capacity()),
    {
        self.queue.len() >= self.max_items
    }

    /// Tries to enqueue a request.
    ///
    /// Succeeds with a fresh ticket iff the queue is not yet at capacity;
    /// a full queue rejects the request at once with a capacity error and
    /// is left unchanged.
    pub fn push(&mut self, request: ReadOnlyExecutionRequest) -> (r: Result<
        u64,
        ExecutionError,
    >)
        requires
            old(self).wf(),
        ensures
            final(self).wf(),
            final(self).capacity() == old(self).capacity(),
            old(self)@.len() < old(self).capacity() && old(self).upcoming_ticket() < u64::MAX
                ==> {
                &&& r is Ok
                &&& r->Ok_0 == old(self).upcoming_ticket()
                &&& final(self)@ =~= old(self)@.push((r->Ok_0, request.deep_view()))
                &&& final(self).upcoming_ticket() == old(self).upcoming_ticket() + 1
            },
            old(self)@.len() >= old(self).capacity() || old(self).upcoming_ticket() == u64::MAX
                ==> {
                &&& r is Err
                &&& r->Err_0 is ChannelError
                &&& r->Err_0->ChannelError_0@ == "too many queued readonly requests"@
                &&& *final(self) == *old(self)
            },
    {
        if self.queue.len() >= self.max_items {
            return Err(
                ExecutionError::ChannelError(
                    String::from_str("too many queued readonly requests"),
                ),
            );
        }
        if self.next_ticket == u64::MAX {
            // Tickets are drawn from a 64-bit counter that practice cannot
            // exhaust; the queue treats exhaustion as a full queue rather
            // than reuse a ticket.
            return Err(
                ExecutionError::ChannelError(
                    String::from_str("too many queued readonly requests"),
                ),
            );
        }
        let ticket = self.next_ticket;
        self.next_ticket = self.next_ticket + 1;
        self.queue.push(QueuedRequest { ticket, request });
        Ok(ticket)
    }

    /// Takes the queued requests out, leaving the queue empty with the same
    /// capacity and the same upcoming ticket.
    pub fn take(&mut self) -> (r: RequestQueue)
        requires
            old(self).wf(),
        ensures
            final(self).wf(),
            r.wf(),
            r@ =~= old(self)@,
            r.capacity() == old(self).capacity(),
            r.upcoming_ticket() == old(self).upcoming_ticket(),
            final(self)@ =~= Seq::<(u64, RequestModel)>::empty(),
            final(self).capacity() == old(self).capacity(),
            final(self).upcoming_ticket() == old(self).upcoming_ticket(),
    {
        let mut drained: Vec<QueuedRequest> = Vec::new();
        core::mem::swap(&mut drained, &mut self.queue);
        RequestQueue { max_items: self.max_items, next_ticket: self.next_ticket, queue: drained }
    }

    /// Removes and returns the oldest queued request, if any.
    pub fn pop_front(&mut self) -> (r: Option<QueuedRequest>)
        requires
            old(self).wf(),
        ensures
            final(self).wf(),
            final(self).capacity() == old(self).capacity(),
            final(self).upcoming_ticket() == old(self).upcoming_ticket(),
            old(self)@.len() == 0 ==> r is None && final(self)@ =~= old(self)@,
            old(self)@.len() > 0 ==> {
                &&& r is Some
                &&& r->0.deep_view() == old(self)@[0]
                &&& final(self)@ =~= old(self)@.skip(1)
            },
    {
        if self.queue.len() == 0 {
            return None;
        }
        let q = self.queue.remove(0);
        proof {
            assert(self.queue.deep_view() =~= old(self).queue.deep_view().skip(1));
        }
        Some(q)
    }
}

} // verus!
