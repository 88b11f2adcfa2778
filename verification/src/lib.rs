//! Execution controller core of a blockchain node.
//!
//! The crate reconciles a continuously changing candidate chain (the
//! "blockclique") with a monotonically growing finalized chain, applies both
//! to a dual ledger (final and candidate views), and answers synchronous
//! queries against either view, including out-of-band read-only executions.
//!
//! The verified library holds the data and the decisions: the shared input
//! batch exchanged between callers and the single execution worker, the
//! bounded read-only request queue, and the ledger reconciliation and query
//! engine. The thread, the locks and the wake condition that carry these
//! values between threads live outside the library.
use vstd::prelude::*;

pub mod slot;
pub mod types;
pub mod request_queue;
pub mod slot_map;
pub mod input;
pub mod execution;
pub mod lookup;
pub mod queries;
pub mod events;
pub mod worker;
pub mod laws;
pub mod infos;

verus! {

} // verus!
