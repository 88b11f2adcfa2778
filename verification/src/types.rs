//! Core data model: block payloads, state changes, requests, outputs, errors.
//!
//! Addresses, operation ids, block ids and coin amounts are carried as plain
//! 64-bit values; the content-addressing scheme behind them belongs to the
//! layers around the core and is irrelevant to how execution flows.
use vstd::prelude::*;
use crate::slot::Slot;

verus! {

/// A ledger mutation carried by a block.
///
/// Blocks are opaque to the reconciliation engine except for the changes they
/// make to the dual ledger and the operations they settle; a payload lists
/// exactly those.
pub enum StateChange {
    /// Sets the datastore entry `key` of `address` to `value`.
    SetDataEntry { address: u64, key: Vec<u8>, value: Vec<u8> },
    /// Sets the sequential balance of `address`.
    SetSequentialBalance { address: u64, amount: u64 },
    /// Sets the parallel (staked) balance of `address`.
    SetParallelBalance { address: u64, amount: u64 },
    /// Sets the roll count of `address`.
    SetRollCount { address: u64, count: u64 },
    /// Replaces the future deferred credits of `address`.
    SetDeferredCredits { address: u64, credits: Vec<(Slot, u64)> },
    /// Replaces the active-roll distribution of `cycle`.
    SetCycleRolls { cycle: u64, rolls: Vec<(u64, u64)> },
    /// Appends an event to the output-event log.
    EmitEvent {
        emitter_address: u64,
        original_caller_address: u64,
        original_operation_id: u64,
        data: Vec<u8>,
    },
}

/// Mathematical model of a [`StateChange`].
pub enum ChangeModel {
    SetDataEntry { address: u64, key: Seq<u8>, value: Seq<u8> },
    SetSequentialBalance { address: u64, amount: u64 },
    SetParallelBalance { address: u64, amount: u64 },
    SetRollCount { address: u64, count: u64 },
    SetDeferredCredits { address: u64, credits: Seq<(Slot, u64)> },
    SetCycleRolls { cycle: u64, rolls: Seq<(u64, u64)> },
    EmitEvent {
        emitter_address: u64,
        original_caller_address: u64,
        original_operation_id: u64,
        data: Seq<u8>,
    },
}

impl DeepView for StateChange {
    type V = ChangeModel;

    open spec fn deep_view(&self) -> ChangeModel {
        match self {
            StateChange::SetDataEntry { address, key, value } => ChangeModel::SetDataEntry {
                address: *address,
                key: key.deep_view(),
                value: value.deep_view(),
            },
            StateChange::SetSequentialBalance { address, amount } => {
                ChangeModel::SetSequentialBalance { address: *address, amount: *amount }
            },
            StateChange::SetParallelBalance { address, amount } => {
                ChangeModel::SetParallelBalance { address: *address, amount: *amount }
            },
            StateChange::SetRollCount { address, count } => ChangeModel::SetRollCount {
                address: *address,
                count: *count,
            },
            StateChange::SetDeferredCredits { address, credits } => {
                ChangeModel::SetDeferredCredits { address: *address, credits: credits.deep_view() }
            },
            StateChange::SetCycleRolls { cycle, rolls } => ChangeModel::SetCycleRolls {
                cycle: *cycle,
                rolls: rolls.deep_view(),
            },
            StateChange::EmitEvent {
                emitter_address,
                original_caller_address,
                original_operation_id,
                data,
            } => ChangeModel::EmitEvent {
                emitter_address: *emitter_address,
                original_caller_address: *original_caller_address,
                original_operation_id: *original_operation_id,
                data: data.deep_view(),
            },
        }
    }
}

/// The effects of one block: the operations it settles and the ledger
/// changes it makes, in block order.
pub struct BlockPayload {
    /// Ids of the operations the block settles.
    pub operations: Vec<u64>,
    /// Ledger changes the block makes, applied in order.
    pub changes: Vec<StateChange>,
}

/// Mathematical model of a [`BlockPayload`].
pub struct PayloadModel {
    pub operations: Seq<u64>,
    pub changes: Seq<ChangeModel>,
}

impl DeepView for BlockPayload {
    type V = PayloadModel;

    open spec fn deep_view(&self) -> PayloadModel {
        PayloadModel { operations: self.operations.deep_view(), changes: self.changes.deep_view() }
    }
}

/// A block placed at a slot: its id and its payload.
pub struct ExecutedBlock {
    /// The slot the block stands at.
    pub slot: Slot,
    /// Content-addressed identifier of the block.
    pub block_id: u64,
    /// The block's effects.
    pub payload: BlockPayload,
}

/// Mathematical model of an [`ExecutedBlock`].
pub struct BlockModel {
    pub slot: Slot,
    pub block_id: u64,
    pub payload: PayloadModel,
}

impl DeepView for ExecutedBlock {
    type V = BlockModel;

    open spec fn deep_view(&self) -> BlockModel {
        BlockModel { slot: self.slot, block_id: self.block_id, payload: self.payload.deep_view() }
    }
}

/// Static configuration of the execution core.
#[derive(Clone, Copy)]
pub struct ExecutionConfig {
    /// Number of threads of the block grid.
    pub thread_count: u8,
    /// Capacity of the read-only request queue.
    pub readonly_queue_length: usize,
    /// Largest amount of gas a read-only request may ask for.
    pub max_read_only_gas: u64,
}

/// What a read-only execution reads from the candidate ledger.
pub enum ReadOnlyTarget {
    /// Read the datastore entry `key` of `address`.
    DataEntry { address: u64, key: Vec<u8> },
    /// Read the sequential balance of `address`.
    SequentialBalance { address: u64 },
}

/// Mathematical model of a [`ReadOnlyTarget`].
pub enum TargetModel {
    DataEntry { address: u64, key: Seq<u8> },
    SequentialBalance { address: u64 },
}

impl DeepView for ReadOnlyTarget {
    type V = TargetModel;

    open spec fn deep_view(&self) -> TargetModel {
        match self {
            ReadOnlyTarget::DataEntry { address, key } => TargetModel::DataEntry {
                address: *address,
                key: key.deep_view(),
            },
            ReadOnlyTarget::SequentialBalance { address } => TargetModel::SequentialBalance {
                address: *address,
            },
        }
    }
}

/// An out-of-band execution request, run against a snapshot of the candidate
/// ledger and never committed.
pub struct ReadOnlyExecutionRequest {
    /// Gas allowance the caller asks for.
    pub max_gas: u64,
    /// What the execution reads.
    pub target: ReadOnlyTarget,
}

/// Mathematical model of a [`ReadOnlyExecutionRequest`].
pub struct RequestModel {
    pub max_gas: u64,
    pub target: TargetModel,
}

impl DeepView for ReadOnlyExecutionRequest {
    type V = RequestModel;

    open spec fn deep_view(&self) -> RequestModel {
        RequestModel { max_gas: self.max_gas, target: self.target.deep_view() }
    }
}

/// The outcome of a read-only execution.
#[derive(Debug)]
pub struct ExecutionOutput {
    /// The datastore entry read, when the target was a datastore entry.
    pub data_entry: Option<Vec<u8>>,
    /// The balance read, when the target was a balance.
    pub balance: Option<u64>,
}

/// Mathematical model of an [`ExecutionOutput`].
pub struct OutputModel {
    pub data_entry: Option<Seq<u8>>,
    pub balance: Option<u64>,
}

impl DeepView for ExecutionOutput {
    type V = OutputModel;

    open spec fn deep_view(&self) -> OutputModel {
        OutputModel { data_entry: self.data_entry.deep_view(), balance: self.balance }
    }
}

/// Errors surfaced by the execution core.
#[derive(Debug)]
pub enum ExecutionError {
    /// The read-only queue was full, or a reply channel failed.
    ChannelError(String),
    /// A read-only request was rejected by the executor.
    RuntimeError(String),
    /// The monotonic-finalization invariant was breached by the input;
    /// fatal, indicates a bug upstream of the core.
    ConsistencyError(String),
}

impl ExecutionError {
    /// A short label naming the error variant.
    pub fn kind(&self) -> (r: &'static str)
        ensures
            self is ChannelError ==> r@ == "channel"@,
            self is RuntimeError ==> r@ == "runtime"@,
            self is ConsistencyError ==> r@ == "consistency"@,
    {
        match self {
            ExecutionError::ChannelError(_) => "channel",
            ExecutionError::RuntimeError(_) => "runtime",
            ExecutionError::ConsistencyError(_) => "consistency",
        }
    }
}

/// An entry of the append-only output-event log.
pub struct SCOutputEvent {
    /// Slot of the block that emitted the event.
    pub slot: Slot,
    /// Address of the emitter.
    pub emitter_address: u64,
    /// Address at the root of the call stack that led to the emission.
    pub original_caller_address: u64,
    /// Operation that led to the emission.
    pub original_operation_id: u64,
    /// Free-form event data.
    pub data: Vec<u8>,
}

/// Mathematical model of an [`SCOutputEvent`].
pub struct EventModel {
    pub slot: Slot,
    pub emitter_address: u64,
    pub original_caller_address: u64,
    pub original_operation_id: u64,
    pub data: Seq<u8>,
}

impl DeepView for SCOutputEvent {
    type V = EventModel;

    open spec fn deep_view(&self) -> EventModel {
        EventModel {
            slot: self.slot,
            emitter_address: self.emitter_address,
            original_caller_address: self.original_caller_address,
            original_operation_id: self.original_operation_id,
            data: self.data.deep_view(),
        }
    }
}

/// An output-event query: every populated field must match.
#[derive(Clone, Copy)]
pub struct EventFilter {
    /// Earliest slot to keep, inclusive.
    pub start: Option<Slot>,
    /// Latest slot to keep, inclusive.
    pub end: Option<Slot>,
    /// Emitter address to keep.
    pub emitter_address: Option<u64>,
    /// Original caller address to keep.
    pub original_caller_address: Option<u64>,
    /// Original operation id to keep.
    pub original_operation_id: Option<u64>,
}

/// Execution statistics, maintained from the finalized and candidate chains.
#[derive(Clone, Copy, PartialEq, Eq, Structural, Debug)]
pub struct ExecutionStats {
    /// Number of finalized blocks applied so far.
    pub final_block_count: u64,
    /// Number of operations settled by finalized blocks, saturating at the
    /// largest 64-bit value.
    pub final_executed_operations_count: u64,
    /// Slot of the last finalized block applied, if any.
    pub final_cursor: Option<Slot>,
    /// Slot of the last block of the candidate chain, if any.
    pub active_cursor: Option<Slot>,
}

/// A byte string's element-wise model is the byte string itself.
pub broadcast proof fn lemma_bytes_deep_view(v: Vec<u8>)
    ensures
        #[trigger] v.deep_view() == v@,
{
    assert(v.deep_view() =~= v@);
}

/// Everything the core knows about one address, over both ledger views.
pub struct ExecutionAddressInfo {
    /// Datastore keys present in the final ledger.
    pub final_datastore_keys: Vec<Vec<u8>>,
    /// Datastore keys present in the candidate ledger.
    pub candidate_datastore_keys: Vec<Vec<u8>>,
    /// Final parallel balance; zero when the address is absent.
    pub final_parallel_balance: u64,
    /// Candidate parallel balance; zero when the address is absent.
    pub candidate_parallel_balance: u64,
    /// Final sequential balance; zero when the address is absent.
    pub final_sequential_balance: u64,
    /// Candidate sequential balance; zero when the address is absent.
    pub candidate_sequential_balance: u64,
    /// Final roll count; zero when the address is absent.
    pub final_roll_count: u64,
    /// Candidate roll count; zero when the address is absent.
    pub candidate_roll_count: u64,
    /// Future deferred credits of the address.
    pub future_deferred_credits: Vec<(Slot, u64)>,
    /// Per-cycle roll counts of the address, one entry per known cycle.
    pub cycle_infos: Vec<(u64, Option<u64>)>,
}

/// Mathematical model of an [`ExecutionAddressInfo`].
pub struct InfoModel {
    pub final_datastore_keys: Seq<Seq<u8>>,
    pub candidate_datastore_keys: Seq<Seq<u8>>,
    pub final_parallel_balance: u64,
    pub candidate_parallel_balance: u64,
    pub final_sequential_balance: u64,
    pub candidate_sequential_balance: u64,
    pub final_roll_count: u64,
    pub candidate_roll_count: u64,
    pub future_deferred_credits: Seq<(Slot, u64)>,
    pub cycle_infos: Seq<(u64, Option<u64>)>,
}

impl DeepView for ExecutionAddressInfo {
    type V = InfoModel;

    open spec fn deep_view(&self) -> InfoModel {
        InfoModel {
            final_datastore_keys: self.final_datastore_keys.deep_view(),
            candidate_datastore_keys: self.candidate_datastore_keys.deep_view(),
            final_parallel_balance: self.final_parallel_balance,
            candidate_parallel_balance: self.candidate_parallel_balance,
            final_sequential_balance: self.final_sequential_balance,
            candidate_sequential_balance: self.candidate_sequential_balance,
            final_roll_count: self.final_roll_count,
            candidate_roll_count: self.candidate_roll_count,
            future_deferred_credits: self.future_deferred_credits.deep_view(),
            cycle_infos: self.cycle_infos.deep_view(),
        }
    }
}

/// An id list's element-wise model is the list itself.
pub broadcast proof fn lemma_ids_deep_view(v: Vec<u64>)
    ensures
        #[trigger] v.deep_view() == v@,
{
    assert(v.deep_view() =~= v@);
}

/// A cycle-info list's element-wise model is the list itself.
pub broadcast proof fn lemma_cycle_infos_deep_view(v: Vec<(u64, Option<u64>)>)
    ensures
        #[trigger] v.deep_view() == v@,
{
    assert(v.deep_view() =~= v@);
}

/// A slot-amount list's element-wise model is the list itself.
pub broadcast proof fn lemma_slot_amounts_deep_view(v: Vec<(Slot, u64)>)
    ensures
        #[trigger] v.deep_view() == v@,
{
    assert(v.deep_view() =~= v@);
}

/// A roll-distribution list's element-wise model is the list itself.
pub broadcast proof fn lemma_roll_pairs_deep_view(v: Vec<(u64, u64)>)
    ensures
        #[trigger] v.deep_view() == v@,
{
    assert(v.deep_view() =~= v@);
}

/// Copies a byte string.
pub fn copy_bytes(v: &Vec<u8>) -> (r: Vec<u8>)
    ensures
        r@ == v@,
{
    let mut r: Vec<u8> = Vec::new();
    let mut i: usize = 0;
    while i < v.len()
        invariant
            i <= v.len(),
            r@ == v@.take(i as int),
        decreases v.len() - i,
    {
        r.push(v[i]);
        proof {
            assert(v@.take(i + 1 as int) =~= v@.take(i as int).push(v@[i as int]));
        }
        i = i + 1;
    }
    proof {
        assert(v@.take(v.len() as int) =~= v@);
    }
    r
}

/// True iff the two byte strings are equal.
pub fn bytes_eq(a: &Vec<u8>, b: &Vec<u8>) -> (r: bool)
    ensures
        r == (a@ == b@),
{
    if a.len() != b.len() {
        proof {
            assert(a@ != b@);
        }
        return false;
    }
    let mut i: usize = 0;
    while i < a.len()
        invariant
            i <= a.len(),
            a.len() == b.len(),
            forall|j: int| 0 <= j < i ==> a@[j] == b@[j],
        decreases a.len() - i,
    {
        if a[i] != b[i] {
            proof {
                assert(a@[i as int] != b@[i as int]);
            }
            return false;
        }
        i = i + 1;
    }
    proof {
        assert(a@ =~= b@);
    }
    true
}

} // verus!
