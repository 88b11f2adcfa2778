//! Point queries against the dual ledger.
//!
//! Every query returns what the latest matching ledger change along the
//! chosen chain says: the finalized chain for final values, the candidate
//! chain for candidate values. Absence is a normal outcome and comes back
//! as `None` or an empty list, never as an error.
use vstd::prelude::*;
use crate::execution::ExecutionState;
use crate::lookup::{
    find_in_chain, key_matches, lemma_find_concat, lemma_find_matches, ChangeKey, KeyModel,
};
use crate::slot::Slot;
use crate::types::{
    copy_bytes, lemma_bytes_deep_view, lemma_roll_pairs_deep_view, lemma_slot_amounts_deep_view,
    BlockModel, ChangeModel, ExecutedBlock, ExecutionError, ExecutionOutput,
    ExecutionStats, ReadOnlyExecutionRequest, RequestModel, StateChange, TargetModel,
};
use vstd::string::StringExecFns;

verus! {

broadcast use lemma_bytes_deep_view, lemma_slot_amounts_deep_view, lemma_roll_pairs_deep_view;

/// The datastore entry `key` of `address` after the chain ran.
pub open spec fn data_entry_of(chain: Seq<BlockModel>, address: u64, key: Seq<u8>) -> Option<
    Seq<u8>,
> {
    match find_in_chain(chain, KeyModel::DataEntry { address, key }) {
        Some(c) => match c {
            ChangeModel::SetDataEntry { value, .. } => Some(value),
            _ => None,
        },
        None => None,
    }
}

/// The sequential balance of `address` after the chain ran.
pub open spec fn sequential_balance_of(chain: Seq<BlockModel>, address: u64) -> Option<u64> {
    match find_in_chain(chain, KeyModel::SequentialBalance { address }) {
        Some(c) => match c {
            ChangeModel::SetSequentialBalance { amount, .. } => Some(amount),
            _ => None,
        },
        None => None,
    }
}

/// The parallel balance of `address` after the chain ran.
pub open spec fn parallel_balance_of(chain: Seq<BlockModel>, address: u64) -> Option<u64> {
    match find_in_chain(chain, KeyModel::ParallelBalance { address }) {
        Some(c) => match c {
            ChangeModel::SetParallelBalance { amount, .. } => Some(amount),
            _ => None,
        },
        None => None,
    }
}

/// The roll count of `address` after the chain ran.
pub open spec fn rolls_of(chain: Seq<BlockModel>, address: u64) -> Option<u64> {
    match find_in_chain(chain, KeyModel::RollCount { address }) {
        Some(c) => match c {
            ChangeModel::SetRollCount { count, .. } => Some(count),
            _ => None,
        },
        None => None,
    }
}

/// The future deferred credits of `address` after the chain ran; an
/// address never written has none.
pub open spec fn deferred_credits_of(chain: Seq<BlockModel>, address: u64) -> Seq<(Slot, u64)> {
    match find_in_chain(chain, KeyModel::DeferredCredits { address }) {
        Some(c) => match c {
            ChangeModel::SetDeferredCredits { credits, .. } => credits,
            _ => Seq::empty(),
        },
        None => Seq::empty(),
    }
}

/// The active-roll distribution of `cycle` after the chain ran, if one was
/// ever supplied.
pub open spec fn cycle_rolls_of(chain: Seq<BlockModel>, cycle: u64) -> Option<Seq<(u64, u64)>> {
    match find_in_chain(chain, KeyModel::CycleRolls { cycle }) {
        Some(c) => match c {
            ChangeModel::SetCycleRolls { rolls, .. } => Some(rolls),
            _ => None,
        },
        None => None,
    }
}

/// The slot of the chain's most recently applied block.
pub open spec fn last_slot_of(chain: Seq<BlockModel>) -> Option<Slot> {
    if chain.len() == 0 {
        None
    } else {
        Some(chain.last().slot)
    }
}

/// Total number of operations settled along the chain.
pub open spec fn ops_count_of(chain: Seq<BlockModel>) -> int
    decreases chain.len(),
{
    if chain.len() == 0 {
        0
    } else {
        ops_count_of(chain.drop_last()) + chain.last().payload.operations.len()
    }
}

/// A read-only request the executor accepts.
pub open spec fn readonly_allowed(max_read_only_gas: u64, req: RequestModel) -> bool {
    req.max_gas <= max_read_only_gas
}

/// What a read-only execution replies for an accepted request.
pub open spec fn readonly_output_of(chain: Seq<BlockModel>, req: RequestModel) -> crate::types::OutputModel {
    match req.target {
        TargetModel::DataEntry { address, key } => crate::types::OutputModel {
            data_entry: data_entry_of(chain, address, key),
            balance: None,
        },
        TargetModel::SequentialBalance { address } => crate::types::OutputModel {
            data_entry: None,
            balance: sequential_balance_of(chain, address),
        },
    }
}

/// Some block on thread `thread` along the chain settled operation `op`.
pub open spec fn op_executed(chain: Seq<BlockModel>, op: u64, thread: u8) -> bool {
    exists|i: int|
        0 <= i < chain.len() && (#[trigger] chain[i]).slot.thread == thread
            && chain[i].payload.operations.contains(op)
}

/// An operation is settled along a concatenation iff it is settled along
/// one of the parts.
pub proof fn lemma_op_executed_concat(a: Seq<BlockModel>, b: Seq<BlockModel>, op: u64, thread: u8)
    ensures
        op_executed(a + b, op, thread) <==> (op_executed(a, op, thread) || op_executed(
            b,
            op,
            thread,
        )),
{
    if op_executed(a + b, op, thread) {
        let i = choose|i: int|
            0 <= i < (a + b).len() && (#[trigger] (a + b)[i]).slot.thread == thread && (a
                + b)[i].payload.operations.contains(op);
        if i < a.len() {
            assert(a[i] == (a + b)[i]);
        } else {
            assert(b[i - a.len()] == (a + b)[i]);
        }
    }
    if op_executed(a, op, thread) {
        let i = choose|i: int|
            0 <= i < a.len() && (#[trigger] a[i]).slot.thread == thread
                && a[i].payload.operations.contains(op);
        assert((a + b)[i] == a[i]);
    }
    if op_executed(b, op, thread) {
        let i = choose|i: int|
            0 <= i < b.len() && (#[trigger] b[i]).slot.thread == thread
                && b[i].payload.operations.contains(op);
        assert((a + b)[a.len() + i] == b[i]);
    }
}

/// The subset of `ops` not settled by any block on `thread`, in order.
pub open spec fn unexecuted_among(chain: Seq<BlockModel>, ops: Seq<u64>, thread: u8) -> Seq<u64> {
    ops.filter(|op: u64| !op_executed(chain, op, thread))
}

/// True iff the id list contains `op`.
fn ops_list_contains(ops: &Vec<u64>, op: u64) -> (r: bool)
    ensures
        r == ops.deep_view().contains(op),
{
    let mut i: usize = 0;
    while i < ops.len()
        invariant
            i <= ops@.len(),
            forall|k: int| 0 <= k < i ==> ops@[k] != op,
        decreases ops@.len() - i,
    {
        if ops[i] == op {
            proof {
                crate::types::lemma_ids_deep_view(*ops);
                assert(ops.deep_view()[i as int] == op);
            }
            return true;
        }
        i = i + 1;
    }
    proof {
        crate::types::lemma_ids_deep_view(*ops);
        if ops.deep_view().contains(op) {
            let k = choose|k: int| 0 <= k < ops@.len() && ops@[k] == op;
        }
    }
    false
}

/// True iff some block on `thread` among the given blocks settled `op`.
fn op_executed_in(blocks: &Vec<ExecutedBlock>, op: u64, thread: u8) -> (r: bool)
    ensures
        r == op_executed(blocks.deep_view(), op, thread),
{
    let ghost chain = blocks.deep_view();
    let mut i: usize = 0;
    while i < blocks.len()
        invariant
            chain == blocks.deep_view(),
            blocks@.len() == chain.len(),
            i <= chain.len(),
            forall|k: int|
                0 <= k < i ==> !((#[trigger] chain[k]).slot.thread == thread
                    && chain[k].payload.operations.contains(op)),
        decreases chain.len() - i,
    {
        let b = &blocks[i];
        proof {
            assert(chain[i as int] == blocks@[i as int].deep_view());
        }
        if b.slot.thread == thread {
            if ops_list_contains(&b.payload.operations, op) {
                proof {
                    assert(chain[i as int].slot.thread == thread);
                    assert(chain[i as int].payload.operations.contains(op));
                }
                return true;
            }
        }
        i = i + 1;
    }
    false
}

impl ExecutionState {
    /// The subset of the given operation ids not yet settled by any block,
    /// final or candidate, on the given thread, in input order.
    pub fn unexecuted_ops_among(&self, ops: &Vec<u64>, thread: u8) -> (r: Vec<u64>)
        ensures
            r@ =~= unexecuted_among(self.candidate_chain(), ops@, thread),
    {
        let ghost pred = |op: u64| !op_executed(self.candidate_chain(), op, thread);
        let mut r: Vec<u64> = Vec::new();
        let mut i: usize = 0;
        proof {
            assert(ops@.take(0) =~= Seq::<u64>::empty());
            assert(Seq::<u64>::empty().filter(pred) =~= Seq::<u64>::empty());
            assert(r@ =~= ops@.take(0).filter(pred));
        }
        while i < ops.len()
            invariant
                i <= ops@.len(),
                pred == (|op: u64| !op_executed(self.candidate_chain(), op, thread)),
                r@ =~= ops@.take(i as int).filter(pred),
            decreases ops@.len() - i,
        {
            let op = ops[i];
            let in_final = op_executed_in(&self.final_blocks, op, thread);
            let in_suffix = op_executed_in(&self.candidate_suffix, op, thread);
            let executed = in_final || in_suffix;
            proof {
                lemma_op_executed_concat(self.finalized(), self.suffix(), op, thread);
                assert(executed == op_executed(self.candidate_chain(), op, thread));
                assert(ops@.take(i as int + 1) =~= ops@.take(i as int) + seq![op]);
                Seq::<u64>::filter_distributes_over_add(ops@.take(i as int), seq![op], pred);
                crate::execution::lemma_filter_singleton(op, pred);
            }
            if !executed {
                r.push(op);
            }
            i = i + 1;
        }
        proof {
            assert(ops@.take(ops@.len() as int) =~= ops@);
        }
        r
    }

    /// The latest change along the finalized chain (or, when `candidate`
    /// is set, the candidate chain) that the key asks for.
    pub(crate) fn lookup_latest(&self, k: &ChangeKey, candidate: bool) -> (r: Option<&StateChange>)
        ensures
            ({
                let chain = if candidate {
                    self.candidate_chain()
                } else {
                    self.finalized()
                };
                match r {
                    Some(c) => find_in_chain(chain, k.deep_view()) == Some(c.deep_view())
                        && key_matches(k.deep_view(), c.deep_view()),
                    None => find_in_chain(chain, k.deep_view()) is None,
                }
            }),
    {
        proof {
            lemma_find_concat(self.finalized(), self.suffix(), k.deep_view());
            lemma_find_matches(self.candidate_chain(), k.deep_view());
            lemma_find_matches(self.finalized(), k.deep_view());
        }
        if candidate {
            let r = crate::lookup::find_in_blocks(&self.candidate_suffix, k);
            match r {
                Some(c) => {
                    return Some(c);
                },
                None => {},
            }
        }
        crate::lookup::find_in_blocks(&self.final_blocks, k)
    }

    /// The final and candidate values of the datastore entry `key` of
    /// `address`; `(None, None)` when nothing was ever stored there.
    pub fn get_final_and_active_data_entry(&self, address: u64, key: &Vec<u8>) -> (r: (
        Option<Vec<u8>>,
        Option<Vec<u8>>,
    ))
        ensures
            r.0.deep_view() == data_entry_of(self.finalized(), address, key@),
            r.1.deep_view() == data_entry_of(self.candidate_chain(), address, key@),
    {
        let k = ChangeKey::DataEntry { address, key: copy_bytes(key) };
        let fin = match self.lookup_latest(&k, false) {
            Some(StateChange::SetDataEntry { value, .. }) => Some(copy_bytes(value)),
            _ => None,
        };
        let cand = match self.lookup_latest(&k, true) {
            Some(StateChange::SetDataEntry { value, .. }) => Some(copy_bytes(value)),
            _ => None,
        };
        (fin, cand)
    }

    /// The final and candidate values of the datastore entries asked for,
    /// in order.
    pub fn get_final_and_active_data_entries(&self, input: &Vec<(u64, Vec<u8>)>) -> (r: Vec<
        (Option<Vec<u8>>, Option<Vec<u8>>),
    >)
        ensures
            r@.len() == input@.len(),
            forall|i: int|
                0 <= i < input@.len() ==> {
                    &&& (#[trigger] r@[i]).0.deep_view() == data_entry_of(
                        self.finalized(),
                        input@[i].0,
                        input@[i].1@,
                    )
                    &&& r@[i].1.deep_view() == data_entry_of(
                        self.candidate_chain(),
                        input@[i].0,
                        input@[i].1@,
                    )
                },
    {
        let mut r: Vec<(Option<Vec<u8>>, Option<Vec<u8>>)> = Vec::new();
        let mut i: usize = 0;
        while i < input.len()
            invariant
                i <= input@.len(),
                r@.len() == i,
                forall|j: int|
                    0 <= j < i ==> {
                        &&& (#[trigger] r@[j]).0.deep_view() == data_entry_of(
                            self.finalized(),
                            input@[j].0,
                            input@[j].1@,
                        )
                        &&& r@[j].1.deep_view() == data_entry_of(
                            self.candidate_chain(),
                            input@[j].0,
                            input@[j].1@,
                        )
                    },
            decreases input@.len() - i,
        {
            let (address, key) = &input[i];
            r.push(self.get_final_and_active_data_entry(*address, key));
            i = i + 1;
        }
        r
    }

    /// The final and candidate sequential balances of `address`.
    pub fn get_final_and_candidate_sequential_balance(&self, address: u64) -> (r: (
        Option<u64>,
        Option<u64>,
    ))
        ensures
            r.0 == sequential_balance_of(self.finalized(), address),
            r.1 == sequential_balance_of(self.candidate_chain(), address),
    {
        let k = ChangeKey::SequentialBalance { address };
        let fin = match self.lookup_latest(&k, false) {
            Some(StateChange::SetSequentialBalance { amount, .. }) => Some(*amount),
            _ => None,
        };
        let cand = match self.lookup_latest(&k, true) {
            Some(StateChange::SetSequentialBalance { amount, .. }) => Some(*amount),
            _ => None,
        };
        (fin, cand)
    }

    /// The final and candidate sequential balances of each address asked
    /// for, in order.
    pub fn get_final_and_candidate_sequential_balances(&self, addresses: &Vec<u64>) -> (r: Vec<
        (Option<u64>, Option<u64>),
    >)
        ensures
            r@.len() == addresses@.len(),
            forall|i: int|
                0 <= i < addresses@.len() ==> #[trigger] r@[i] == (
                    sequential_balance_of(self.finalized(), addresses@[i]),
                    sequential_balance_of(self.candidate_chain(), addresses@[i]),
                ),
    {
        let mut r: Vec<(Option<u64>, Option<u64>)> = Vec::new();
        let mut i: usize = 0;
        while i < addresses.len()
            invariant
                i <= addresses@.len(),
                r@.len() == i,
                forall|j: int|
                    0 <= j < i ==> #[trigger] r@[j] == (
                        sequential_balance_of(self.finalized(), addresses@[j]),
                        sequential_balance_of(self.candidate_chain(), addresses@[j]),
                    ),
            decreases addresses@.len() - i,
        {
            r.push(self.get_final_and_candidate_sequential_balance(addresses[i]));
            i = i + 1;
        }
        r
    }

    /// The final and candidate parallel balances of `address`.
    pub fn get_final_and_candidate_parallel_balance(&self, address: u64) -> (r: (
        Option<u64>,
        Option<u64>,
    ))
        ensures
            r.0 == parallel_balance_of(self.finalized(), address),
            r.1 == parallel_balance_of(self.candidate_chain(), address),
    {
        let k = ChangeKey::ParallelBalance { address };
        let fin = match self.lookup_latest(&k, false) {
            Some(StateChange::SetParallelBalance { amount, .. }) => Some(*amount),
            _ => None,
        };
        let cand = match self.lookup_latest(&k, true) {
            Some(StateChange::SetParallelBalance { amount, .. }) => Some(*amount),
            _ => None,
        };
        (fin, cand)
    }

    /// The final and candidate roll counts of `address`.
    pub fn get_final_and_candidate_rolls(&self, address: u64) -> (r: (Option<u64>, Option<u64>))
        ensures
            r.0 == rolls_of(self.finalized(), address),
            r.1 == rolls_of(self.candidate_chain(), address),
    {
        let k = ChangeKey::RollCount { address };
        let fin = match self.lookup_latest(&k, false) {
            Some(StateChange::SetRollCount { count, .. }) => Some(*count),
            _ => None,
        };
        let cand = match self.lookup_latest(&k, true) {
            Some(StateChange::SetRollCount { count, .. }) => Some(*count),
            _ => None,
        };
        (fin, cand)
    }

    /// The future deferred credits of `address`, as last set along the
    /// candidate chain; empty when never set.
    pub fn get_address_future_deferred_credits(&self, address: u64) -> (r: Vec<(Slot, u64)>)
        ensures
            r@ == deferred_credits_of(self.candidate_chain(), address),
    {
        let k = ChangeKey::DeferredCredits { address };
        match self.lookup_latest(&k, true) {
            Some(StateChange::SetDeferredCredits { credits, .. }) => {
                let mut out: Vec<(Slot, u64)> = Vec::new();
                let mut i: usize = 0;
                while i < credits.len()
                    invariant
                        i <= credits@.len(),
                        out@ =~= credits@.take(i as int),
                    decreases credits@.len() - i,
                {
                    out.push(credits[i]);
                    proof {
                        assert(credits@.take(i + 1 as int) =~= credits@.take(i as int).push(
                            credits@[i as int],
                        ));
                    }
                    i = i + 1;
                }
                proof {
                    assert(credits@.take(credits@.len() as int) =~= credits@);
                }
                out
            },
            _ => Vec::new(),
        }
    }

    /// The active-roll distribution of `cycle`, as last supplied along the
    /// candidate chain; empty when never supplied.
    pub fn get_cycle_active_rolls(&self, cycle: u64) -> (r: Vec<(u64, u64)>)
        ensures
            r@ == (match cycle_rolls_of(self.candidate_chain(), cycle) {
                Some(rolls) => rolls,
                None => Seq::<(u64, u64)>::empty(),
            }),
    {
        let k = ChangeKey::CycleRolls { cycle };
        match self.lookup_latest(&k, true) {
            Some(StateChange::SetCycleRolls { rolls, .. }) => {
                let mut out: Vec<(u64, u64)> = Vec::new();
                let mut i: usize = 0;
                while i < rolls.len()
                    invariant
                        i <= rolls@.len(),
                        out@ =~= rolls@.take(i as int),
                    decreases rolls@.len() - i,
                {
                    out.push(rolls[i]);
                    proof {
                        assert(rolls@.take(i + 1 as int) =~= rolls@.take(i as int).push(
                            rolls@[i as int],
                        ));
                    }
                    i = i + 1;
                }
                proof {
                    assert(rolls@.take(rolls@.len() as int) =~= rolls@);
                }
                out
            },
            _ => Vec::new(),
        }
    }

    /// Execution statistics over the current chains.
    pub fn get_stats(&self) -> (r: ExecutionStats)
        ensures
            r.final_block_count == self.finalized().len(),
            ops_count_of(self.finalized()) <= u64::MAX ==> r.final_executed_operations_count
                == ops_count_of(self.finalized()),
            ops_count_of(self.finalized()) > u64::MAX ==> r.final_executed_operations_count
                == u64::MAX,
            r.final_cursor == last_slot_of(self.finalized()),
            r.active_cursor == last_slot_of(self.candidate_chain()),
    {
        let ghost fin = self.finalized();
        let mut ops: u64 = 0;
        let mut i: usize = 0;
        while i < self.final_blocks.len()
            invariant
                fin == self.finalized(),
                self.final_blocks@.len() == fin.len(),
                i <= fin.len(),
                ops_count_of(fin.take(i as int)) <= u64::MAX ==> ops == ops_count_of(
                    fin.take(i as int),
                ),
                ops_count_of(fin.take(i as int)) > u64::MAX ==> ops == u64::MAX,
                ops_count_of(fin.take(i as int)) >= ops,
            decreases fin.len() - i,
        {
            let n = self.final_blocks[i].payload.operations.len();
            proof {
                assert(fin.take(i + 1 as int).drop_last() =~= fin.take(i as int));
                assert(fin.take(i + 1 as int).last() == fin[i as int]);
                assert(fin[i as int].payload.operations.len() == self.final_blocks@[i as int].payload.operations.deep_view().len());
                assert(self.final_blocks@[i as int].payload.operations.deep_view().len()
                    == self.final_blocks@[i as int].payload.operations@.len());
            }
            if n as u64 <= u64::MAX - ops {
                ops = ops + n as u64;
            } else {
                ops = u64::MAX;
            }
            i = i + 1;
        }
        proof {
            assert(fin.take(fin.len() as int) =~= fin);
        }
        let final_cursor = if self.final_blocks.len() == 0 {
            None
        } else {
            Some(self.final_blocks[self.final_blocks.len() - 1].slot)
        };
        let active_cursor = if self.candidate_suffix.len() > 0 {
            Some(self.candidate_suffix[self.candidate_suffix.len() - 1].slot)
        } else {
            final_cursor
        };
        proof {
            if self.suffix().len() > 0 {
                assert(self.candidate_chain().last() == self.suffix().last());
            } else {
                assert(self.candidate_chain() =~= self.finalized());
            }
        }
        ExecutionStats {
            final_block_count: self.final_blocks.len() as u64,
            final_executed_operations_count: ops,
            final_cursor,
            active_cursor,
        }
    }

    /// Runs a read-only request against a snapshot of the candidate chain.
    ///
    /// A request asking for more gas than the configured allowance is
    /// rejected; any other request is answered from the candidate ledger.
    /// Nothing is ever committed.
    pub fn execute_readonly_request(&self, req: &ReadOnlyExecutionRequest) -> (r: Result<
        ExecutionOutput,
        ExecutionError,
    >)
        ensures
            readonly_allowed(self.config.max_read_only_gas, req.deep_view()) <==> r is Ok,
            r is Ok ==> r->Ok_0.deep_view() == readonly_output_of(
                self.candidate_chain(),
                req.deep_view(),
            ),
            r is Err ==> r->Err_0 is RuntimeError,
    {
        if req.max_gas > self.config.max_read_only_gas {
            return Err(
                ExecutionError::RuntimeError(
                    String::from_str("readonly execution exceeds the gas allowance"),
                ),
            );
        }
        match &req.target {
            crate::types::ReadOnlyTarget::DataEntry { address, key } => {
                let (_, cand) = self.get_final_and_active_data_entry(*address, key);
                Ok(ExecutionOutput { data_entry: cand, balance: None })
            },
            crate::types::ReadOnlyTarget::SequentialBalance { address } => {
                let (_, cand) = self.get_final_and_candidate_sequential_balance(*address);
                Ok(ExecutionOutput { data_entry: None, balance: cand })
            },
        }
    }
}

} // verus!
