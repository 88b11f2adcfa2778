use execution_worker::execution::ExecutionState;
use execution_worker::input::ExecutionInputData;
use execution_worker::slot::Slot;
use execution_worker::slot_map::SlotMap;
use execution_worker::types::{
    BlockPayload, EventFilter, ExecutionConfig, ExecutionError, ReadOnlyExecutionRequest,
    ReadOnlyTarget, StateChange,
};

fn config() -> ExecutionConfig {
    ExecutionConfig { thread_count: 2, readonly_queue_length: 4, max_read_only_gas: 1_000 }
}

fn empty_payload() -> BlockPayload {
    BlockPayload { operations: vec![], changes: vec![] }
}

fn payload(operations: Vec<u64>, changes: Vec<StateChange>) -> BlockPayload {
    BlockPayload { operations, changes }
}

fn data_write(address: u64, key: &[u8], value: &[u8]) -> StateChange {
    StateChange::SetDataEntry { address, key: key.to_vec(), value: value.to_vec() }
}

fn data_request(address: u64, key: &[u8], max_gas: u64) -> ReadOnlyExecutionRequest {
    ReadOnlyExecutionRequest {
        max_gas,
        target: ReadOnlyTarget::DataEntry { address, key: key.to_vec() },
    }
}

fn no_filter() -> EventFilter {
    EventFilter {
        start: None,
        end: None,
        emitter_address: None,
        original_caller_address: None,
        original_operation_id: None,
    }
}

#[test]
fn fresh_state_answers_none_for_unknown_datastore_key() {
    let state = ExecutionState::new(config());
    let (fin, cand) = state.get_final_and_active_data_entry(7, &b"missing".to_vec());
    assert_eq!(fin, None);
    assert_eq!(cand, None);
}

#[test]
fn finalized_block_visible_in_both_ledgers() {
    let mut state = ExecutionState::new(config());
    let mut finalized = SlotMap::new();
    finalized.insert(
        Slot::new(1, 0),
        0xA,
        payload(vec![], vec![data_write(7, b"k", b"va")]),
    );
    let mut input = ExecutionInputData::new(config());
    input.update_blockclique_status(finalized, SlotMap::new());
    let batch = input.take();
    state.apply_input(batch).expect("admissible delta");
    let (fin, cand) = state.get_final_and_active_data_entry(7, &b"k".to_vec());
    assert_eq!(fin, Some(b"va".to_vec()));
    assert_eq!(cand, Some(b"va".to_vec()));
}

#[test]
fn finalized_wins_over_blockclique_at_same_slot() {
    let mut state = ExecutionState::new(config());
    let mut finalized = SlotMap::new();
    finalized.insert(
        Slot::new(1, 0),
        0xA,
        payload(vec![], vec![data_write(7, b"k", b"from-a")]),
    );
    let mut blockclique = SlotMap::new();
    blockclique.insert(
        Slot::new(1, 0),
        0xB,
        payload(vec![], vec![data_write(7, b"k", b"from-b")]),
    );
    let mut input = ExecutionInputData::new(config());
    input.update_blockclique_status(finalized, blockclique);
    let batch = input.take();
    state.apply_input(batch).expect("admissible delta");
    let (fin, cand) = state.get_final_and_active_data_entry(7, &b"k".to_vec());
    assert_eq!(fin, Some(b"from-a".to_vec()));
    assert_eq!(cand, Some(b"from-a".to_vec()));
    let stats = state.get_stats();
    assert_eq!(stats.final_block_count, 1);
    assert_eq!(stats.active_cursor, Some(Slot::new(1, 0)));
}

#[test]
fn blockclique_extends_candidate_but_not_final() {
    let mut state = ExecutionState::new(config());
    let mut blockclique = SlotMap::new();
    blockclique.insert(
        Slot::new(1, 0),
        0xB,
        payload(vec![], vec![data_write(7, b"k", b"spec")]),
    );
    let mut input = ExecutionInputData::new(config());
    input.update_blockclique_status(SlotMap::new(), blockclique);
    state.apply_input(input.take()).expect("empty delta");
    let (fin, cand) = state.get_final_and_active_data_entry(7, &b"k".to_vec());
    assert_eq!(fin, None);
    assert_eq!(cand, Some(b"spec".to_vec()));
}

#[test]
fn new_blockclique_fully_replaces_previous_one() {
    let mut state = ExecutionState::new(config());
    let mut first = SlotMap::new();
    first.insert(
        Slot::new(1, 1),
        0xB,
        payload(vec![], vec![data_write(9, b"old", b"gone")]),
    );
    let mut input = ExecutionInputData::new(config());
    input.update_blockclique_status(SlotMap::new(), first);
    state.apply_input(input.take()).expect("first blockclique");
    let mut second = SlotMap::new();
    second.insert(
        Slot::new(2, 1),
        0xC,
        payload(vec![], vec![data_write(9, b"new", b"here")]),
    );
    input.update_blockclique_status(SlotMap::new(), second);
    state.apply_input(input.take()).expect("second blockclique");
    let (_, old_entry) = state.get_final_and_active_data_entry(9, &b"old".to_vec());
    let (_, new_entry) = state.get_final_and_active_data_entry(9, &b"new".to_vec());
    assert_eq!(old_entry, None);
    assert_eq!(new_entry, Some(b"here".to_vec()));
}

#[test]
fn refinalizing_a_slot_is_a_consistency_error() {
    let mut state = ExecutionState::new(config());
    let mut input = ExecutionInputData::new(config());
    let mut finalized = SlotMap::new();
    finalized.insert(Slot::new(1, 0), 0xA, empty_payload());
    input.update_blockclique_status(finalized, SlotMap::new());
    state.apply_input(input.take()).expect("first finalization");
    let mut again = SlotMap::new();
    again.insert(Slot::new(1, 0), 0xD, empty_payload());
    input.update_blockclique_status(again, SlotMap::new());
    let err = state.apply_input(input.take()).unwrap_err();
    assert!(matches!(err, ExecutionError::ConsistencyError(_)));
    // the rejected batch left the state untouched
    assert_eq!(state.get_stats().final_block_count, 1);
}

#[test]
fn finalized_slots_accumulate_across_updates() {
    let mut state = ExecutionState::new(config());
    let mut input = ExecutionInputData::new(config());
    let mut first = SlotMap::new();
    first.insert(Slot::new(1, 0), 0xA, empty_payload());
    input.update_blockclique_status(first, SlotMap::new());
    state.apply_input(input.take()).expect("first");
    let mut second = SlotMap::new();
    second.insert(Slot::new(1, 1), 0xB, empty_payload());
    second.insert(Slot::new(2, 0), 0xC, empty_payload());
    input.update_blockclique_status(second, SlotMap::new());
    state.apply_input(input.take()).expect("second");
    let stats = state.get_stats();
    assert_eq!(stats.final_block_count, 3);
    assert_eq!(stats.final_cursor, Some(Slot::new(2, 0)));
}

#[test]
fn pending_delta_overwrites_only_unapplied_slots() {
    let mut input = ExecutionInputData::new(config());
    let mut first = SlotMap::new();
    first.insert(
        Slot::new(1, 0),
        0xA,
        payload(vec![], vec![data_write(7, b"k", b"first")]),
    );
    input.update_blockclique_status(first, SlotMap::new());
    let mut second = SlotMap::new();
    second.insert(
        Slot::new(1, 0),
        0xE,
        payload(vec![], vec![data_write(7, b"k", b"second")]),
    );
    input.update_blockclique_status(second, SlotMap::new());
    let mut state = ExecutionState::new(config());
    state.apply_input(input.take()).expect("one slot, still pending when overwritten");
    let (fin, _) = state.get_final_and_active_data_entry(7, &b"k".to_vec());
    assert_eq!(fin, Some(b"second".to_vec()));
}

#[test]
fn queue_capacity_one_rejects_second_request() {
    let config = ExecutionConfig { thread_count: 2, readonly_queue_length: 1, max_read_only_gas: 1_000 };
    let mut input = ExecutionInputData::new(config);
    let first = input.push_readonly_request(data_request(7, b"k", 10));
    let first_ticket = first.expect("first request fits");
    let second = input.push_readonly_request(data_request(7, b"k", 10));
    assert!(matches!(second, Err(ExecutionError::ChannelError(_))));
    // the accepted request is still answered
    let mut state = ExecutionState::new(config);
    let replies = state.apply_input(input.take()).expect("no delta");
    assert_eq!(replies.len(), 1);
    assert_eq!(replies[0].ticket, first_ticket);
    assert!(replies[0].result.is_ok());
}

#[test]
fn every_queued_request_gets_exactly_one_reply_in_order() {
    let mut input = ExecutionInputData::new(config());
    let t1 = input.push_readonly_request(data_request(7, b"a", 10)).unwrap();
    let t2 = input.push_readonly_request(data_request(7, b"b", 10)).unwrap();
    let t3 = input.push_readonly_request(data_request(7, b"c", 10)).unwrap();
    assert!(t1 != t2 && t2 != t3 && t1 != t3);
    let mut state = ExecutionState::new(config());
    let replies = state.apply_input(input.take()).expect("no delta");
    assert_eq!(replies.len(), 3);
    assert_eq!(replies[0].ticket, t1);
    assert_eq!(replies[1].ticket, t2);
    assert_eq!(replies[2].ticket, t3);
}

#[test]
fn requests_are_answered_even_when_stop_is_set() {
    let mut input = ExecutionInputData::new(config());
    let ticket = input.push_readonly_request(data_request(7, b"k", 10)).unwrap();
    input.stop = true;
    let batch = input.take();
    assert!(batch.stop);
    let mut state = ExecutionState::new(config());
    let replies = state.apply_input(batch).expect("no delta");
    assert_eq!(replies.len(), 1);
    assert_eq!(replies[0].ticket, ticket);
}

#[test]
fn readonly_request_reads_the_candidate_ledger() {
    let mut state = ExecutionState::new(config());
    let mut blockclique = SlotMap::new();
    blockclique.insert(
        Slot::new(1, 0),
        0xB,
        payload(vec![], vec![data_write(7, b"k", b"value")]),
    );
    let mut input = ExecutionInputData::new(config());
    input.update_blockclique_status(SlotMap::new(), blockclique);
    state.apply_input(input.take()).expect("blockclique");
    let out = state.execute_readonly_request(&data_request(7, b"k", 10)).expect("allowed");
    assert_eq!(out.data_entry, Some(b"value".to_vec()));
    assert_eq!(out.balance, None);
}

#[test]
fn readonly_request_over_gas_allowance_fails() {
    let state = ExecutionState::new(config());
    let err = state.execute_readonly_request(&data_request(7, b"k", 1_001)).unwrap_err();
    assert!(matches!(err, ExecutionError::RuntimeError(_)));
    assert_eq!(err.kind(), "runtime");
}

#[test]
fn take_resets_the_batch_and_keeps_capacity() {
    let mut input = ExecutionInputData::new(config());
    let mut finalized = SlotMap::new();
    finalized.insert(Slot::new(1, 0), 0xA, empty_payload());
    input.update_blockclique_status(finalized, SlotMap::new());
    input.stop = true;
    let batch = input.take();
    assert!(batch.stop);
    assert_eq!(batch.finalized_blocks.len(), 1);
    assert!(batch.new_blockclique.is_some());
    assert!(!input.stop);
    assert_eq!(input.finalized_blocks.len(), 0);
    assert!(input.new_blockclique.is_none());
    // the fresh batch still enforces the same queue capacity
    for _ in 0..4 {
        input.push_readonly_request(data_request(7, b"k", 10)).unwrap();
    }
    assert!(matches!(
        input.push_readonly_request(data_request(7, b"k", 10)),
        Err(ExecutionError::ChannelError(_))
    ));
}

#[test]
fn balances_track_final_and_candidate_separately() {
    let mut state = ExecutionState::new(config());
    let mut finalized = SlotMap::new();
    finalized.insert(
        Slot::new(1, 0),
        0xA,
        payload(
            vec![],
            vec![
                StateChange::SetSequentialBalance { address: 7, amount: 10 },
                StateChange::SetParallelBalance { address: 7, amount: 30 },
            ],
        ),
    );
    let mut blockclique = SlotMap::new();
    blockclique.insert(
        Slot::new(2, 0),
        0xB,
        payload(vec![], vec![StateChange::SetSequentialBalance { address: 7, amount: 20 }]),
    );
    let mut input = ExecutionInputData::new(config());
    input.update_blockclique_status(finalized, blockclique);
    state.apply_input(input.take()).expect("admissible");
    assert_eq!(state.get_final_and_candidate_sequential_balance(7), (Some(10), Some(20)));
    assert_eq!(state.get_final_and_candidate_parallel_balance(7), (Some(30), Some(30)));
    assert_eq!(state.get_final_and_candidate_sequential_balance(8), (None, None));
    let batch = state.get_final_and_candidate_sequential_balances(&vec![7, 8]);
    assert_eq!(batch, vec![(Some(10), Some(20)), (None, None)]);
}

#[test]
fn unexecuted_ops_keeps_only_unsettled_ids_on_the_thread() {
    let mut state = ExecutionState::new(config());
    let mut finalized = SlotMap::new();
    finalized.insert(Slot::new(1, 0), 0xA, payload(vec![1, 3], vec![]));
    finalized.insert(Slot::new(1, 1), 0xB, payload(vec![2], vec![]));
    let mut input = ExecutionInputData::new(config());
    input.update_blockclique_status(finalized, SlotMap::new());
    state.apply_input(input.take()).expect("admissible");
    assert_eq!(state.unexecuted_ops_among(&vec![1, 2, 3], 0), vec![2]);
    // settling the rest on thread zero empties the subset
    let mut more = SlotMap::new();
    more.insert(Slot::new(2, 0), 0xC, payload(vec![2], vec![]));
    input.update_blockclique_status(more, SlotMap::new());
    state.apply_input(input.take()).expect("admissible");
    assert_eq!(state.unexecuted_ops_among(&vec![1, 2, 3], 0), Vec::<u64>::new());
}

#[test]
fn event_filter_matches_populated_fields_only() {
    let mut state = ExecutionState::new(config());
    let emit = |emitter: u64, op: u64, data: &[u8]| StateChange::EmitEvent {
        emitter_address: emitter,
        original_caller_address: 50,
        original_operation_id: op,
        data: data.to_vec(),
    };
    let mut finalized = SlotMap::new();
    finalized.insert(Slot::new(1, 0), 0xA, payload(vec![], vec![emit(7, 100, b"one")]));
    finalized.insert(Slot::new(2, 0), 0xB, payload(vec![], vec![emit(8, 101, b"two")]));
    let mut input = ExecutionInputData::new(config());
    input.update_blockclique_status(finalized, SlotMap::new());
    state.apply_input(input.take()).expect("admissible");
    let all = state.get_filtered_sc_output_event(no_filter());
    assert_eq!(all.len(), 2);
    assert_eq!(all[0].data, b"one".to_vec());
    assert_eq!(all[1].data, b"two".to_vec());
    let mut by_emitter = no_filter();
    by_emitter.emitter_address = Some(8);
    let hits = state.get_filtered_sc_output_event(by_emitter);
    assert_eq!(hits.len(), 1);
    assert_eq!(hits[0].original_operation_id, 101);
    let mut by_range = no_filter();
    by_range.start = Some(Slot::new(2, 0));
    let late = state.get_filtered_sc_output_event(by_range);
    assert_eq!(late.len(), 1);
    assert_eq!(late[0].slot, Slot::new(2, 0));
}

#[test]
fn cycle_rolls_and_deferred_credits_read_latest_writes() {
    let mut state = ExecutionState::new(config());
    let mut finalized = SlotMap::new();
    finalized.insert(
        Slot::new(1, 0),
        0xA,
        payload(
            vec![],
            vec![
                StateChange::SetCycleRolls { cycle: 3, rolls: vec![(7, 5), (8, 2)] },
                StateChange::SetDeferredCredits {
                    address: 7,
                    credits: vec![(Slot::new(9, 0), 40)],
                },
            ],
        ),
    );
    let mut input = ExecutionInputData::new(config());
    input.update_blockclique_status(finalized, SlotMap::new());
    state.apply_input(input.take()).expect("admissible");
    assert_eq!(state.get_cycle_active_rolls(3), vec![(7, 5), (8, 2)]);
    assert_eq!(state.get_cycle_active_rolls(4), Vec::<(u64, u64)>::new());
    assert_eq!(state.get_address_future_deferred_credits(7), vec![(Slot::new(9, 0), 40)]);
    assert_eq!(state.get_address_future_deferred_credits(8), Vec::<(execution_worker::slot::Slot, u64)>::new());
}

#[test]
fn address_info_bundles_all_views() {
    let mut state = ExecutionState::new(config());
    let mut finalized = SlotMap::new();
    finalized.insert(
        Slot::new(1, 0),
        0xA,
        payload(
            vec![],
            vec![
                data_write(7, b"k1", b"v1"),
                StateChange::SetSequentialBalance { address: 7, amount: 11 },
                StateChange::SetRollCount { address: 7, count: 4 },
                StateChange::SetCycleRolls { cycle: 2, rolls: vec![(7, 4)] },
            ],
        ),
    );
    let mut blockclique = SlotMap::new();
    blockclique.insert(Slot::new(2, 0), 0xB, payload(vec![], vec![data_write(7, b"k2", b"v2")]));
    let mut input = ExecutionInputData::new(config());
    input.update_blockclique_status(finalized, blockclique);
    state.apply_input(input.take()).expect("admissible");
    let infos = state.get_addresses_infos(&vec![7]);
    assert_eq!(infos.len(), 1);
    let info = &infos[0];
    assert_eq!(info.final_datastore_keys, vec![b"k1".to_vec()]);
    assert_eq!(info.candidate_datastore_keys.len(), 2);
    assert!(info.candidate_datastore_keys.contains(&b"k1".to_vec()));
    assert!(info.candidate_datastore_keys.contains(&b"k2".to_vec()));
    assert_eq!(info.final_sequential_balance, 11);
    assert_eq!(info.candidate_sequential_balance, 11);
    assert_eq!(info.final_parallel_balance, 0);
    assert_eq!(info.final_roll_count, 4);
    assert_eq!(info.cycle_infos, vec![(2, Some(4))]);
    assert_eq!(state.get_final_and_candidate_rolls(7), (Some(4), Some(4)));
}

#[test]
fn stats_count_settled_operations() {
    let mut state = ExecutionState::new(config());
    let mut finalized = SlotMap::new();
    finalized.insert(Slot::new(1, 0), 0xA, payload(vec![1, 2, 3], vec![]));
    finalized.insert(Slot::new(1, 1), 0xB, payload(vec![4], vec![]));
    let mut input = ExecutionInputData::new(config());
    input.update_blockclique_status(finalized, SlotMap::new());
    state.apply_input(input.take()).expect("admissible");
    let stats = state.get_stats();
    assert_eq!(stats.final_block_count, 2);
    assert_eq!(stats.final_executed_operations_count, 4);
}
