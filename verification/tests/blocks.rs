use debank_trace_block::arena::{CallTrace, CallTraceArena, CallTraceNode};
use debank_trace_block::assemble::{add_transaction, add_transactions, BlockFile, TransactionTraces};
use debank_trace_block::block::{
    debank_block, debank_header, BlockHeaderInfo, BlockId, BlockInfo, BlockNumberOrTag,
};
use debank_trace_block::error::TraceError;
use debank_trace_block::event::DebankEvent;
use debank_trace_block::native::NativeStorageWrites;
use debank_trace_block::primitives::{Address, B256, U256};
use debank_trace_block::session::{
    open_block, state_diff_digest, AwaitReceipts, OpenedBlock, Replay, StateDiffOutcome,
    StateDiffSummary,
};
use debank_trace_block::trace::DebankTrace;
use debank_trace_block::trace_block::{
    debank_inspector_settings, destroyed_addresses, ChangedAccount, DebankTraceBlock, SSTORE,
};
use debank_trace_block::transaction::{ReceiptInfo, TransactionInfo};

fn hash(byte: u8) -> B256 {
    B256([byte; 32])
}

/// The block that the requests name.
const REQUESTED: BlockId = BlockId::Number(BlockNumberOrTag::Latest);

/// Whether the requested block is what is reported as missing.
fn names_the_request(error: TraceError) -> bool {
    match error {
        TraceError::HeaderNotFound { block_id } => {
            matches!(block_id, BlockId::Number(BlockNumberOrTag::Latest))
        }
        _ => false,
    }
}

fn header(number: u64) -> BlockHeaderInfo {
    BlockHeaderInfo {
        hash: hash(1),
        number,
        parent_hash: hash(2),
        ommers_hash: hash(3),
        beneficiary: Address([4; 20]),
        state_root: hash(5),
        transactions_root: hash(6),
        receipts_root: hash(7),
        logs_bloom: vec![8; 256],
        difficulty: U256([9; 32]),
        gas_limit: 10,
        gas_used: 11,
        timestamp: 12,
        extra_data: vec![13],
        mix_hash: None,
        nonce: None,
        base_fee_per_gas: Some(14),
        withdrawals_root: None,
        blob_gas_used: Some(15),
        excess_blob_gas: None,
        parent_beacon_block_root: Some(hash(16)),
        requests_hash: None,
        block_access_list_hash: None,
        slot_number: Some(17),
    }
}

fn transaction(byte: u8) -> TransactionInfo {
    TransactionInfo {
        hash: hash(byte),
        gas_limit: 0,
        max_fee_per_gas: 0,
        max_priority_fee_per_gas: None,
        input: vec![],
        nonce: 0,
        value: U256::zero(),
        aa: None,
    }
}

fn receipt(byte: u8, status: bool) -> ReceiptInfo {
    ReceiptInfo {
        transaction_hash: hash(byte),
        transaction_index: None,
        from: Address::zero(),
        to: None,
        contract_address: None,
        effective_gas_price: 0,
        gas_used: 100 + byte as u64,
        status,
    }
}

fn trace(id: &str, trace_address: Vec<usize>) -> DebankTrace<u8> {
    DebankTrace {
        id: id.to_string(),
        trace_address,
        subtraces: 0,
        self_storage_change: false,
        storage_change: false,
        body: 0,
    }
}

fn event(selector: &str, idx: usize) -> DebankEvent {
    DebankEvent {
        selector: selector.to_string(),
        idx,
        ..Default::default()
    }
}

fn opened(number: u64, statuses: &[bool]) -> AwaitReceipts {
    let transactions = (0..statuses.len()).map(|i| transaction(i as u8)).collect();
    let info = BlockInfo { header: header(number), transactions };
    match open_block(REQUESTED, Some(info), 18).unwrap() {
        OpenedBlock::Regular(stage) => stage,
        OpenedBlock::Genesis(_) => panic!("not the first block"),
    }
}

fn replay(statuses: &[bool]) -> Replay<u8> {
    let receipts = statuses
        .iter()
        .enumerate()
        .map(|(i, status)| receipt(i as u8, *status))
        .collect();
    opened(1, statuses)
        .receive_receipts(Some(receipts))
        .unwrap()
        .receive_parent(Some(hash(0x99)))
        .unwrap()
}

fn ids(traces: &[DebankTrace<u8>]) -> Vec<&str> {
    traces.iter().map(|trace| trace.id.as_str()).collect()
}

fn numbered(events: &[DebankEvent]) -> Vec<(&str, usize)> {
    events.iter().map(|event| (event.selector.as_str(), event.idx)).collect()
}

fn debank_id(event: &DebankEvent) -> String {
    format!("{}/{}", event.parent_trace_id, event.pos_in_parent_trace)
}

#[test]
fn the_block_is_described_by_its_header() {
    let block = debank_block(&header(3), 18);
    assert_eq!(block.id, hash(1));
    assert_eq!(block.height, 3);
    assert_eq!(block.parent_id, hash(2));
    assert_eq!(block.base_fee_per_gas, Some(14));
    assert_eq!(block.miner, Address([4; 20]));
    assert_eq!((block.gas_limit, block.gas_used, block.timestamp), (10, 11, 12));
    assert_eq!(block.process_start_timestamp, 18);
}

#[test]
fn absent_header_fields_are_zero_or_left_out() {
    let out = debank_header(header(3));
    assert_eq!(out.mix_hash, B256::zero());
    assert_eq!(out.nonce, [0; 8]);
    assert!(out.total_difficulty.is_none());
    assert!(out.size.is_none());
    assert_eq!(out.logs_bloom, vec![8; 256]);
    assert_eq!(out.parent_beacon_block_root, Some(hash(16)));
    assert_eq!(out.slot_number, Some(17));

    let mut with_both = header(3);
    with_both.mix_hash = Some(hash(20));
    with_both.nonce = Some([21; 8]);
    let out = debank_header(with_both);
    assert_eq!(out.mix_hash, hash(20));
    assert_eq!(out.nonce, [21; 8]);
}

#[test]
fn an_unknown_block_is_not_traced() {
    assert!(names_the_request(open_block(REQUESTED, None, 0).unwrap_err()));
    let by_hash = BlockId::Hash { block_hash: hash(9), require_canonical: Some(true) };
    match open_block(by_hash, None, 0) {
        Err(TraceError::HeaderNotFound {
            block_id: BlockId::Hash { block_hash, require_canonical },
        }) => assert_eq!((block_hash, require_canonical), (hash(9), Some(true))),
        _ => panic!("the block is unknown"),
    }
}

#[test]
fn the_first_block_comes_from_the_chain_specification() {
    let info = BlockInfo { header: header(0), transactions: vec![transaction(1)] };
    let genesis = match open_block(REQUESTED, Some(info), 18).unwrap() {
        OpenedBlock::Genesis(genesis) => genesis,
        OpenedBlock::Regular(_) => panic!("the first block"),
    };

    let out = genesis.finish(vec![], vec![trace("root", vec![])], vec![Address([6; 20])]);

    assert_eq!(out.block_file.block.height, 0);
    assert_eq!(ids(&out.block_file.traces), vec!["root"]);
    assert_eq!(out.block_file.storage_contracts, vec![Address([6; 20])]);
    assert!(out.block_file.transactions.is_empty());
    assert!(out.block_file.events.is_empty());
    assert!(out.block_file.error_traces.is_empty());
    assert!(out.block_file.error_events.is_empty());
    assert_eq!(out.state_diff_hash, hash(5));
    assert_eq!(out.state_diff_parent_hash, None);
    assert_eq!(out.header.hash, hash(1));
}

#[test]
fn every_transaction_needs_a_receipt() {
    assert!(names_the_request(
        opened(1, &[true]).receive_receipts(None).unwrap_err()
    ));
    assert!(matches!(
        opened(7, &[true, true]).receive_receipts(Some(vec![receipt(0, true)])),
        Err(TraceError::ReceiptCountMismatch { block: 7, receipts: 1, transactions: 2 })
    ));
}

#[test]
fn the_parent_has_to_be_known() {
    let stage = opened(1, &[]).receive_receipts(Some(vec![])).unwrap();
    assert!(names_the_request(
        stage.receive_parent::<u8>(None).unwrap_err()
    ));
}

#[test]
fn lookups_are_of_the_opened_block_and_its_parent() {
    let stage = opened(1, &[true]);
    assert_eq!(stage.block_hash(), hash(1));
    let stage = stage.receive_receipts(Some(vec![receipt(0, true)])).unwrap();
    assert_eq!(stage.parent_hash(), hash(2));
    assert_eq!(stage.tx_gas_used, vec![100]);
    let stage = stage.receive_parent::<u8>(Some(hash(0x99))).unwrap();
    assert_eq!(stage.parent_hash(), hash(2));
    assert_eq!(stage.block_hash(), hash(1));
    assert_eq!(stage.next_transaction(), Some(0));
}

#[test]
fn a_block_without_transactions_is_replayed_too() {
    let stage = replay(&[]);
    assert_eq!(stage.next_transaction(), None);
    let out = stage
        .finish_with_root(11, hash(7))
        .unwrap()
        .receive_state_diff(StateDiffOutcome::Equal, vec![])
        .unwrap();
    assert!(out.block_file.traces.is_empty());
    assert_eq!(out.state_diff_hash, hash(5));
    assert_eq!(out.state_diff_parent_hash, Some(hash(0x99)));
}

fn blank_node(parent: Option<usize>, address: Address) -> CallTraceNode {
    CallTraceNode {
        parent,
        trace: CallTrace {
            depth: if parent.is_some() { 1 } else { 0 },
            success: false,
            address,
            data: vec![],
            value: U256::zero(),
            status: None,
        },
    }
}

#[test]
fn native_frames_are_aligned_with_the_current_transaction() {
    let stage = replay(&[true]);
    let called = Address([0x22; 20]);
    let mut arena = CallTraceArena {
        nodes: vec![blank_node(None, Address::zero()), blank_node(Some(0), called)],
    };
    let writes = NativeStorageWrites { own: true, any: true };

    let aligned = stage.align(&mut arena, vec![(called, writes)]).unwrap();
    assert_eq!(aligned.len(), 2);
    assert_eq!(aligned[1], (called, writes));
    assert!(arena.nodes[0].trace.success);

    match stage.align(&mut arena, vec![]) {
        Err(TraceError::NativeInspectorMismatch { transaction, trace_nodes, native_frames }) => {
            assert_eq!((transaction, trace_nodes, native_frames), (hash(0), 2, 0));
        }
        _ => panic!("no frame stands for the call"),
    }
}

#[test]
fn a_transaction_without_a_replayed_receipt_stops_tracing() {
    let mut stage = replay(&[true]);
    let nothing = TransactionTraces {
        traces: vec![],
        error_traces: vec![],
        events: vec![],
        error_events: vec![],
    };
    match stage.record(nothing, None, debank_id) {
        Err(TraceError::MissingReplayedReceipt { transaction }) => assert_eq!(transaction, hash(0)),
        _ => panic!("the receipt is missing"),
    }
    assert_eq!(stage.next_transaction(), Some(0));
}

#[test]
fn a_block_is_traced_from_start_to_end() {
    let mut stage = replay(&[false, true, true]);

    // The first transaction fails. Its receipt holds the fee log of the handler alone.
    stage
        .record(
            TransactionTraces {
                traces: vec![trace("0-inner", vec![0])],
                error_traces: vec![trace("0-root", vec![])],
                events: vec![],
                error_events: vec![event("reverted", 0)],
            },
            Some(vec![event("fee", 0)]),
            debank_id,
        )
        .unwrap();
    assert_eq!(stage.next_transaction(), Some(1));
    // The second one succeeds, with a failed inner call.
    stage
        .record(
            TransactionTraces {
                traces: vec![trace("1-root", vec![])],
                error_traces: vec![trace("1-inner", vec![0])],
                events: vec![event("kept", 1)],
                error_events: vec![event("dropped", 0)],
            },
            Some(vec![event("kept", 0), event("fee", 0)]),
            debank_id,
        )
        .unwrap();
    // The third one succeeds under a root that counts as failed.
    stage
        .record(
            TransactionTraces {
                traces: vec![],
                error_traces: vec![trace("2-root", vec![]), trace("2-inner", vec![0])],
                events: vec![],
                error_events: vec![event("kept", 0), event("dropped", 1)],
            },
            Some(vec![event("kept", 0)]),
            debank_id,
        )
        .unwrap();
    assert_eq!(stage.next_transaction(), None);
    assert_eq!(stage.next_event_index, 4);

    let out = stage
        .finish_with_root(11, hash(7))
        .unwrap()
        .receive_state_diff(StateDiffOutcome::Equal, vec![Address([3; 20])])
        .unwrap();

    let file = &out.block_file;
    assert_eq!(file.transactions.len(), 3);
    assert_eq!(ids(&file.traces), vec!["1-root", "2-root", "2-inner"]);
    assert_eq!(ids(&file.error_traces), vec!["0-root", "0-inner", "1-inner"]);
    assert_eq!(numbered(&file.events), vec![("kept", 1), ("fee", 2), ("kept", 3)]);
    assert_eq!(
        numbered(&file.error_events),
        vec![("reverted", 0), ("fee", 0), ("dropped", 1), ("dropped", 4)]
    );
    assert_eq!(file.events[1].parent_trace_id, "1-root");
    assert_eq!(file.events[1].id, "1-root/0");
    assert_eq!(file.error_events[1].parent_trace_id, "0-root");
    assert_eq!(file.storage_contracts, vec![Address([3; 20])]);
}

#[test]
fn tracing_a_block_again_gives_the_same_block_file() {
    let traced = |now_millis: u128| {
        let info = BlockInfo { header: header(1), transactions: vec![transaction(0)] };
        let mut stage = match open_block(REQUESTED, Some(info), now_millis).unwrap() {
            OpenedBlock::Regular(stage) => stage
                .receive_receipts(Some(vec![receipt(0, true)]))
                .unwrap()
                .receive_parent::<u8>(Some(hash(0x99)))
                .unwrap(),
            OpenedBlock::Genesis(_) => panic!("not the first block"),
        };
        let inspected = TransactionTraces {
            traces: vec![trace("root", vec![])],
            error_traces: vec![trace("inner", vec![0])],
            events: vec![event("kept", 1)],
            error_events: vec![event("dropped", 0)],
        };
        let persisted = vec![event("kept", 0), event("fee", 0)];
        assert!(stage.positions_fit(&inspected, &persisted));
        stage.record(inspected, Some(persisted), debank_id).unwrap();
        stage
            .finish_with_root(11, hash(7))
            .unwrap()
            .receive_state_diff(StateDiffOutcome::Equal, vec![])
            .unwrap()
    };

    let first = traced(18);
    let mut second = traced(19);

    assert_eq!(second.block_file.block.process_start_timestamp, 19);
    second.block_file.block.process_start_timestamp = 18;
    assert_eq!(format!("{first:?}"), format!("{second:?}"));
}

#[test]
fn positions_beyond_the_largest_index_do_not_fit() {
    let mut stage = replay(&[true]);
    let inspected = |subtraces: usize| {
        let mut root = trace("root", vec![]);
        root.subtraces = subtraces;
        TransactionTraces {
            traces: vec![root],
            error_traces: vec![],
            events: vec![event("a", 0)],
            error_events: vec![event("b", 1)],
        }
    };
    let persisted = vec![event("c", 0)];

    assert!(stage.positions_fit(&inspected(usize::MAX - 3), &persisted));
    assert!(!stage.positions_fit(&inspected(usize::MAX - 2), &persisted));
    stage.next_event_index = usize::MAX;
    assert!(!stage.positions_fit(&inspected(0), &persisted));
    assert!(stage.positions_fit(&inspected(0), &vec![]));
}

#[test]
fn the_replay_has_to_use_the_gas_of_the_header() {
    assert!(matches!(
        replay(&[]).finish_with_root(12, hash(8)),
        Err(TraceError::GasMismatch { block: 1, replayed_gas: 12, header_gas: 11 })
    ));
}

#[test]
fn the_replay_has_to_give_the_receipts_of_the_header() {
    match replay(&[]).finish_with_root(11, hash(8)) {
        Err(TraceError::ReceiptsRootMismatch { block, replayed_root, header_root }) => {
            assert_eq!((block, replayed_root, header_root), (1, hash(8), hash(7)));
        }
        _ => panic!("the roots differ"),
    }
}

#[test]
fn the_receipts_root_is_that_of_the_encoded_receipts() {
    // The root of a block without receipts.
    let empty: [u8; 32] = alloy_consensus::constants::EMPTY_RECEIPTS.0;
    match replay(&[]).finish(11, &vec![]) {
        Err(TraceError::ReceiptsRootMismatch { replayed_root, .. }) => {
            assert_eq!(replayed_root.0, empty);
        }
        _ => panic!("the roots differ"),
    }
    let mut stage = replay(&[]);
    stage.header.receipts_root = B256(empty);
    assert!(stage.finish(11, &vec![]).is_ok());

    let receipts: Vec<alloy_consensus::ReceiptEnvelope> = [true, false]
        .into_iter()
        .map(|status| {
            alloy_consensus::ReceiptEnvelope::Eip1559(alloy_consensus::ReceiptWithBloom {
                receipt: alloy_consensus::Receipt {
                    status: alloy_consensus::Eip658Value::Eip658(status),
                    cumulative_gas_used: 21_000,
                    logs: vec![],
                },
                logs_bloom: Default::default(),
            })
        })
        .collect();
    let root = alloy_consensus::proofs::calculate_receipt_root(&receipts);
    let encoded: Vec<Vec<u8>> = receipts
        .iter()
        .map(alloy_eips::eip2718::Encodable2718::encoded_2718)
        .collect();
    let mut stage = replay(&[]);
    stage.header.receipts_root = B256(root.0);
    assert!(stage.finish(11, &encoded).is_ok());
}

fn summary(encoded: Vec<u8>) -> StateDiffSummary {
    StateDiffSummary {
        encoded,
        new_accounts: 1,
        deleted_accounts: 2,
        storage_diffs: 3,
        new_codes: 4,
    }
}

const KECCAK_OF_NOTHING: &str =
    "0xc5d2460186f7233c927e7db2dcc703c0e500b653ca82273b7bfad8045d85a470";

#[test]
fn a_state_diff_is_described_by_its_hash_and_counts() {
    let digest = state_diff_digest(&summary(vec![]));
    assert_eq!(
        alloy_primitives::B256::from(digest.hash.0).to_string(),
        KECCAK_OF_NOTHING
    );
    assert_eq!(
        (digest.new_accounts, digest.deleted_accounts, digest.storage_diffs, digest.new_codes),
        (1, 2, 3, 4)
    );
}

#[test]
fn different_state_diffs_stop_tracing() {
    let stage = replay(&[]).finish_with_root(11, hash(7)).unwrap();
    let outcome = StateDiffOutcome::Different {
        replayed: summary(vec![]),
        canonical: summary(vec![1]),
    };
    let error = stage.receive_state_diff(outcome, vec![]).unwrap_err();
    let message = error.message().unwrap();
    assert!(message.starts_with(&format!(
        "trace_debankBlock state diff mismatch for block 1: replayed {KECCAK_OF_NOTHING} (accounts 1"
    )));
    assert!(message.ends_with(&format!(
        "canonical {} (accounts 1, deleted 2, storage 3, codes 4)",
        alloy_primitives::keccak256([1])
    )));
}

#[test]
fn an_unreadable_state_diff_stops_tracing() {
    let stage = replay(&[]).finish_with_root(11, hash(7)).unwrap();
    match stage.receive_state_diff(StateDiffOutcome::Failed("gone".to_string()), vec![]) {
        Err(TraceError::CanonicalStateDiff { block, cause }) => {
            assert_eq!((block, cause.as_str()), (1, "gone"));
        }
        _ => panic!("the diff is not there"),
    }
}

fn empty_file() -> BlockFile<u8> {
    BlockFile {
        block: debank_block(&header(1), 0),
        transactions: vec![],
        traces: vec![],
        events: vec![],
        error_traces: vec![],
        error_events: vec![],
        storage_contracts: vec![],
    }
}

fn results(root_failed: bool) -> TransactionTraces<u8> {
    TransactionTraces {
        traces: vec![trace("good", vec![0])],
        error_traces: vec![trace("bad", if root_failed { vec![] } else { vec![1] })],
        events: vec![event("e", 0)],
        error_events: vec![event("x", 0)],
    }
}

#[test]
fn a_successful_transaction_keeps_the_success_of_each_call() {
    let mut file = empty_file();
    add_transaction(&mut file, results(false), true);
    assert_eq!(ids(&file.traces), vec!["good"]);
    assert_eq!(ids(&file.error_traces), vec!["bad"]);
    assert_eq!(numbered(&file.events), vec![("e", 0)]);
    assert_eq!(numbered(&file.error_events), vec![("x", 0)]);
}

#[test]
fn a_successful_transaction_with_a_failed_root_merges_its_traces() {
    let mut file = empty_file();
    add_transaction(&mut file, results(true), true);
    assert_eq!(ids(&file.traces), vec!["good", "bad"]);
    assert!(file.error_traces.is_empty());
    assert_eq!(numbered(&file.events), vec![("e", 0)]);
    assert_eq!(numbered(&file.error_events), vec![("x", 0)]);
}

#[test]
fn a_failed_transaction_reaches_the_error_lists_only() {
    let mut file = empty_file();
    add_transaction(&mut file, results(true), false);
    assert!(file.traces.is_empty());
    assert!(file.events.is_empty());
    assert_eq!(ids(&file.error_traces), vec!["bad", "good"]);
    assert_eq!(numbered(&file.error_events), vec![("x", 0), ("e", 0)]);
}

#[test]
fn every_trace_and_event_is_kept_once() {
    let file = add_transactions(
        empty_file(),
        vec![results(true), results(false), results(true), results(false)],
        &vec![true, true, false, false],
    );
    assert_eq!(file.traces.len() + file.error_traces.len(), 8);
    assert_eq!(file.events.len() + file.error_events.len(), 8);
}

#[test]
fn a_transaction_without_a_status_counts_as_successful() {
    let file = add_transactions(empty_file(), vec![results(false)], &vec![]);
    assert_eq!(ids(&file.traces), vec!["good"]);
}

#[test]
fn accounts_that_existed_and_were_destroyed_are_picked() {
    let account = |byte: u8, was_destroyed: bool, existed_before: bool| ChangedAccount {
        address: Address([byte; 20]),
        was_destroyed,
        existed_before,
    };
    let picked = destroyed_addresses(&[
        account(1, true, true),
        account(2, true, false),
        account(3, false, true),
        account(4, true, true),
    ]);
    assert_eq!(picked, vec![Address([1; 20]), Address([4; 20])]);
}

#[test]
fn the_inspector_records_storage_writes_and_precompile_calls() {
    let settings = debank_inspector_settings();
    assert!(settings.steps);
    assert!(settings.logs);
    assert!(!settings.exclude_precompile_calls);
    assert_eq!(settings.recorded_opcode, revm::bytecode::opcode::SSTORE);
    assert_eq!(SSTORE, revm::bytecode::opcode::SSTORE);
}

#[test]
fn the_handle_keeps_its_node_interface() {
    let handle = DebankTraceBlock::new("node".to_string());
    assert_eq!(handle.eth_api(), "node");
    assert_eq!(handle.clone().eth_api(), "node");
}
