//! What each step of tracing a block hands on, said field by field.
use vstd::prelude::*;

use crate::arena::{is_alignment, CallTraceArena};
use crate::assemble::{
    block_error_events, block_error_traces, block_events, block_traces, TransactionTraces,
};
use crate::block::{
    debank_block_of, is_rpc_header, BlockHeaderInfo, BlockId, BlockInfo, RpcHeader,
};
use crate::error::{StateDiffDigest, TraceError};
use crate::event::DebankEvent;
use crate::native::NativeStorageWrites;
use crate::outside::keccak256_of;
use crate::primitives::{byte_strings, Address, Bytes, B256};
use crate::record_laws::{is_first_root, the_root_is_the_first_empty_address};
use crate::session::{
    is_digest, is_opening, logs_before, AwaitParent, AwaitReceipts, AwaitStateDiff, DebankOutPut,
    GenesisBlock, OpenedBlock, Replay, StateDiffOutcome, StateDiffSummary,
};
use crate::trace::{first_root, DebankTrace};
use crate::trace_block::{destroyed, ChangedAccount};
use crate::transaction::{is_debank_transaction, DebankTransaction, ReceiptInfo};

verus! {

/// The block of a block file says what the header says, and when tracing started.
pub proof fn the_block_says_what_its_header_says(header: BlockHeaderInfo, now_millis: u128)
    ensures
        ({
            let block = debank_block_of(header, now_millis);
            &&& block.id == header.hash
            &&& block.height == header.number
            &&& block.parent_id == header.parent_hash
            &&& block.base_fee_per_gas == header.base_fee_per_gas
            &&& block.miner == header.beneficiary
            &&& block.gas_limit == header.gas_limit
            &&& block.gas_used == header.gas_used
            &&& block.timestamp == header.timestamp
            &&& block.process_start_timestamp == now_millis
        }),
{
}

/// The header that is handed out says what the header of the block says; a missing mix hash or
/// nonce is zero, and total difficulty and size are left out.
pub proof fn the_header_is_handed_out_as_it_is(header: BlockHeaderInfo, r: RpcHeader)
    requires
        is_rpc_header(header, r),
    ensures
        r.hash == header.hash,
        r.number == header.number,
        r.parent_hash == header.parent_hash,
        r.ommers_hash == header.ommers_hash,
        r.beneficiary == header.beneficiary,
        r.state_root == header.state_root,
        r.transactions_root == header.transactions_root,
        r.receipts_root == header.receipts_root,
        r.logs_bloom == header.logs_bloom,
        r.difficulty == header.difficulty,
        r.gas_limit == header.gas_limit,
        r.gas_used == header.gas_used,
        r.timestamp == header.timestamp,
        r.extra_data == header.extra_data,
        r.base_fee_per_gas == header.base_fee_per_gas,
        r.withdrawals_root == header.withdrawals_root,
        r.blob_gas_used == header.blob_gas_used,
        r.excess_blob_gas == header.excess_blob_gas,
        r.parent_beacon_block_root == header.parent_beacon_block_root,
        r.requests_hash == header.requests_hash,
        r.block_access_list_hash == header.block_access_list_hash,
        r.slot_number == header.slot_number,
        header.mix_hash is Some ==> r.mix_hash == header.mix_hash->0,
        header.mix_hash is None ==> forall|i: int|
            0 <= i < 32 ==> #[trigger] r.mix_hash@[i] == 0,
        header.nonce is Some ==> r.nonce == header.nonce->0,
        header.nonce is None ==> forall|i: int| 0 <= i < 8 ==> #[trigger] r.nonce@[i] == 0,
        r.total_difficulty is None,
        r.size is None,
{
    if header.mix_hash is None {
        let zero = B256::spec_zero();
        assert forall|i: int| 0 <= i < 32 implies #[trigger] r.mix_hash@[i] == 0 by {
            assert(zero@[i] == 0);
        }
    }
}

/// A block is opened with its own header and transactions, under the id of the request.
pub proof fn a_block_is_opened_as_it_was_found(
    block_id: BlockId,
    info: BlockInfo,
    now_millis: u128,
    stage: AwaitReceipts,
)
    requires
        stage.is_opened(block_id, info, now_millis),
    ensures
        stage.block_id == block_id,
        stage.header.hash == info.header.hash,
        stage.header.number == info.header.number,
        stage.header.parent_hash == info.header.parent_hash,
        stage.block.id == info.header.hash,
        stage.block.height == info.header.number,
        stage.block.process_start_timestamp == now_millis,
        is_rpc_header(info.header, stage.header),
        stage.block == debank_block_of(info.header, now_millis),
        stage.transactions@ == info.transactions@,
{
}

/// With its receipts, each transaction is written from itself and the receipt at its own position,
/// and its hash, status and gas are kept for the replay.
pub proof fn each_transaction_goes_with_its_own_receipt(
    stage: AwaitReceipts,
    receipts: Seq<ReceiptInfo>,
    next: AwaitParent,
    i: int,
)
    requires
        receipts.len() == stage.transactions@.len(),
        stage.is_followed_by(receipts, next),
        0 <= i < receipts.len(),
    ensures
        next.block_id == stage.block_id,
        next.block == stage.block,
        next.header == stage.header,
        next.transactions@.len() == receipts.len(),
        next.tx_hashes@.len() == receipts.len(),
        next.tx_statuses@.len() == receipts.len(),
        next.tx_gas_used@.len() == receipts.len(),
        is_debank_transaction(stage.transactions@[i], receipts[i], next.transactions@[i]),
        next.tx_hashes@[i] == stage.transactions@[i].hash,
        next.tx_statuses@[i] == receipts[i].status,
        next.tx_gas_used@[i] == receipts[i].gas_used,
{
}

/// A replay starts with nothing recorded and at log index zero, on the state of the parent.
pub proof fn a_replay_starts_on_the_parent<B>(
    stage: AwaitParent,
    parent_state_root: B256,
    next: Replay<B>,
)
    requires
        stage.is_followed_by(parent_state_root, next),
    ensures
        next.block == stage.block,
        next.header == stage.header,
        next.transactions@ == stage.transactions@,
        next.tx_hashes@ == stage.tx_hashes@,
        next.tx_statuses@ == stage.tx_statuses@,
        next.tx_gas_used@ == stage.tx_gas_used@,
        next.parent_state_root == parent_state_root,
        next.next_event_index == 0,
        next.results@.len() == 0,
{
}

/// Transactions are replayed in the order of the block, each once: the next one is the first that
/// was not recorded, and there is a next one exactly as long as one is left.
pub proof fn transactions_are_replayed_in_order<B>(replay: Replay<B>)
    requires
        replay.results@.len() <= replay.transactions@.len(),
    ensures
        replay.next() is None <==> replay.results@.len() == replay.transactions@.len(),
        replay.next() is Some ==> replay.next()->0 == replay.results@.len() && replay.next()->0
            < replay.transactions@.len(),
{
}

/// The transactions that were recorded share the log indices of the block: each starts where the
/// one before ended, whether it failed or not, and its receipt logs follow one another. The next
/// log index is the one behind them all.
pub proof fn recorded_logs_are_numbered_through<B>(replay: Replay<B>) -> (starts: Seq<int>)
    requires
        replay.wf(),
    ensures
        starts.len() == replay.results@.len() + 1,
        starts[0] == 0,
        forall|k: int|
            #![trigger replay.results@[k]]
            0 <= k < replay.results@.len() ==> starts[k + 1] == starts[k]
                + replay.results@[k].events@.len(),
        forall|k: int, j: int|
            #![trigger replay.results@[k].events@[j]]
            0 <= k < replay.results@.len() && 0 <= j < replay.results@[k].events@.len()
                ==> replay.results@[k].events@[j].idx == starts[k] + j,
        replay.next_event_index == starts[replay.results@.len() as int],
{
    let results = replay.results@;
    let starts = Seq::new(results.len() + 1, |k: int| logs_before(results, k));
    starts
}

/// A replay ends well exactly if it used the gas of the header and gave the receipts of the header;
/// all that was recorded is handed on. Else the error says what was given and what the header says,
/// of the gas first.
pub proof fn a_replay_ends_by_gas_and_receipts<B>(
    replay: Replay<B>,
    gas_used: u64,
    receipts_root: B256,
    r: Result<AwaitStateDiff<B>, TraceError>,
)
    requires
        replay.ends_with(gas_used, receipts_root, r),
    ensures
        r is Ok <==> gas_used == replay.header.gas_used && receipts_root
            == replay.header.receipts_root,
        r is Ok ==> {
            &&& r->Ok_0.block == replay.block
            &&& r->Ok_0.header == replay.header
            &&& r->Ok_0.transactions@ == replay.transactions@
            &&& r->Ok_0.tx_statuses@ == replay.tx_statuses@
            &&& r->Ok_0.parent_state_root == replay.parent_state_root
            &&& r->Ok_0.results@ == replay.results@
        },
        gas_used != replay.header.gas_used ==> r->Err_0 == (TraceError::GasMismatch {
            block: replay.header.number,
            replayed_gas: gas_used,
            header_gas: replay.header.gas_used,
        }),
        gas_used == replay.header.gas_used && receipts_root != replay.header.receipts_root
            ==> r->Err_0 == (TraceError::ReceiptsRootMismatch {
            block: replay.header.number,
            replayed_root: receipts_root,
            header_root: replay.header.receipts_root,
        }),
{
}

/// The output holds the block, its transactions and everything that was recorded of them, by their
/// receipt statuses; its state diff leads from the state root of the parent to that of the header.
pub proof fn the_output_holds_all_that_was_recorded<B>(
    stage: AwaitStateDiff<B>,
    storage_contracts: Vec<Address>,
    out: DebankOutPut<B>,
)
    requires
        stage.is_output(storage_contracts, out),
    ensures
        ({
            let statuses = stage.tx_statuses@;
            let results = stage.results@;
            let n = results.len() as int;
            &&& out.block_file.block == stage.block
            &&& out.block_file.transactions@ == stage.transactions@
            &&& out.block_file.traces@ == block_traces(statuses, results, n)
            &&& out.block_file.error_traces@ == block_error_traces(statuses, results, n)
            &&& out.block_file.events@ == block_events(statuses, results, n)
            &&& out.block_file.error_events@ == block_error_events(statuses, results, n)
            &&& out.block_file.storage_contracts@ == storage_contracts@
            &&& out.header == stage.header
            &&& out.state_diff_hash == stage.header.state_root
            &&& out.state_diff_parent_hash == Some(stage.parent_state_root)
        }),
{
}

/// The output of the first block holds what the chain specification gives, and nothing else; its
/// state diff leads to the state root of the header and keeps its own start.
pub proof fn the_first_block_holds_what_was_given<B>(
    info: BlockInfo,
    now_millis: u128,
    genesis: GenesisBlock,
    transactions: Vec<DebankTransaction>,
    traces: Vec<DebankTrace<B>>,
    storage_contracts: Vec<Address>,
    out: DebankOutPut<B>,
)
    requires
        genesis.is_opened(info, now_millis),
        genesis.is_output(transactions, traces, storage_contracts, out),
    ensures
        out.block_file.block == debank_block_of(info.header, now_millis),
        out.block_file.transactions@ == transactions@,
        out.block_file.traces@ == traces@,
        out.block_file.storage_contracts@ == storage_contracts@,
        out.block_file.events@.len() == 0,
        out.block_file.error_traces@.len() == 0,
        out.block_file.error_events@.len() == 0,
        is_rpc_header(info.header, out.header),
        out.state_diff_hash == info.header.state_root,
        out.state_diff_parent_hash is None,
{
}

/// A state diff is described by the hash of its encoding and its counts.
pub proof fn a_digest_describes_its_state_diff(summary: StateDiffSummary, digest: StateDiffDigest)
    requires
        is_digest(summary, digest),
    ensures
        digest.hash@ == keccak256_of(summary.encoded@),
        digest.new_accounts == summary.new_accounts,
        digest.deleted_accounts == summary.deleted_accounts,
        digest.storage_diffs == summary.storage_diffs,
        digest.new_codes == summary.new_codes,
{
}

/// There is room for a transaction exactly if the next log index and the receipt logs, and the
/// calls of its root together with all inspected logs and all receipt logs, fit into a `usize`.
pub proof fn room_is_counted_in_logs_and_calls<B>(
    replay: Replay<B>,
    inspected: TransactionTraces<B>,
    persisted: Seq<DebankEvent>,
) -> (root: Option<DebankTrace<B>>)
    ensures
        is_first_root(inspected.traces@ + inspected.error_traces@, root),
        replay.has_room_for(inspected, persisted) <==> {
            let calls = if root is Some {
                root->0.subtraces as int
            } else {
                0
            };
            &&& replay.next_event_index + persisted.len() <= usize::MAX
            &&& calls + inspected.events@.len() + inspected.error_events@.len() + persisted.len()
                <= usize::MAX
        },
{
    let traces = inspected.traces@ + inspected.error_traces@;
    the_root_is_the_first_empty_address(traces);
    first_root(traces)
}

/// The accounts that are picked are those that existed before and were destroyed, all of them, in
/// their order. `at` says where each stands.
pub proof fn destroyed_accounts_existed_and_are_gone(accounts: Seq<ChangedAccount>) -> (at: Seq<
    int,
>)
    ensures
        destroyed(accounts).len() == at.len(),
        forall|k: int|
            #![trigger at[k]]
            0 <= k < at.len() ==> {
                &&& 0 <= at[k] < accounts.len()
                &&& accounts[at[k]].was_destroyed
                &&& accounts[at[k]].existed_before
                &&& destroyed(accounts)[k] == accounts[at[k]].address
            },
        forall|k: int, l: int|
            #![trigger at[k], at[l]]
            0 <= k < l < at.len() ==> at[k] < at[l],
        forall|i: int|
            #![trigger accounts[i]]
            0 <= i < accounts.len() && accounts[i].was_destroyed && accounts[i].existed_before
                ==> at.contains(i),
    decreases accounts.len(),
{
    if accounts.len() == 0 {
        Seq::empty()
    } else {
        let front = accounts.drop_last();
        let last = accounts.len() - 1;
        let before = destroyed_accounts_existed_and_are_gone(front);
        assert(forall|i: int| 0 <= i < front.len() ==> (#[trigger] front[i]) == accounts[i]);
        let at = if accounts[last].was_destroyed && accounts[last].existed_before {
            before.push(last)
        } else {
            before
        };
        assert forall|k: int|
            #![trigger at[k]]
            0 <= k < at.len() implies {
            &&& 0 <= at[k] < accounts.len()
            &&& accounts[at[k]].was_destroyed
            &&& accounts[at[k]].existed_before
            &&& destroyed(accounts)[k] == accounts[at[k]].address
        } by {
            if k < before.len() {
                assert(at[k] == before[k]);
                assert(front[before[k]] == accounts[before[k]]);
            }
        }
        assert forall|k: int, l: int|
            #![trigger at[k], at[l]]
            0 <= k < l < at.len() implies at[k] < at[l] by {
            assert(at[k] == before[k]);
            if l < before.len() {
                assert(at[l] == before[l]);
            }
        }
        assert forall|i: int|
            #![trigger accounts[i]]
            0 <= i < accounts.len() && accounts[i].was_destroyed
                && accounts[i].existed_before implies at.contains(i) by {
            if i < last {
                assert(front[i] == accounts[i]);
                assert(before.contains(i));
                let k = before.index_of(i);
                assert(at[k] == i);
            } else {
                assert(at[before.len() as int] == i);
            }
        }
        at
    }
}

/// A block that was not found is reported under the id of the request. A block that was found is
/// opened: as the first block of the chain exactly if its number is zero.
pub proof fn a_block_opens_exactly_if_it_is_found(
    block_id: BlockId,
    block: Option<BlockInfo>,
    now_millis: u128,
    r: Result<OpenedBlock, TraceError>,
)
    requires
        is_opening(block_id, block, now_millis, r),
    ensures
        r is Ok <==> block is Some,
        block is None ==> r->Err_0 == (TraceError::HeaderNotFound { block_id }),
        block is Some ==> {
            &&& r->Ok_0 is Genesis <==> block->0.header.number == 0
            &&& r->Ok_0 matches OpenedBlock::Genesis(genesis) ==> genesis.is_opened(
                block->0,
                now_millis,
            )
            &&& r->Ok_0 matches OpenedBlock::Regular(stage) ==> stage.is_opened(
                block_id,
                block->0,
                now_millis,
            )
        },
{
}

/// Tracing goes on with the receipts exactly if there is one per transaction. Missing receipts are
/// reported under the id of the request, another number of receipts with both numbers.
pub proof fn receipts_have_to_be_one_per_transaction(
    stage: AwaitReceipts,
    receipts: Option<Vec<ReceiptInfo>>,
    r: Result<AwaitParent, TraceError>,
)
    requires
        stage.goes_on(receipts, r),
    ensures
        r is Ok <==> receipts is Some && receipts->0@.len() == stage.transactions@.len(),
        r is Ok ==> stage.is_followed_by(receipts->0@, r->Ok_0),
        receipts is None ==> r->Err_0 == (TraceError::HeaderNotFound { block_id: stage.block_id }),
        receipts is Some && receipts->0@.len() != stage.transactions@.len() ==> {
            &&& r->Err_0 matches TraceError::ReceiptCountMismatch { block, receipts: n, transactions }
            &&& block == stage.header.number
            &&& n == receipts->0@.len()
            &&& transactions == stage.transactions@.len()
        },
{
}

/// Tracing goes on exactly if the parent was found; else it is reported under the id of the
/// request.
pub proof fn the_parent_has_to_be_found<B>(
    stage: AwaitParent,
    parent_state_root: Option<B256>,
    r: Result<Replay<B>, TraceError>,
)
    requires
        stage.goes_on(parent_state_root, r),
    ensures
        r is Ok <==> parent_state_root is Some,
        r is Ok ==> stage.is_followed_by(parent_state_root->0, r->Ok_0),
        parent_state_root is None ==> r->Err_0 == (TraceError::HeaderNotFound {
            block_id: stage.block_id,
        }),
{
}

/// The records of native frames are aligned with the traced calls under the status of the
/// transaction that comes next, and where they do not fit, that transaction is named, with the
/// number of calls and of records.
pub proof fn alignment_is_of_the_next_transaction<B>(
    replay: Replay<B>,
    arena: CallTraceArena,
    changes: Vec<(Address, NativeStorageWrites)>,
    r: Result<Vec<(Address, NativeStorageWrites)>, TraceError>,
    after: CallTraceArena,
)
    requires
        replay.aligns(arena, changes, r, after),
    ensures
        r is Ok ==> is_alignment(
            arena.nodes@,
            changes@,
            replay.tx_statuses@[replay.results@.len() as int],
            Some(r->Ok_0@),
            after.nodes@,
        ),
        r is Err ==> {
            &&& is_alignment(
                arena.nodes@,
                changes@,
                replay.tx_statuses@[replay.results@.len() as int],
                None,
                after.nodes@,
            )
            &&& r->Err_0 matches TraceError::NativeInspectorMismatch {
                transaction,
                trace_nodes,
                native_frames,
            }
            &&& transaction == replay.tx_hashes@[replay.results@.len() as int]
            &&& trace_nodes == arena.nodes@.len()
            &&& native_frames == changes@.len()
        },
{
}

/// A transaction is recorded exactly if its replay left a receipt; else it is named, and nothing is
/// recorded.
pub proof fn a_transaction_needs_a_replayed_receipt<B, F: Fn(&DebankEvent) -> String>(
    replay: Replay<B>,
    inspected: TransactionTraces<B>,
    persisted: Option<Vec<DebankEvent>>,
    debank_id: F,
    r: Result<(), TraceError>,
    next: Replay<B>,
)
    requires
        replay.goes_on(inspected, persisted, debank_id, r, next),
    ensures
        r is Ok <==> persisted is Some,
        persisted is Some ==> replay.is_followed_by(inspected, persisted->0@, debank_id, next),
        persisted is None ==> {
            &&& r->Err_0 == (TraceError::MissingReplayedReceipt {
                transaction: replay.tx_hashes@[replay.results@.len() as int],
            })
            &&& next == replay
        },
{
}

/// A block is written exactly if its state diffs are equal. Else the error gives the cause, or
/// describes both diffs, each by its own hash and counts.
pub proof fn a_block_is_written_exactly_if_its_state_diffs_are_equal<B>(
    stage: AwaitStateDiff<B>,
    outcome: StateDiffOutcome,
    storage_contracts: Vec<Address>,
    r: Result<DebankOutPut<B>, TraceError>,
)
    requires
        stage.goes_on(outcome, storage_contracts, r),
    ensures
        r is Ok <==> outcome is Equal,
        r is Ok ==> stage.is_output(storage_contracts, r->Ok_0),
        outcome matches StateDiffOutcome::Failed(cause) ==> r->Err_0 == (
        TraceError::CanonicalStateDiff { block: stage.header.number, cause }),
        outcome matches StateDiffOutcome::Different { replayed, canonical } ==> {
            &&& r->Err_0 matches TraceError::StateDiffMismatch {
                block,
                replayed: was,
                canonical: expected,
            }
            &&& block == stage.header.number
            &&& was.hash@ == keccak256_of(replayed.encoded@)
            &&& was.new_accounts == replayed.new_accounts
            &&& was.deleted_accounts == replayed.deleted_accounts
            &&& was.storage_diffs == replayed.storage_diffs
            &&& was.new_codes == replayed.new_codes
            &&& expected.hash@ == keccak256_of(canonical.encoded@)
            &&& expected.new_accounts == canonical.new_accounts
            &&& expected.deleted_accounts == canonical.deleted_accounts
            &&& expected.storage_diffs == canonical.storage_diffs
            &&& expected.new_codes == canonical.new_codes
        },
{
}

/// Byte strings are hashed as they are, one each and in order.
pub proof fn byte_strings_are_taken_as_they_are(items: Seq<Bytes>)
    ensures
        byte_strings(items).len() == items.len(),
        forall|i: int| 0 <= i < items.len() ==> #[trigger] byte_strings(items)[i] == items[i]@,
{
}

} // verus!
