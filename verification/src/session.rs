//! Tracing one block, step by step.
//!
//! Each step takes what was looked up or executed for the step before, decides whether tracing can
//! go on, and says by its type what is needed next. The block is resolved once: every later lookup
//! uses the hash of the block or of its parent, whatever the head of the chain is by then.
use vstd::prelude::*;

use crate::arena::{align_native_storage_changes, is_alignment, CallTraceArena};
use crate::assemble::{
    add_transactions, block_error_events, block_error_traces, block_events, block_traces,
    BlockFile, TransactionTraces,
};
use crate::block::{
    debank_block, debank_block_of, debank_header, is_rpc_header, BlockId, BlockInfo, DebankBlock,
    RpcHeader,
};
use crate::candidates::{inspected_logs, inspected_logs_count, CandidateModel};
use crate::error::{StateDiffDigest, TraceError};
use crate::event::{event_models, DebankEvent, EventModel};
use crate::native::NativeStorageWrites;
use crate::outside::{keccak256, keccak256_of, ordered_trie_root, ordered_trie_root_of};
use crate::primitives::{byte_strings, hash_of, hash_of_its_bytes, Address, Bytes, B256};
use crate::reconcile::{
    is_reconciled, lemma_root_positions_bounded, reconcile_persisted_events, reconciles,
    root_positions_fit,
};
use crate::reconcile_laws::receipt_logs_keep_payload_and_log_index;
use crate::trace::{
    find_root_trace, first_root, first_root_place, has_root, root_place, root_trace_misclassified,
    DebankTrace, RootPlace,
};
use crate::transaction::{
    debank_transaction, is_debank_transaction, DebankTransaction, ReceiptInfo, TransactionInfo,
};

verus! {

/// What tracing a block yields.
#[derive(Debug)]
pub struct DebankOutPut<B> {
    pub block_file: BlockFile<B>,
    pub header: RpcHeader,
    /// State root that the state diff leads to.
    pub state_diff_hash: B256,
    /// State root that the state diff starts from; none where the diff keeps the one it has.
    pub state_diff_parent_hash: Option<B256>,
}

/// A block that was found.
#[derive(Debug)]
pub enum OpenedBlock {
    /// The first block of the chain, whose content comes from the chain specification.
    Genesis(GenesisBlock),
    /// Any other block. It waits for its receipts.
    Regular(AwaitReceipts),
}

/// The first block of the chain.
#[derive(Debug)]
pub struct GenesisBlock {
    pub block: DebankBlock,
    pub header: RpcHeader,
}

/// A block that waits for its receipts.
#[derive(Debug)]
pub struct AwaitReceipts {
    /// The block as the request named it.
    pub block_id: BlockId,
    pub block: DebankBlock,
    pub header: RpcHeader,
    pub transactions: Vec<TransactionInfo>,
}

/// A block that waits for its parent.
#[derive(Debug)]
pub struct AwaitParent {
    /// The block as the request named it.
    pub block_id: BlockId,
    pub block: DebankBlock,
    pub header: RpcHeader,
    pub transactions: Vec<DebankTransaction>,
    /// Hash of each transaction.
    pub tx_hashes: Vec<B256>,
    /// Whether each transaction succeeded, by its receipt.
    pub tx_statuses: Vec<bool>,
    /// Gas used by each transaction, by its receipt.
    pub tx_gas_used: Vec<u64>,
}

/// A block whose transactions are being replayed.
#[derive(Debug)]
pub struct Replay<B> {
    pub block: DebankBlock,
    pub header: RpcHeader,
    pub transactions: Vec<DebankTransaction>,
    pub tx_hashes: Vec<B256>,
    pub tx_statuses: Vec<bool>,
    pub tx_gas_used: Vec<u64>,
    pub parent_state_root: B256,
    /// Log index of the next receipt log.
    pub next_event_index: usize,
    /// The transactions replayed so far.
    pub results: Vec<TransactionTraces<B>>,
}

/// A block that was replayed as its header says and waits for its state diff.
#[derive(Debug)]
pub struct AwaitStateDiff<B> {
    pub block: DebankBlock,
    pub header: RpcHeader,
    pub transactions: Vec<DebankTransaction>,
    pub tx_statuses: Vec<bool>,
    pub parent_state_root: B256,
    pub results: Vec<TransactionTraces<B>>,
}

/// A state diff, as far as it is reported.
#[derive(Debug)]
pub struct StateDiffSummary {
    /// The encoded diff.
    pub encoded: Bytes,
    pub new_accounts: usize,
    pub deleted_accounts: usize,
    pub storage_diffs: usize,
    pub new_codes: usize,
}

/// How the state diff of the replay compares to that of the database.
#[derive(Debug)]
pub enum StateDiffOutcome {
    /// The diff of the database could not be built.
    Failed(String),
    /// The diffs are the same.
    Equal,
    /// The diffs differ.
    Different { replayed: StateDiffSummary, canonical: StateDiffSummary },
}

/// Whether `r` is what opening the block that was looked up for `block_id` yields.
pub open spec fn is_opening(
    block_id: BlockId,
    block: Option<BlockInfo>,
    now_millis: u128,
    r: Result<OpenedBlock, TraceError>,
) -> bool {
    match block {
        None => r == Err::<OpenedBlock, _>(TraceError::HeaderNotFound { block_id }),
        Some(info) => match r {
            Ok(OpenedBlock::Genesis(genesis)) => {
                &&& info.header.number == 0
                &&& genesis.is_opened(info, now_millis)
            },
            Ok(OpenedBlock::Regular(stage)) => {
                &&& info.header.number != 0
                &&& stage.is_opened(block_id, info, now_millis)
            },
            Err(_) => false,
        },
    }
}

/// Takes the block that was looked up for `block_id`. `now_millis` is the current time.
pub fn open_block(block_id: BlockId, block: Option<BlockInfo>, now_millis: u128) -> (r: Result<
    OpenedBlock,
    TraceError,
>)
    ensures
        is_opening(block_id, block, now_millis, r),
{
    let info = match block {
        Some(info) => info,
        None => {
            return Err(TraceError::HeaderNotFound { block_id });
        },
    };
    let block = debank_block(&info.header, now_millis);
    let number = info.header.number;
    let header = debank_header(info.header);
    if number == 0 {
        Ok(OpenedBlock::Genesis(GenesisBlock { block, header }))
    } else {
        Ok(
            OpenedBlock::Regular(
                AwaitReceipts { block_id, block, header, transactions: info.transactions },
            ),
        )
    }
}

impl GenesisBlock {
    /// Whether this is the step that the block `info` is opened with.
    pub open spec fn is_opened(self, info: BlockInfo, now_millis: u128) -> bool {
        &&& self.block == debank_block_of(info.header, now_millis)
        &&& is_rpc_header(info.header, self.header)
    }

    /// Whether `out` is what tracing this block yields.
    pub open spec fn is_output<B>(
        self,
        transactions: Vec<DebankTransaction>,
        traces: Vec<DebankTrace<B>>,
        storage_contracts: Vec<Address>,
        out: DebankOutPut<B>,
    ) -> bool {
        &&& out.block_file.block == self.block
        &&& out.block_file.transactions == transactions
        &&& out.block_file.traces == traces
        &&& out.block_file.storage_contracts == storage_contracts
        &&& out.block_file.events@.len() == 0
        &&& out.block_file.error_traces@.len() == 0
        &&& out.block_file.error_events@.len() == 0
        &&& out.header == self.header
        &&& out.state_diff_hash == self.header.state_root
        &&& out.state_diff_parent_hash is None
    }

    /// Takes the transactions, traces and contracts with storage that the chain specification
    /// gives. There is nothing to replay.
    pub fn finish<B>(
        self,
        transactions: Vec<DebankTransaction>,
        traces: Vec<DebankTrace<B>>,
        storage_contracts: Vec<Address>,
    ) -> (r: DebankOutPut<B>)
        ensures
            self.is_output(transactions, traces, storage_contracts, r),
    {
        let state_root = self.header.state_root;
        DebankOutPut {
            block_file: BlockFile {
                block: self.block,
                transactions,
                traces,
                events: Vec::new(),
                error_traces: Vec::new(),
                error_events: Vec::new(),
                storage_contracts,
            },
            header: self.header,
            state_diff_hash: state_root,
            state_diff_parent_hash: None,
        }
    }
}

impl AwaitReceipts {
    /// Whether this is the step that the block `info`, looked up for `block_id`, is opened with.
    pub open spec fn is_opened(
        self,
        block_id: BlockId,
        info: BlockInfo,
        now_millis: u128,
    ) -> bool {
        &&& self.block_id == block_id
        &&& self.block == debank_block_of(info.header, now_millis)
        &&& is_rpc_header(info.header, self.header)
        &&& self.transactions == info.transactions
    }

    /// The block whose receipts are needed.
    pub fn block_hash(&self) -> (r: B256)
        ensures
            r == self.header.hash,
    {
        self.header.hash
    }

    /// Takes the receipts that were looked up.
    pub fn receive_receipts(self, receipts: Option<Vec<ReceiptInfo>>) -> (r: Result<
        AwaitParent,
        TraceError,
    >)
        ensures
            self.goes_on(receipts, r),
    {
        let receipts = match receipts {
            Some(receipts) => receipts,
            None => {
                return Err(TraceError::HeaderNotFound { block_id: self.block_id });
            },
        };
        if receipts.len() != self.transactions.len() {
            return Err(
                TraceError::ReceiptCountMismatch {
                    block: self.header.number,
                    receipts: receipts.len(),
                    transactions: self.transactions.len(),
                },
            );
        }
        let ghost txs = self.transactions@;
        let mut transactions: Vec<DebankTransaction> = Vec::new();
        let mut tx_hashes: Vec<B256> = Vec::new();
        let mut tx_statuses: Vec<bool> = Vec::new();
        let mut tx_gas_used: Vec<u64> = Vec::new();
        let mut index: usize = 0;
        for tx in iter: self.transactions.into_iter()
            invariant
                iter.seq() == txs,
                txs.len() == receipts.len(),
                index == iter.index(),
                transactions.len() == index,
                tx_hashes.len() == index,
                tx_statuses.len() == index,
                tx_gas_used.len() == index,
                forall|i: int|
                    #![trigger transactions@[i]]
                    0 <= i < index ==> is_debank_transaction(
                        txs[i],
                        receipts@[i],
                        transactions@[i],
                    ),
                forall|i: int| 0 <= i < index ==> #[trigger] tx_hashes@[i] == txs[i].hash,
                forall|i: int| 0 <= i < index ==> #[trigger] tx_statuses@[i] == receipts@[i].status,
                forall|i: int|
                    0 <= i < index ==> #[trigger] tx_gas_used@[i] == receipts@[i].gas_used,
        {
            let receipt = &receipts[index];
            tx_hashes.push(tx.hash);
            tx_statuses.push(receipt.status);
            tx_gas_used.push(receipt.gas_used);
            transactions.push(debank_transaction(tx, receipt));
            index += 1;
        }
        Ok(
            AwaitParent {
                block_id: self.block_id,
                block: self.block,
                header: self.header,
                transactions,
                tx_hashes,
                tx_statuses,
                tx_gas_used,
            },
        )
    }

    /// What the receipts that were looked up lead to.
    pub open spec fn goes_on(
        self,
        receipts: Option<Vec<ReceiptInfo>>,
        r: Result<AwaitParent, TraceError>,
    ) -> bool {
        match receipts {
            None => r == Err::<AwaitParent, _>(
                TraceError::HeaderNotFound { block_id: self.block_id },
            ),
            Some(receipts) => if receipts.len() != self.transactions.len() {
                r == Err::<AwaitParent, _>(
                    TraceError::ReceiptCountMismatch {
                        block: self.header.number,
                        receipts: receipts.len(),
                        transactions: self.transactions.len(),
                    },
                )
            } else {
                &&& r is Ok
                &&& self.is_followed_by(receipts@, r->Ok_0)
            },
        }
    }

    /// What follows once the receipts are there, one per transaction.
    pub open spec fn is_followed_by(self, receipts: Seq<ReceiptInfo>, next: AwaitParent) -> bool {
        &&& next.block_id == self.block_id
        &&& next.block == self.block
        &&& next.header == self.header
        &&& next.transactions.len() == receipts.len()
        &&& next.tx_hashes.len() == receipts.len()
        &&& next.tx_statuses.len() == receipts.len()
        &&& next.tx_gas_used.len() == receipts.len()
        &&& forall|i: int|
            #![trigger next.transactions@[i]]
            0 <= i < receipts.len() ==> is_debank_transaction(
                self.transactions@[i],
                receipts[i],
                next.transactions@[i],
            )
        &&& forall|i: int|
            0 <= i < receipts.len() ==> #[trigger] next.tx_hashes@[i] == self.transactions@[i].hash
        &&& forall|i: int|
            0 <= i < receipts.len() ==> #[trigger] next.tx_statuses@[i] == receipts[i].status
        &&& forall|i: int|
            0 <= i < receipts.len() ==> #[trigger] next.tx_gas_used@[i] == receipts[i].gas_used
    }
}

impl AwaitParent {
    /// What the state root of the parent that was looked up leads to.
    pub open spec fn goes_on<B>(
        self,
        parent_state_root: Option<B256>,
        r: Result<Replay<B>, TraceError>,
    ) -> bool {
        match parent_state_root {
            None => r == Err::<Replay<B>, _>(
                TraceError::HeaderNotFound { block_id: self.block_id },
            ),
            Some(root) => {
                &&& r is Ok
                &&& self.is_followed_by(root, r->Ok_0)
            },
        }
    }

    /// What follows once the state root of the parent is there: nothing is replayed yet.
    pub open spec fn is_followed_by<B>(self, parent_state_root: B256, next: Replay<B>) -> bool {
        &&& next.block == self.block
        &&& next.header == self.header
        &&& next.transactions == self.transactions
        &&& next.tx_hashes == self.tx_hashes
        &&& next.tx_statuses == self.tx_statuses
        &&& next.tx_gas_used == self.tx_gas_used
        &&& next.parent_state_root == parent_state_root
        &&& next.next_event_index == 0
        &&& next.results@.len() == 0
    }

    /// The block that is needed: the parent of the one that is traced.
    pub fn parent_hash(&self) -> (r: B256)
        ensures
            r == self.header.parent_hash,
    {
        self.header.parent_hash
    }

    /// Takes the state root of the parent that was looked up.
    ///
    /// There is no shortcut for a block without transactions: the state can change before and
    /// after the transactions of a block.
    pub fn receive_parent<B>(self, parent_state_root: Option<B256>) -> (r: Result<
        Replay<B>,
        TraceError,
    >)
        requires
            self.tx_statuses.len() == self.transactions.len(),
            self.tx_hashes.len() == self.transactions.len(),
            self.tx_gas_used.len() == self.transactions.len(),
        ensures
            self.goes_on(parent_state_root, r),
            r is Ok ==> r->Ok_0.wf(),
    {
        match parent_state_root {
            Some(parent_state_root) => Ok(
                Replay {
                    block: self.block,
                    header: self.header,
                    transactions: self.transactions,
                    tx_hashes: self.tx_hashes,
                    tx_statuses: self.tx_statuses,
                    tx_gas_used: self.tx_gas_used,
                    parent_state_root,
                    next_event_index: 0,
                    results: Vec::new(),
                },
            ),
            None => Err(TraceError::HeaderNotFound { block_id: self.block_id }),
        }
    }
}

/// The number of receipt logs of the first `n` transactions.
pub open spec fn logs_before<B>(results: Seq<TransactionTraces<B>>, n: int) -> int
    decreases n,
{
    if n <= 0 {
        0
    } else {
        logs_before(results, n - 1) + results[n - 1].events@.len()
    }
}

/// Whether every receipt log has its log index within the block, counted over all transactions,
/// failed ones among them.
pub open spec fn logs_numbered<B>(results: Seq<TransactionTraces<B>>) -> bool {
    forall|k: int, j: int|
        #![trigger results[k].events@[j]]
        0 <= k < results.len() && 0 <= j < results[k].events@.len() ==> results[k].events@[j].idx
            == logs_before(results, k) + j
}

/// Whether error events may be recognised in the receipt: only for a successful transaction whose
/// root trace stands among the failed calls.
pub open spec fn error_events_eligible<B>(
    status: bool,
    error_traces: Seq<DebankTrace<B>>,
) -> bool {
    status && has_root(error_traces)
}

impl<B> Replay<B> {
    /// The transaction to replay next, if one is left.
    pub open spec fn next(self) -> Option<usize> {
        if self.results.len() < self.transactions.len() {
            Some(self.results.len())
        } else {
            None
        }
    }

    /// There is one status, hash and amount of gas per transaction, no more transactions were
    /// replayed than there are, and all receipt logs so far have their log indices.
    pub open spec fn wf(self) -> bool {
        &&& self.tx_statuses.len() == self.transactions.len()
        &&& self.tx_hashes.len() == self.transactions.len()
        &&& self.tx_gas_used.len() == self.transactions.len()
        &&& self.results.len() <= self.transactions.len()
        &&& self.next_event_index == logs_before(self.results@, self.results@.len() as int)
        &&& logs_numbered(self.results@)
    }

    /// The transaction to replay next.
    pub open spec fn current(self) -> int {
        self.results@.len() as int
    }

    /// The logs that the inspector saw in the transaction that was just replayed.
    pub open spec fn inspected(self, inspected: TransactionTraces<B>) -> Seq<CandidateModel> {
        inspected_logs(
            event_models(inspected.events@),
            event_models(inspected.error_events@),
            error_events_eligible(
                self.tx_statuses@[self.current()],
                inspected.error_traces@,
            ),
        )
    }

    /// Whether the transaction that was just replayed can be recorded: its log indices and the
    /// positions in its root trace fit into a `usize`.
    pub open spec fn can_record(
        self,
        inspected: TransactionTraces<B>,
        persisted_events: Seq<DebankEvent>,
    ) -> bool {
        let root = first_root_place(inspected.traces@ + inspected.error_traces@);
        &&& self.next_event_index + persisted_events.len() <= usize::MAX
        &&& root_positions_fit(
            self.inspected(inspected),
            event_models(persisted_events),
            root,
        )
    }

    /// What aligning the records of native frames with the traced calls yields.
    pub open spec fn aligns(
        self,
        arena: CallTraceArena,
        native_changes: Vec<(Address, NativeStorageWrites)>,
        r: Result<Vec<(Address, NativeStorageWrites)>, TraceError>,
        after: CallTraceArena,
    ) -> bool {
        &&& is_alignment(
            arena.nodes@,
            native_changes@,
            self.tx_statuses@[self.results@.len() as int],
            match r {
                Ok(aligned) => Some(aligned@),
                Err(_) => None,
            },
            after.nodes@,
        )
        &&& r is Err ==> r == Err::<Vec<(Address, NativeStorageWrites)>, _>(
            TraceError::NativeInspectorMismatch {
                transaction: self.tx_hashes@[self.results@.len() as int],
                trace_nodes: arena.nodes.len(),
                native_frames: native_changes.len(),
            },
        )
    }

    /// What recording a transaction with its replayed receipt, if there is one, yields.
    pub open spec fn goes_on<F: Fn(&DebankEvent) -> String>(
        self,
        inspected: TransactionTraces<B>,
        persisted_events: Option<Vec<DebankEvent>>,
        debank_id: F,
        r: Result<(), TraceError>,
        next: Replay<B>,
    ) -> bool {
        match persisted_events {
            None => {
                &&& r == Err::<(), _>(
                    TraceError::MissingReplayedReceipt {
                        transaction: self.tx_hashes@[self.results@.len() as int],
                    },
                )
                &&& next == self
            },
            Some(persisted) => {
                &&& r == Ok::<(), TraceError>(())
                &&& self.is_followed_by(inspected, persisted@, debank_id, next)
            },
        }
    }

    /// Whether `next` is this replay with one more transaction recorded.
    pub open spec fn is_followed_by<F: Fn(&DebankEvent) -> String>(
        self,
        inspected: TransactionTraces<B>,
        persisted_events: Seq<DebankEvent>,
        debank_id: F,
        next: Replay<B>,
    ) -> bool {
        let recorded = next.results@.last();
        &&& next.block == self.block
        &&& next.header == self.header
        &&& next.transactions == self.transactions
        &&& next.tx_hashes == self.tx_hashes
        &&& next.tx_statuses == self.tx_statuses
        &&& next.tx_gas_used == self.tx_gas_used
        &&& next.parent_state_root == self.parent_state_root
        &&& next.results@ == self.results@.push(recorded)
        &&& recorded.traces == inspected.traces
        &&& recorded.error_traces == inspected.error_traces
        &&& reconciles(
            inspected.events@,
            inspected.error_events@,
            persisted_events,
            first_root(inspected.traces@ + inspected.error_traces@),
            error_events_eligible(
                self.tx_statuses@[self.results@.len() as int],
                inspected.error_traces@,
            ),
            self.next_event_index as int,
            debank_id,
            recorded.events@,
            recorded.error_events@,
            next.next_event_index as int,
        )
    }

    /// Whether the log indices and the positions in the root trace fit into a `usize` even if every
    /// inspected log stands under the root and every receipt log goes there.
    pub open spec fn has_room_for(
        self,
        inspected: TransactionTraces<B>,
        persisted_events: Seq<DebankEvent>,
    ) -> bool {
        let root = first_root_place(inspected.traces@ + inspected.error_traces@);
        &&& self.next_event_index + persisted_events.len() <= usize::MAX
        &&& root.subtraces + inspected.events@.len() + inspected.error_events@.len()
            + persisted_events.len() <= usize::MAX
    }

    /// Tests whether the transaction that was just replayed can be recorded.
    pub fn positions_fit(
        &self,
        inspected: &TransactionTraces<B>,
        persisted_events: &Vec<DebankEvent>,
    ) -> (r: bool)
        ensures
            r == self.has_room_for(*inspected, persisted_events@),
            r ==> self.can_record(*inspected, persisted_events@),
    {
        let subtraces: usize = match find_root_trace(&inspected.traces, &inspected.error_traces) {
            Some(root) => root.subtraces,
            None => 0,
        };
        proof {
            let receipt = event_models(persisted_events@);
            let root = first_root_place(inspected.traces@ + inspected.error_traces@);
            lemma_root_positions_bounded(self.inspected(*inspected), receipt, root);
            inspected_logs_count(
                event_models(inspected.events@),
                event_models(inspected.error_events@),
                error_events_eligible(
                    self.tx_statuses@[self.current()],
                    inspected.error_traces@,
                ),
            );
        }
        let logs: u128 = inspected.events.len() as u128 + inspected.error_events.len() as u128;
        let receipt_logs: u128 = persisted_events.len() as u128;
        let last_index: u128 = self.next_event_index as u128 + receipt_logs;
        let last_position: u128 = subtraces as u128 + logs + receipt_logs;
        last_index <= usize::MAX as u128 && last_position <= usize::MAX as u128
    }

    /// The index of the transaction to replay next, if there is one.
    pub fn next_transaction(&self) -> (r: Option<usize>)
        ensures
            r == self.next(),
    {
        if self.results.len() < self.transactions.len() {
            Some(self.results.len())
        } else {
            None
        }
    }

    /// The block whose state the replay starts from.
    pub fn parent_hash(&self) -> (r: B256)
        ensures
            r == self.header.parent_hash,
    {
        self.header.parent_hash
    }

    /// The block that is replayed.
    pub fn block_hash(&self) -> (r: B256)
        ensures
            r == self.header.hash,
    {
        self.header.hash
    }

    /// Aligns the records of native frames with the traced calls of the transaction that was just
    /// replayed.
    pub fn align(
        &self,
        arena: &mut CallTraceArena,
        native_changes: Vec<(Address, NativeStorageWrites)>,
    ) -> (r: Result<Vec<(Address, NativeStorageWrites)>, TraceError>)
        requires
            self.wf(),
            self.results.len() < self.transactions.len(),
        ensures
            self.aligns(*old(arena), native_changes, r, *final(arena)),
    {
        let current = self.results.len();
        let trace_nodes = arena.nodes.len();
        let native_frames = native_changes.len();
        match align_native_storage_changes(arena, native_changes, self.tx_statuses[current]) {
            Some(aligned) => Ok(aligned),
            None => Err(
                TraceError::NativeInspectorMismatch {
                    transaction: self.tx_hashes[current],
                    trace_nodes,
                    native_frames,
                },
            ),
        }
    }

    /// Records the transaction that was just replayed. `inspected` is what was traced, with the
    /// logs that the inspector saw; `persisted_events` are the logs of the replayed receipt.
    pub fn record<F: Fn(&DebankEvent) -> String>(
        &mut self,
        inspected: TransactionTraces<B>,
        persisted_events: Option<Vec<DebankEvent>>,
        debank_id: F,
    ) -> (r: Result<(), TraceError>)
        requires
            old(self).wf(),
            old(self).results.len() < old(self).transactions.len(),
            persisted_events is Some ==> old(self).can_record(inspected, persisted_events->0@),
            forall|e: DebankEvent| call_requires(debank_id, (&e,)),
        ensures
            final(self).wf(),
            old(self).goes_on(inspected, persisted_events, debank_id, r, *final(self)),
    {
        let current = self.results.len();
        let persisted_events = match persisted_events {
            Some(events) => events,
            None => {
                return Err(
                    TraceError::MissingReplayedReceipt { transaction: self.tx_hashes[current] },
                );
            },
        };
        let ghost given = inspected;
        let ghost before = *self;
        let ghost persisted = event_models(persisted_events@);
        let TransactionTraces { traces, error_traces, events, error_events } = inspected;
        let root_trace = find_root_trace(&traces, &error_traces);
        let match_error_events = self.tx_statuses[current] && root_trace_misclassified(
            error_traces.as_slice(),
        );
        let ghost root = root_place(root_trace);
        let (events, error_events) = reconcile_persisted_events(
            events,
            error_events,
            persisted_events,
            root_trace,
            match_error_events,
            &mut self.next_event_index,
            debank_id,
        );
        let recorded = TransactionTraces { traces, error_traces, events, error_events };
        self.results.push(recorded);
        proof {
            lemma_recorded_logs(
                before.results@,
                recorded,
                before.inspected(given),
                persisted,
                root,
                debank_id,
            );
        }
        Ok(())
    }

    /// What the end of the replay yields: an error where gas or receipts differ from what the
    /// header says, gas first.
    pub open spec fn ends_with(
        self,
        gas_used: u64,
        receipts_root: B256,
        r: Result<AwaitStateDiff<B>, TraceError>,
    ) -> bool {
        if gas_used != self.header.gas_used {
            r == Err::<AwaitStateDiff<B>, _>(
                TraceError::GasMismatch {
                    block: self.header.number,
                    replayed_gas: gas_used,
                    header_gas: self.header.gas_used,
                },
            )
        } else if receipts_root != self.header.receipts_root {
            r == Err::<AwaitStateDiff<B>, _>(
                TraceError::ReceiptsRootMismatch {
                    block: self.header.number,
                    replayed_root: receipts_root,
                    header_root: self.header.receipts_root,
                },
            )
        } else {
            &&& r is Ok
            &&& r->Ok_0.block == self.block
            &&& r->Ok_0.header == self.header
            &&& r->Ok_0.transactions == self.transactions
            &&& r->Ok_0.tx_statuses == self.tx_statuses
            &&& r->Ok_0.parent_state_root == self.parent_state_root
            &&& r->Ok_0.results == self.results
        }
    }

    /// Ends the replay. `gas_used` and `receipts_root` are what the replay gave.
    pub fn finish_with_root(self, gas_used: u64, receipts_root: B256) -> (r: Result<
        AwaitStateDiff<B>,
        TraceError,
    >)
        requires
            self.wf(),
            self.results.len() == self.transactions.len(),
        ensures
            self.ends_with(gas_used, receipts_root, r),
    {
        if gas_used != self.header.gas_used {
            return Err(
                TraceError::GasMismatch {
                    block: self.header.number,
                    replayed_gas: gas_used,
                    header_gas: self.header.gas_used,
                },
            );
        }
        if receipts_root != self.header.receipts_root {
            return Err(
                TraceError::ReceiptsRootMismatch {
                    block: self.header.number,
                    replayed_root: receipts_root,
                    header_root: self.header.receipts_root,
                },
            );
        }
        Ok(
            AwaitStateDiff {
                block: self.block,
                header: self.header,
                transactions: self.transactions,
                tx_statuses: self.tx_statuses,
                parent_state_root: self.parent_state_root,
                results: self.results,
            },
        )
    }

    /// Ends the replay. `gas_used` is what the replay gave; `receipts` are the receipts that it
    /// gave, with their blooms, each in its encoded form.
    pub fn finish(self, gas_used: u64, receipts: &Vec<Bytes>) -> (r: Result<
        AwaitStateDiff<B>,
        TraceError,
    >)
        requires
            self.wf(),
            self.results.len() == self.transactions.len(),
        ensures
            self.ends_with(
                gas_used,
                hash_of(ordered_trie_root_of(byte_strings(receipts@))),
                r,
            ),
            hash_of(ordered_trie_root_of(byte_strings(receipts@)))@ == ordered_trie_root_of(
                byte_strings(receipts@),
            ),
    {
        let receipts_root = ordered_trie_root(receipts);
        proof {
            hash_of_its_bytes(receipts_root);
        }
        self.finish_with_root(gas_used, receipts_root)
    }
}

proof fn lemma_logs_before_prefix<B>(
    results: Seq<TransactionTraces<B>>,
    more: TransactionTraces<B>,
    n: int,
)
    requires
        n <= results.len(),
    ensures
        logs_before(results.push(more), n) == logs_before(results, n),
    decreases n,
{
    if n > 0 {
        lemma_logs_before_prefix(results, more, n - 1);
    }
}

/// A reconciled transaction continues the numbering of the block.
proof fn lemma_recorded_logs<B, F: Fn(&DebankEvent) -> String>(
    results: Seq<TransactionTraces<B>>,
    recorded: TransactionTraces<B>,
    logs: Seq<CandidateModel>,
    receipt: Seq<EventModel>,
    root: RootPlace,
    debank_id: F,
)
    requires
        logs_numbered(results),
        is_reconciled(
            logs,
            receipt,
            root,
            logs_before(results, results.len() as int),
            debank_id,
            event_models(recorded.events@),
            event_models(recorded.error_events@),
        ),
    ensures
        logs_numbered(results.push(recorded)),
        logs_before(results.push(recorded), results.len() + 1int) == logs_before(
            results,
            results.len() as int,
        ) + receipt.len(),
{
    let now = results.push(recorded);
    lemma_logs_before_prefix(results, recorded, results.len() as int);
    assert forall|k: int, j: int|
        #![trigger now[k].events@[j]]
        0 <= k < now.len() && 0 <= j < now[k].events@.len() implies now[k].events@[j].idx
        == logs_before(now, k) + j by {
        lemma_logs_before_prefix(results, recorded, k);
        if k < results.len() {
            assert(now[k] == results[k]);
            assert(results[k].events@[j].idx == logs_before(results, k) + j);
        } else {
            let out = event_models(recorded.events@)[j];
            assert(out == recorded.events@[j]@);
            receipt_logs_keep_payload_and_log_index(
                logs,
                receipt,
                root,
                logs_before(results, results.len() as int),
                debank_id,
                j,
                out,
            );
        }
    }
}

/// Whether `digest` is that of the state diff.
pub open spec fn is_digest(summary: StateDiffSummary, digest: StateDiffDigest) -> bool {
    &&& digest.hash@ == keccak256_of(summary.encoded@)
    &&& digest.new_accounts == summary.new_accounts
    &&& digest.deleted_accounts == summary.deleted_accounts
    &&& digest.storage_diffs == summary.storage_diffs
    &&& digest.new_codes == summary.new_codes
}

/// Hashes a state diff for an error message.
pub fn state_diff_digest(summary: &StateDiffSummary) -> (r: StateDiffDigest)
    ensures
        is_digest(*summary, r),
{
    StateDiffDigest {
        hash: keccak256(summary.encoded.as_slice()),
        new_accounts: summary.new_accounts,
        deleted_accounts: summary.deleted_accounts,
        storage_diffs: summary.storage_diffs,
        new_codes: summary.new_codes,
    }
}

impl<B> AwaitStateDiff<B> {
    /// Takes the comparison of the state diffs and the contracts whose storage changed, and puts
    /// the block file together.
    pub fn receive_state_diff(
        self,
        outcome: StateDiffOutcome,
        storage_contracts: Vec<Address>,
    ) -> (r: Result<DebankOutPut<B>, TraceError>)
        ensures
            self.goes_on(outcome, storage_contracts, r),
    {
        match outcome {
            StateDiffOutcome::Failed(cause) => Err(
                TraceError::CanonicalStateDiff { block: self.header.number, cause },
            ),
            StateDiffOutcome::Different { replayed, canonical } => Err(
                TraceError::StateDiffMismatch {
                    block: self.header.number,
                    replayed: state_diff_digest(&replayed),
                    canonical: state_diff_digest(&canonical),
                },
            ),
            StateDiffOutcome::Equal => {
                let block_file = BlockFile {
                    block: self.block,
                    transactions: self.transactions,
                    traces: Vec::new(),
                    events: Vec::new(),
                    error_traces: Vec::new(),
                    error_events: Vec::new(),
                    storage_contracts,
                };
                let ghost n = self.results@.len() as int;
                let block_file = add_transactions(block_file, self.results, &self.tx_statuses);
                assert(block_file.traces@ =~= block_traces(self.tx_statuses@, self.results@, n));
                assert(block_file.error_traces@ =~= block_error_traces(
                    self.tx_statuses@,
                    self.results@,
                    n,
                ));
                assert(block_file.events@ =~= block_events(self.tx_statuses@, self.results@, n));
                assert(block_file.error_events@ =~= block_error_events(
                    self.tx_statuses@,
                    self.results@,
                    n,
                ));
                let state_root = self.header.state_root;
                Ok(
                    DebankOutPut {
                        block_file,
                        header: self.header,
                        state_diff_hash: state_root,
                        state_diff_parent_hash: Some(self.parent_state_root),
                    },
                )
            },
        }
    }

    /// What the comparison of the state diffs leads to.
    pub open spec fn goes_on(
        self,
        outcome: StateDiffOutcome,
        storage_contracts: Vec<Address>,
        r: Result<DebankOutPut<B>, TraceError>,
    ) -> bool {
        match outcome {
            StateDiffOutcome::Failed(cause) => r == Err::<DebankOutPut<B>, _>(
                TraceError::CanonicalStateDiff { block: self.header.number, cause },
            ),
            StateDiffOutcome::Different { replayed, canonical } => match r {
                Err(
                    TraceError::StateDiffMismatch { block, replayed: was, canonical: expected },
                ) => {
                    &&& block == self.header.number
                    &&& is_digest(replayed, was)
                    &&& is_digest(canonical, expected)
                },
                _ => false,
            },
            StateDiffOutcome::Equal => {
                &&& r is Ok
                &&& self.is_output(storage_contracts, r->Ok_0)
            },
        }
    }

    /// Whether `out` is what tracing this block yields.
    pub open spec fn is_output(self, storage_contracts: Vec<Address>, out: DebankOutPut<B>) -> bool {
        let n = self.results@.len() as int;
        &&& out.block_file.block == self.block
        &&& out.block_file.transactions == self.transactions
        &&& out.block_file.traces@ == block_traces(self.tx_statuses@, self.results@, n)
        &&& out.block_file.error_traces@ == block_error_traces(self.tx_statuses@, self.results@, n)
        &&& out.block_file.events@ == block_events(self.tx_statuses@, self.results@, n)
        &&& out.block_file.error_events@ == block_error_events(self.tx_statuses@, self.results@, n)
        &&& out.block_file.storage_contracts == storage_contracts
        &&& out.header == self.header
        &&& out.state_diff_hash == self.header.state_root
        &&& out.state_diff_parent_hash == Some(self.parent_state_root)
    }
}

} // verus!
