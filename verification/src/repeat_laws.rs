//! Tracing a block twice gives the same block file.
use vstd::prelude::*;

use crate::assemble::{
    block_error_events, block_error_traces, block_events, block_traces, error_events_of,
    events_of, succeeded, TransactionTraces,
};
use crate::block::{is_rpc_header, BlockHeaderInfo, BlockId, BlockInfo, DebankBlock, RpcHeader};
use crate::candidates::CandidateModel;
use crate::event::{event_models, DebankEvent, EventModel};
use crate::outside::big_endian;
use crate::primitives::{address_of_its_bytes, Address, B256, U256};
use crate::reconcile::{is_receipt_event, is_reconciled};
use crate::session::{
    AwaitParent, AwaitReceipts, AwaitStateDiff, DebankOutPut, GenesisBlock, Replay,
};
use crate::trace::{first_root_place, DebankTrace, RootPlace};
use crate::transaction::{
    is_blockfile_call, is_debank_transaction, DebankTransaction, ReceiptInfo, TempoCall,
    TransactionInfo,
};

verus! {

/// Whether events of equal content get equal identifiers.
pub open spec fn one_id_per_content<F: Fn(&DebankEvent) -> String>(debank_id: F) -> bool {
    forall|e1: DebankEvent, t1: String, e2: DebankEvent, t2: String|
        #![trigger call_ensures(debank_id, (&e1,), t1), call_ensures(debank_id, (&e2,), t2)]
        call_ensures(debank_id, (&e1,), t1) && call_ensures(debank_id, (&e2,), t2) && e1@ == e2@
            ==> t1@ == t2@
}

/// Reconciling the same logs with the same receipt gives the same events and error events.
pub proof fn reconciling_twice_gives_the_same<F: Fn(&DebankEvent) -> String>(
    candidates: Seq<CandidateModel>,
    receipt: Seq<EventModel>,
    root: RootPlace,
    start: int,
    debank_id: F,
    a: (Seq<EventModel>, Seq<EventModel>),
    b: (Seq<EventModel>, Seq<EventModel>),
)
    requires
        one_id_per_content(debank_id),
        is_reconciled(candidates, receipt, root, start, debank_id, a.0, a.1),
        is_reconciled(candidates, receipt, root, start, debank_id, b.0, b.1),
    ensures
        a == b,
{
    assert forall|j: int| 0 <= j < a.0.len() implies a.0[j] == b.0[j] by {
        assert(is_receipt_event(candidates, receipt, root, start, debank_id, j, a.0[j]));
        assert(is_receipt_event(candidates, receipt, root, start, debank_id, j, b.0[j]));
    }
    assert(a.0 =~= b.0);
}

/// Whether two calls say the same.
pub open spec fn same_call(a: TempoCall, b: TempoCall) -> bool {
    &&& a.to == b.to
    &&& a.value == b.value
    &&& a.input@ == b.input@
}

/// Whether two lists of calls say the same.
pub open spec fn same_calls(a: Option<Vec<TempoCall>>, b: Option<Vec<TempoCall>>) -> bool {
    match (a, b) {
        (Some(x), Some(y)) => {
            &&& x@.len() == y@.len()
            &&& forall|i: int| 0 <= i < x@.len() ==> same_call(#[trigger] x@[i], #[trigger] y@[i])
        },
        (None, None) => true,
        _ => false,
    }
}

/// Whether two texts are the same.
pub open spec fn same_text(a: Option<String>, b: Option<String>) -> bool {
    match (a, b) {
        (Some(x), Some(y)) => x@ == y@,
        (None, None) => true,
        _ => false,
    }
}

/// Whether two transactions of a block file say the same.
pub open spec fn same_transaction(a: DebankTransaction, b: DebankTransaction) -> bool {
    &&& a.id@ == b.id@
    &&& a.from == b.from
    &&& a.to == b.to
    &&& a.gas_limit == b.gas_limit
    &&& a.gas_price == b.gas_price
    &&& a.gas_used == b.gas_used
    &&& a.status == b.status
    &&& a.gas_fee_cap == b.gas_fee_cap
    &&& a.gas_tip_cap == b.gas_tip_cap
    &&& a.input@ == b.input@
    &&& a.nonce == b.nonce
    &&& a.transaction_index == b.transaction_index
    &&& a.value == b.value
    &&& a.chain_id == b.chain_id
    &&& same_calls(a.calls, b.calls)
    &&& a.fee_token == b.fee_token
    &&& a.nonce_key == b.nonce_key
    &&& a.valid_before == b.valid_before
    &&& a.valid_after == b.valid_after
    &&& same_text(a.signature_type, b.signature_type)
    &&& a.signature == b.signature
    &&& a.fee_payer_signature == b.fee_payer_signature
    &&& a.key_authorization == b.key_authorization
    &&& a.aa_authorization_list == b.aa_authorization_list
    &&& a.access_list == b.access_list
}

proof fn lemma_big_endian_injective(a: Seq<u8>, b: Seq<u8>)
    requires
        a.len() == b.len(),
        big_endian(a) == big_endian(b),
    ensures
        a == b,
    decreases a.len(),
{
    if a.len() > 0 {
        lemma_big_endian_injective(a.drop_last(), b.drop_last());
        assert(a =~= a.drop_last().push(a.last()));
        assert(b =~= b.drop_last().push(b.last()));
    } else {
        assert(a =~= b);
    }
}

/// An integer is determined by its value.
proof fn lemma_u256_of_value(a: U256, b: U256)
    requires
        big_endian(a@) == big_endian(b@),
    ensures
        a == b,
{
    lemma_big_endian_injective(a@, b@);
    assert forall|i: int| 0 <= i < 32 implies a.0[i] == b.0[i] by {
        assert(a@[i] == b@[i]);
    }
    assert(a.0 =~= b.0);
}

/// A transaction and its receipt have one blockfile form.
pub proof fn a_transaction_is_written_the_same_way(
    tx: TransactionInfo,
    receipt: ReceiptInfo,
    a: DebankTransaction,
    b: DebankTransaction,
)
    requires
        is_debank_transaction(tx, receipt, a),
        is_debank_transaction(tx, receipt, b),
    ensures
        same_transaction(a, b),
{
    match tx.aa {
        None => {
            assert(a.aa_fields() == b.aa_fields());
            assert(a.aa_fields().signature_type == b.aa_fields().signature_type);
        },
        Some(aa) => {
            if a.fee_token is Some && b.fee_token is Some {
                address_of_its_bytes(a.fee_token->0);
                address_of_its_bytes(b.fee_token->0);
            }
            if a.nonce_key is Some && b.nonce_key is Some {
                lemma_u256_of_value(a.nonce_key->0, b.nonce_key->0);
            }
            assert(a.fee_token == b.fee_token);
            assert(a.nonce_key == b.nonce_key);
            assert(a.input@ =~= b.input@);
            let fa = a.aa_fields();
            let fb = b.aa_fields();
            assert(fa.chain_id == fb.chain_id);
            let x = a.calls->0@;
            let y = b.calls->0@;
            assert forall|i: int| 0 <= i < x.len() implies same_call(
                #[trigger] x[i],
                #[trigger] y[i],
            ) by {
                let call = aa.calls@[i];
                assert(is_blockfile_call(call, x[i]));
                assert(is_blockfile_call(call, y[i]));
            }
        },
    }
}

/// A header is handed out in one way.
pub proof fn a_header_is_handed_out_the_same_way(
    header: BlockHeaderInfo,
    a: RpcHeader,
    b: RpcHeader,
)
    requires
        is_rpc_header(header, a),
        is_rpc_header(header, b),
    ensures
        a == b,
{
    if header.nonce is None {
        assert forall|i: int| 0 <= i < 8 implies a.nonce[i] == b.nonce[i] by {
            assert(a.nonce@[i] == b.nonce@[i]);
        }
        assert(a.nonce =~= b.nonce);
    }
}

/// Whether two blocks of a block file say the same but for the time at which tracing started.
pub open spec fn same_block(a: DebankBlock, b: DebankBlock) -> bool {
    a == (DebankBlock { process_start_timestamp: a.process_start_timestamp, ..b })
}

/// Whether two lists of transactions say the same.
pub open spec fn same_transactions(a: Seq<DebankTransaction>, b: Seq<DebankTransaction>) -> bool {
    &&& a.len() == b.len()
    &&& forall|i: int| 0 <= i < a.len() ==> same_transaction(#[trigger] a[i], #[trigger] b[i])
}

/// Whether two recorded transactions say the same.
pub open spec fn same_recorded<B>(a: TransactionTraces<B>, b: TransactionTraces<B>) -> bool {
    &&& a.traces == b.traces
    &&& a.error_traces == b.error_traces
    &&& event_models(a.events@) == event_models(b.events@)
    &&& event_models(a.error_events@) == event_models(b.error_events@)
}

/// Whether two replays stand at the same point and say the same so far.
pub open spec fn same_replay<B>(a: Replay<B>, b: Replay<B>) -> bool {
    &&& same_block(a.block, b.block)
    &&& a.header == b.header
    &&& same_transactions(a.transactions@, b.transactions@)
    &&& a.tx_statuses@ == b.tx_statuses@
    &&& a.parent_state_root == b.parent_state_root
    &&& a.next_event_index == b.next_event_index
    &&& a.results@.len() == b.results@.len()
    &&& forall|k: int|
        0 <= k < a.results@.len() ==> same_recorded(
            #[trigger] a.results@[k],
            #[trigger] b.results@[k],
        )
}

/// Recording the same transaction in two replays that say the same keeps them the same.
pub proof fn recording_twice_gives_the_same<B, F: Fn(&DebankEvent) -> String>(
    a: Replay<B>,
    b: Replay<B>,
    inspected: TransactionTraces<B>,
    persisted_events: Seq<DebankEvent>,
    debank_id: F,
    next_a: Replay<B>,
    next_b: Replay<B>,
)
    requires
        one_id_per_content(debank_id),
        same_replay(a, b),
        a.is_followed_by(inspected, persisted_events, debank_id, next_a),
        b.is_followed_by(inspected, persisted_events, debank_id, next_b),
    ensures
        same_replay(next_a, next_b),
{
    let ra = next_a.results@.last();
    let rb = next_b.results@.last();
    reconciling_twice_gives_the_same(
        a.inspected(inspected),
        event_models(persisted_events),
        first_root_place(inspected.traces@ + inspected.error_traces@),
        a.next_event_index as int,
        debank_id,
        (event_models(ra.events@), event_models(ra.error_events@)),
        (event_models(rb.events@), event_models(rb.error_events@)),
    );
    assert forall|k: int| 0 <= k < next_a.results@.len() implies same_recorded(
        #[trigger] next_a.results@[k],
        #[trigger] next_b.results@[k],
    ) by {
        if k < a.results@.len() {
            assert(next_a.results@[k] == a.results@[k]);
            assert(next_b.results@[k] == b.results@[k]);
        }
    }
}

/// Whether two outputs agree in everything but the time at which tracing started and the contracts
/// whose storage changed, which come in no fixed order.
pub open spec fn same_output<B>(a: DebankOutPut<B>, b: DebankOutPut<B>) -> bool {
    &&& same_block(a.block_file.block, b.block_file.block)
    &&& same_transactions(a.block_file.transactions@, b.block_file.transactions@)
    &&& a.block_file.traces@ == b.block_file.traces@
    &&& a.block_file.error_traces@ == b.block_file.error_traces@
    &&& event_models(a.block_file.events@) == event_models(b.block_file.events@)
    &&& event_models(a.block_file.error_events@) == event_models(b.block_file.error_events@)
    &&& a.header == b.header
    &&& a.state_diff_hash == b.state_diff_hash
    &&& a.state_diff_parent_hash == b.state_diff_parent_hash
}

proof fn lemma_event_models_add(a: Seq<DebankEvent>, b: Seq<DebankEvent>)
    ensures
        event_models(a + b) == event_models(a) + event_models(b),
{
    assert(event_models(a + b) =~= event_models(a) + event_models(b));
}

proof fn lemma_same_block_file<B>(
    statuses: Seq<bool>,
    a: Seq<TransactionTraces<B>>,
    b: Seq<TransactionTraces<B>>,
    n: int,
)
    requires
        n <= a.len(),
        a.len() == b.len(),
        forall|k: int| 0 <= k < a.len() ==> same_recorded(#[trigger] a[k], #[trigger] b[k]),
    ensures
        block_traces(statuses, a, n) == block_traces(statuses, b, n),
        block_error_traces(statuses, a, n) == block_error_traces(statuses, b, n),
        event_models(block_events(statuses, a, n)) == event_models(block_events(statuses, b, n)),
        event_models(block_error_events(statuses, a, n)) == event_models(
            block_error_events(statuses, b, n),
        ),
    decreases n,
{
    if n > 0 {
        lemma_same_block_file(statuses, a, b, n - 1);
        let success = succeeded(statuses, n - 1);
        let x = a[n - 1];
        let y = b[n - 1];
        assert(same_recorded(x, y));
        lemma_event_models_add(x.error_events@, x.events@);
        lemma_event_models_add(y.error_events@, y.events@);
        lemma_event_models_add(block_events(statuses, a, n - 1), events_of(success, x));
        lemma_event_models_add(block_events(statuses, b, n - 1), events_of(success, y));
        lemma_event_models_add(block_error_events(statuses, a, n - 1), error_events_of(success, x));
        lemma_event_models_add(block_error_events(statuses, b, n - 1), error_events_of(success, y));
    }
}

/// What tracing a block reads: the block, its receipts, the state root of its parent, and what
/// replaying it gave.
pub struct ChainData<B> {
    pub info: BlockInfo,
    pub receipts: Seq<ReceiptInfo>,
    pub parent_state_root: B256,
    /// What was traced of each transaction.
    pub inspected: Seq<TransactionTraces<B>>,
    /// The logs in the replayed receipt of each transaction.
    pub persisted: Seq<Seq<DebankEvent>>,
    pub gas_used: u64,
    pub receipts_root: B256,
}

/// The steps of tracing a block, from its look-up to the block file.
pub struct BlockRun<B> {
    /// The block as the request named it.
    pub block_id: BlockId,
    /// When tracing started.
    pub now_millis: u128,
    pub opened: AwaitReceipts,
    pub next: AwaitParent,
    /// The replay before each transaction, and behind the last one.
    pub replays: Seq<Replay<B>>,
    pub stage: AwaitStateDiff<B>,
    /// The contracts whose storage changed.
    pub storage_contracts: Vec<Address>,
    pub out: DebankOutPut<B>,
}

impl<B> BlockRun<B> {
    /// Whether transaction `k` is recorded as it should be.
    pub open spec fn records<F: Fn(&DebankEvent) -> String>(
        self,
        data: ChainData<B>,
        debank_id: F,
        k: int,
    ) -> bool {
        self.replays[k].is_followed_by(
            data.inspected[k],
            data.persisted[k],
            debank_id,
            self.replays[k + 1],
        )
    }

    /// Whether these are the steps of tracing the block that `data` describes.
    pub open spec fn traces<F: Fn(&DebankEvent) -> String>(
        self,
        data: ChainData<B>,
        debank_id: F,
    ) -> bool {
        let n = data.info.transactions@.len() as int;
        &&& self.opened.is_opened(self.block_id, data.info, self.now_millis)
        &&& data.receipts.len() == n
        &&& self.opened.is_followed_by(data.receipts, self.next)
        &&& self.next.is_followed_by(data.parent_state_root, self.replays[0])
        &&& self.replays.len() == n + 1
        &&& forall|k: int| 0 <= k < n ==> #[trigger] self.records(data, debank_id, k)
        &&& self.replays[n].ends_with(data.gas_used, data.receipts_root, Ok(self.stage))
        &&& self.stage.is_output(self.storage_contracts, self.out)
    }
}

proof fn lemma_same_start<B, F: Fn(&DebankEvent) -> String>(
    data: ChainData<B>,
    debank_id: F,
    a: BlockRun<B>,
    b: BlockRun<B>,
)
    requires
        a.traces(data, debank_id),
        b.traces(data, debank_id),
    ensures
        same_replay(a.replays[0], b.replays[0]),
{
    a_header_is_handed_out_the_same_way(data.info.header, a.opened.header, b.opened.header);
    let x = a.next.transactions@;
    let y = b.next.transactions@;
    assert forall|i: int| 0 <= i < x.len() implies same_transaction(
        #[trigger] x[i],
        #[trigger] y[i],
    ) by {
        a_transaction_is_written_the_same_way(
            data.info.transactions@[i],
            data.receipts[i],
            x[i],
            y[i],
        );
    }
    assert(a.next.tx_statuses@ =~= b.next.tx_statuses@);
}

proof fn lemma_same_replays<B, F: Fn(&DebankEvent) -> String>(
    data: ChainData<B>,
    debank_id: F,
    a: BlockRun<B>,
    b: BlockRun<B>,
    k: int,
)
    requires
        one_id_per_content(debank_id),
        a.traces(data, debank_id),
        b.traces(data, debank_id),
        0 <= k <= data.info.transactions@.len(),
    ensures
        same_replay(a.replays[k], b.replays[k]),
    decreases k,
{
    if k == 0 {
        lemma_same_start(data, debank_id, a, b);
    } else {
        lemma_same_replays(data, debank_id, a, b, k - 1);
        assert(a.records(data, debank_id, k - 1));
        assert(b.records(data, debank_id, k - 1));
        recording_twice_gives_the_same(
            a.replays[k - 1],
            b.replays[k - 1],
            data.inspected[k - 1],
            data.persisted[k - 1],
            debank_id,
            a.replays[k],
            b.replays[k],
        );
    }
}

/// Tracing a block twice over the same chain data, however each request names it, gives the same
/// transactions, traces, events, header and state roots. Only the time at which tracing started
/// and the order of the contracts whose storage changed may differ.
pub proof fn tracing_twice_gives_the_same<B, F: Fn(&DebankEvent) -> String>(
    data: ChainData<B>,
    debank_id: F,
    a: BlockRun<B>,
    b: BlockRun<B>,
)
    requires
        one_id_per_content(debank_id),
        a.traces(data, debank_id),
        b.traces(data, debank_id),
    ensures
        same_output(a.out, b.out),
        a.out.block_file.storage_contracts == a.storage_contracts,
        b.out.block_file.storage_contracts == b.storage_contracts,
{
    let n = data.info.transactions@.len() as int;
    lemma_same_replays(data, debank_id, a, b, n);
    lemma_same_block_file(
        a.stage.tx_statuses@,
        a.stage.results@,
        b.stage.results@,
        a.stage.results@.len() as int,
    );
}

/// The same of the first block of the chain, whose content the chain specification gives.
pub proof fn tracing_the_first_block_twice_gives_the_same<B>(
    info: BlockInfo,
    now_a: u128,
    now_b: u128,
    a: GenesisBlock,
    b: GenesisBlock,
    transactions: Vec<DebankTransaction>,
    traces: Vec<DebankTrace<B>>,
    storage_contracts: Vec<Address>,
    out_a: DebankOutPut<B>,
    out_b: DebankOutPut<B>,
)
    requires
        a.is_opened(info, now_a),
        b.is_opened(info, now_b),
        a.is_output(transactions, traces, storage_contracts, out_a),
        b.is_output(transactions, traces, storage_contracts, out_b),
    ensures
        same_output(out_a, out_b),
        out_a.block_file.storage_contracts == out_b.block_file.storage_contracts,
{
    a_header_is_handed_out_the_same_way(info.header, a.header, b.header);
    assert(out_a.block_file.error_traces@ =~= out_b.block_file.error_traces@);
    assert(event_models(out_a.block_file.events@) =~= event_models(out_b.block_file.events@));
    assert(event_models(out_a.block_file.error_events@) =~= event_models(
        out_b.block_file.error_events@,
    ));
    assert forall|i: int| 0 <= i < transactions@.len() implies same_transaction(
        #[trigger] transactions@[i],
        transactions@[i],
    ) by {}
}

} // verus!
