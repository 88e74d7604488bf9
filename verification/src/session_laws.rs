//! What tracing a block keeps from its first step to its last.
use vstd::prelude::*;

use crate::assemble::block_events;
use crate::assemble_laws::block_events_follow_the_log_index;
use crate::block::{is_rpc_header, BlockId, BlockInfo};
use crate::primitives::{Address, B256};
use crate::session::{AwaitParent, AwaitReceipts, AwaitStateDiff, DebankOutPut, Replay};
use crate::transaction::{is_debank_transaction, ReceiptInfo};

verus! {

/// However the head of the chain moves while a block is traced, every lookup is of the block that
/// was opened or of its parent.
pub proof fn lookups_stay_with_the_opened_block<B>(
    info: BlockInfo,
    opened: AwaitReceipts,
    receipts: Seq<ReceiptInfo>,
    next: AwaitParent,
    replay: Replay<B>,
)
    requires
        is_rpc_header(info.header, opened.header),
        opened.is_followed_by(receipts, next),
        replay.header == next.header,
    ensures
        opened.header.hash == info.header.hash,
        next.header.parent_hash == info.header.parent_hash,
        replay.header.hash == info.header.hash,
        replay.header.parent_hash == info.header.parent_hash,
{
}

/// Every step that can still miss a header keeps the block as the request named it, so that what
/// is reported as missing is that block, not the one it was resolved to or its parent.
pub proof fn steps_keep_the_requested_block(
    block_id: BlockId,
    info: BlockInfo,
    now_millis: u128,
    opened: AwaitReceipts,
    receipts: Seq<ReceiptInfo>,
    next: AwaitParent,
)
    requires
        opened.is_opened(block_id, info, now_millis),
        opened.is_followed_by(receipts, next),
    ensures
        opened.block_id == block_id,
        next.block_id == block_id,
{
}

/// A block goes on to be written only if its replay gave the gas and the receipts that its header
/// says.
pub proof fn only_a_replay_that_fits_the_header_goes_on<B>(
    replay: Replay<B>,
    gas_used: u64,
    receipts_root: B256,
    stage: AwaitStateDiff<B>,
)
    requires
        replay.ends_with(gas_used, receipts_root, Ok(stage)),
    ensures
        gas_used == stage.header.gas_used,
        receipts_root == stage.header.receipts_root,
{
}

/// The block file holds every transaction of the block, in the order of the block, each made from
/// the transaction and its own receipt.
pub proof fn every_transaction_is_written_in_order<B>(
    opened: AwaitReceipts,
    receipts: Seq<ReceiptInfo>,
    next: AwaitParent,
    replay: Replay<B>,
    gas_used: u64,
    receipts_root: B256,
    stage: AwaitStateDiff<B>,
    storage_contracts: Vec<Address>,
    out: DebankOutPut<B>,
    i: int,
)
    requires
        receipts.len() == opened.transactions.len(),
        opened.is_followed_by(receipts, next),
        replay.transactions == next.transactions,
        replay.ends_with(gas_used, receipts_root, Ok(stage)),
        stage.is_output(storage_contracts, out),
        0 <= i < opened.transactions.len(),
    ensures
        out.block_file.transactions.len() == opened.transactions.len(),
        is_debank_transaction(
            opened.transactions@[i],
            receipts[i],
            out.block_file.transactions@[i],
        ),
{
    assert(out.block_file.transactions@[i] == next.transactions@[i]);
}

/// The events of a written block stand in the order of their log indices, and no log index reaches
/// the number of receipt logs of the block.
pub proof fn written_events_follow_the_log_index<B>(
    replay: Replay<B>,
    gas_used: u64,
    receipts_root: B256,
    stage: AwaitStateDiff<B>,
    storage_contracts: Vec<Address>,
    out: DebankOutPut<B>,
    i: int,
    j: int,
)
    requires
        replay.wf(),
        replay.ends_with(gas_used, receipts_root, Ok(stage)),
        stage.is_output(storage_contracts, out),
        0 <= i < j < out.block_file.events@.len(),
    ensures
        out.block_file.events@[i].idx < out.block_file.events@[j].idx < replay.next_event_index,
{
    assert(out.block_file.events@ == block_events(
        replay.tx_statuses@,
        replay.results@,
        replay.results@.len() as int,
    ));
    block_events_follow_the_log_index(replay.tx_statuses@, replay.results@, i, j);
}

} // verus!
