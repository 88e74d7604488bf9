//! Puts the traces and events of all transactions of a block into the block file.
use vstd::prelude::*;

use crate::block::DebankBlock;
use crate::event::DebankEvent;
use crate::primitives::Address;
use crate::trace::{has_root, root_trace_misclassified, DebankTrace};
use crate::transaction::DebankTransaction;

verus! {

/// The traces and events of one transaction.
#[derive(Debug)]
pub struct TransactionTraces<B> {
    /// Calls that succeeded.
    pub traces: Vec<DebankTrace<B>>,
    /// Calls that failed.
    pub error_traces: Vec<DebankTrace<B>>,
    /// Logs of the receipt.
    pub events: Vec<DebankEvent>,
    /// Logs that are in no receipt.
    pub error_events: Vec<DebankEvent>,
}

/// The block file.
#[derive(Debug)]
pub struct BlockFile<B> {
    pub block: DebankBlock,
    pub transactions: Vec<DebankTransaction>,
    pub traces: Vec<DebankTrace<B>>,
    pub events: Vec<DebankEvent>,
    pub error_traces: Vec<DebankTrace<B>>,
    pub error_events: Vec<DebankEvent>,
    pub storage_contracts: Vec<Address>,
}

/// The traces that a transaction adds to the block file.
///
/// A failed transaction adds none. A successful one whose root trace stands among the failed calls
/// is one whose success flags are unreliable; it adds all its traces. Any other keeps the success
/// of each call.
pub open spec fn traces_of<B>(success: bool, t: TransactionTraces<B>) -> Seq<DebankTrace<B>> {
    if !success {
        Seq::empty()
    } else if has_root(t.error_traces@) {
        t.traces@ + t.error_traces@
    } else {
        t.traces@
    }
}

/// The failed traces that a transaction adds to the block file.
pub open spec fn error_traces_of<B>(success: bool, t: TransactionTraces<B>) -> Seq<DebankTrace<B>> {
    if !success {
        t.error_traces@ + t.traces@
    } else if has_root(t.error_traces@) {
        Seq::empty()
    } else {
        t.error_traces@
    }
}

/// The events that a transaction adds to the block file: its receipt logs, if it succeeded.
pub open spec fn events_of<B>(success: bool, t: TransactionTraces<B>) -> Seq<DebankEvent> {
    if success {
        t.events@
    } else {
        Seq::empty()
    }
}

/// The error events that a transaction adds to the block file: its inspector-only logs, and the
/// receipt logs as well if it failed.
pub open spec fn error_events_of<B>(success: bool, t: TransactionTraces<B>) -> Seq<DebankEvent> {
    if success {
        t.error_events@
    } else {
        t.error_events@ + t.events@
    }
}

/// Whether transaction `k` succeeded, by its receipt.
pub open spec fn succeeded(statuses: Seq<bool>, k: int) -> bool {
    if 0 <= k < statuses.len() {
        statuses[k]
    } else {
        true
    }
}

/// The traces that the first `n` transactions add.
pub open spec fn block_traces<B>(
    statuses: Seq<bool>,
    results: Seq<TransactionTraces<B>>,
    n: int,
) -> Seq<DebankTrace<B>>
    decreases n,
{
    if n <= 0 {
        Seq::empty()
    } else {
        block_traces(statuses, results, n - 1) + traces_of(
            succeeded(statuses, n - 1),
            results[n - 1],
        )
    }
}

/// The failed traces that the first `n` transactions add.
pub open spec fn block_error_traces<B>(
    statuses: Seq<bool>,
    results: Seq<TransactionTraces<B>>,
    n: int,
) -> Seq<DebankTrace<B>>
    decreases n,
{
    if n <= 0 {
        Seq::empty()
    } else {
        block_error_traces(statuses, results, n - 1) + error_traces_of(
            succeeded(statuses, n - 1),
            results[n - 1],
        )
    }
}

/// The events that the first `n` transactions add.
pub open spec fn block_events<B>(
    statuses: Seq<bool>,
    results: Seq<TransactionTraces<B>>,
    n: int,
) -> Seq<DebankEvent>
    decreases n,
{
    if n <= 0 {
        Seq::empty()
    } else {
        block_events(statuses, results, n - 1) + events_of(
            succeeded(statuses, n - 1),
            results[n - 1],
        )
    }
}

/// The error events that the first `n` transactions add.
pub open spec fn block_error_events<B>(
    statuses: Seq<bool>,
    results: Seq<TransactionTraces<B>>,
    n: int,
) -> Seq<DebankEvent>
    decreases n,
{
    if n <= 0 {
        Seq::empty()
    } else {
        block_error_events(statuses, results, n - 1) + error_events_of(
            succeeded(statuses, n - 1),
            results[n - 1],
        )
    }
}

/// Adds the traces and events of one transaction to the block file.
pub fn add_transaction<B>(
    block_file: &mut BlockFile<B>,
    result: TransactionTraces<B>,
    tx_success: bool,
)
    ensures
        final(block_file).block == old(block_file).block,
        final(block_file).transactions == old(block_file).transactions,
        final(block_file).storage_contracts == old(block_file).storage_contracts,
        final(block_file).traces@ == old(block_file).traces@ + traces_of(tx_success, result),
        final(block_file).error_traces@ == old(block_file).error_traces@ + error_traces_of(
            tx_success,
            result,
        ),
        final(block_file).events@ == old(block_file).events@ + events_of(tx_success, result),
        final(block_file).error_events@ == old(block_file).error_events@ + error_events_of(
            tx_success,
            result,
        ),
{
    let mut result = result;
    let ghost given = result;
    if tx_success {
        let root_misclassified = root_trace_misclassified(result.error_traces.as_slice());
        if root_misclassified {
            // The success flags of the calls are unreliable, so merge the traces. Events were
            // already reconciled against the replayed receipt; inspector-only events must remain
            // in the error list.
            result.traces.append(&mut result.error_traces);
        } else {
            // Keep the classification of each call: reverted inner calls stay errors.
            block_file.error_traces.append(&mut result.error_traces);
        }
        block_file.error_events.append(&mut result.error_events);
        block_file.traces.append(&mut result.traces);
        block_file.events.append(&mut result.events);
    } else {
        result.error_traces.append(&mut result.traces);
        result.error_events.append(&mut result.events);
        block_file.error_traces.append(&mut result.error_traces);
        block_file.error_events.append(&mut result.error_events);
    }
    assert(block_file.traces@ =~= old(block_file).traces@ + traces_of(tx_success, given));
    assert(block_file.error_traces@ =~= old(block_file).error_traces@ + error_traces_of(
        tx_success,
        given,
    ));
    assert(block_file.events@ =~= old(block_file).events@ + events_of(tx_success, given));
}

/// Adds the traces and events of all transactions of the block to the block file. A transaction
/// without a receipt status counts as successful.
pub fn add_transactions<B>(
    block_file: BlockFile<B>,
    results: Vec<TransactionTraces<B>>,
    statuses: &Vec<bool>,
) -> (r: BlockFile<B>)
    ensures
        r.block == block_file.block,
        r.transactions == block_file.transactions,
        r.storage_contracts == block_file.storage_contracts,
        r.traces@ == block_file.traces@ + block_traces(
            statuses@,
            results@,
            results@.len() as int,
        ),
        r.error_traces@ == block_file.error_traces@ + block_error_traces(
            statuses@,
            results@,
            results@.len() as int,
        ),
        r.events@ == block_file.events@ + block_events(
            statuses@,
            results@,
            results@.len() as int,
        ),
        r.error_events@ == block_file.error_events@ + block_error_events(
            statuses@,
            results@,
            results@.len() as int,
        ),
{
    let ghost given = block_file;
    let ghost all = results@;
    assert(all.len() == results.len());
    let mut block_file = block_file;
    let mut idx: usize = 0;
    assert(block_file.traces@ =~= given.traces@ + block_traces(statuses@, all, 0));
    assert(block_file.error_traces@ =~= given.error_traces@ + block_error_traces(
        statuses@,
        all,
        0,
    ));
    assert(block_file.events@ =~= given.events@ + block_events(statuses@, all, 0));
    assert(block_file.error_events@ =~= given.error_events@ + block_error_events(
        statuses@,
        all,
        0,
    ));
    for result in iter: results.into_iter()
        invariant
            iter.seq() == all,
            all.len() <= usize::MAX,
            idx == iter.index(),
            block_file.block == given.block,
            block_file.transactions == given.transactions,
            block_file.storage_contracts == given.storage_contracts,
            block_file.traces@ == given.traces@ + block_traces(statuses@, all, idx as int),
            block_file.error_traces@ == given.error_traces@ + block_error_traces(
                statuses@,
                all,
                idx as int,
            ),
            block_file.events@ == given.events@ + block_events(statuses@, all, idx as int),
            block_file.error_events@ == given.error_events@ + block_error_events(
                statuses@,
                all,
                idx as int,
            ),
    {
        let tx_success = if idx < statuses.len() {
            statuses[idx]
        } else {
            true
        };
        let ghost before = block_file;
        add_transaction(&mut block_file, result, tx_success);
        proof {
            let done = idx + 1;
            assert(result == all[idx as int]);
            assert(block_file.traces@ =~= given.traces@ + block_traces(statuses@, all, done));
            assert(block_file.error_traces@ =~= given.error_traces@ + block_error_traces(
                statuses@,
                all,
                done,
            ));
            assert(block_file.events@ =~= given.events@ + block_events(statuses@, all, done));
            assert(block_file.error_events@ =~= given.error_events@ + block_error_events(
                statuses@,
                all,
                done,
            ));
        }
        idx += 1;
    }
    block_file
}

} // verus!
