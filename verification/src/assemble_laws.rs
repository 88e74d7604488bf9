//! What putting the block file together keeps.
use vstd::prelude::*;

use crate::assemble::{
    block_error_events, block_error_traces, block_events, block_traces, error_events_of,
    error_traces_of, events_of, succeeded, traces_of, TransactionTraces,
};
use crate::event::DebankEvent;
use crate::session::{logs_before, logs_numbered};
use crate::trace::DebankTrace;

verus! {

/// All traces of the first `n` transactions, failed or not.
pub open spec fn all_traces<B>(results: Seq<TransactionTraces<B>>, n: int) -> Seq<DebankTrace<B>>
    decreases n,
{
    if n <= 0 {
        Seq::empty()
    } else {
        all_traces(results, n - 1) + results[n - 1].traces@ + results[n - 1].error_traces@
    }
}

/// All events of the first `n` transactions, in a receipt or not.
pub open spec fn all_events<B>(results: Seq<TransactionTraces<B>>, n: int) -> Seq<DebankEvent>
    decreases n,
{
    if n <= 0 {
        Seq::empty()
    } else {
        all_events(results, n - 1) + results[n - 1].events@ + results[n - 1].error_events@
    }
}

/// Every trace of the block stands exactly once in the block file, either among the traces or among
/// the failed ones.
pub proof fn every_trace_is_kept_once<B>(
    statuses: Seq<bool>,
    results: Seq<TransactionTraces<B>>,
    n: int,
)
    ensures
        block_traces(statuses, results, n).to_multiset().add(
            block_error_traces(statuses, results, n).to_multiset(),
        ) == all_traces(results, n).to_multiset(),
    decreases n,
{
    broadcast use vstd::seq_lib::group_to_multiset_ensures;

    if n > 0 {
        every_trace_is_kept_once(statuses, results, n - 1);
        let success = succeeded(statuses, n - 1);
        let t = results[n - 1];
        let ok = traces_of(success, t);
        let failed = error_traces_of(success, t);
        vstd::seq_lib::lemma_multiset_commutative(t.traces@, t.error_traces@);
        vstd::seq_lib::lemma_multiset_commutative(t.error_traces@, t.traces@);
        vstd::seq_lib::lemma_multiset_commutative(block_traces(statuses, results, n - 1), ok);
        vstd::seq_lib::lemma_multiset_commutative(
            block_error_traces(statuses, results, n - 1),
            failed,
        );
        vstd::seq_lib::lemma_multiset_commutative(all_traces(results, n - 1), t.traces@);
        vstd::seq_lib::lemma_multiset_commutative(
            all_traces(results, n - 1) + t.traces@,
            t.error_traces@,
        );
        assert(block_traces(statuses, results, n).to_multiset().add(
            block_error_traces(statuses, results, n).to_multiset(),
        ) =~= all_traces(results, n).to_multiset());
    } else {
        assert(block_traces(statuses, results, n).to_multiset().add(
            block_error_traces(statuses, results, n).to_multiset(),
        ) =~= all_traces(results, n).to_multiset());
    }
}

/// Every event of the block stands exactly once in the block file, either among the events or among
/// the error events.
pub proof fn every_event_is_kept_once<B>(
    statuses: Seq<bool>,
    results: Seq<TransactionTraces<B>>,
    n: int,
)
    ensures
        block_events(statuses, results, n).to_multiset().add(
            block_error_events(statuses, results, n).to_multiset(),
        ) == all_events(results, n).to_multiset(),
    decreases n,
{
    broadcast use vstd::seq_lib::group_to_multiset_ensures;

    if n > 0 {
        every_event_is_kept_once(statuses, results, n - 1);
        let success = succeeded(statuses, n - 1);
        let t = results[n - 1];
        let ok = events_of(success, t);
        let failed = error_events_of(success, t);
        vstd::seq_lib::lemma_multiset_commutative(t.events@, t.error_events@);
        vstd::seq_lib::lemma_multiset_commutative(t.error_events@, t.events@);
        vstd::seq_lib::lemma_multiset_commutative(block_events(statuses, results, n - 1), ok);
        vstd::seq_lib::lemma_multiset_commutative(
            block_error_events(statuses, results, n - 1),
            failed,
        );
        vstd::seq_lib::lemma_multiset_commutative(all_events(results, n - 1), t.events@);
        vstd::seq_lib::lemma_multiset_commutative(
            all_events(results, n - 1) + t.events@,
            t.error_events@,
        );
        assert(block_events(statuses, results, n).to_multiset().add(
            block_error_events(statuses, results, n).to_multiset(),
        ) =~= all_events(results, n).to_multiset());
    } else {
        assert(block_events(statuses, results, n).to_multiset().add(
            block_error_events(statuses, results, n).to_multiset(),
        ) =~= all_events(results, n).to_multiset());
    }
}

/// A block in which every transaction failed has no traces and no events: all of them are errors.
pub proof fn failed_transactions_only_reach_the_error_lists<B>(
    statuses: Seq<bool>,
    results: Seq<TransactionTraces<B>>,
    n: int,
)
    requires
        0 <= n <= statuses.len(),
        forall|k: int| 0 <= k < n ==> !(#[trigger] statuses[k]),
    ensures
        block_traces(statuses, results, n).len() == 0,
        block_events(statuses, results, n).len() == 0,
    decreases n,
{
    if n > 0 {
        failed_transactions_only_reach_the_error_lists(statuses, results, n - 1);
        assert(!statuses[n - 1]);
    }
}

proof fn lemma_event_indices<B>(
    statuses: Seq<bool>,
    results: Seq<TransactionTraces<B>>,
    n: int,
)
    requires
        0 <= n <= results.len(),
        logs_numbered(results),
    ensures
        forall|i: int|
            0 <= i < block_events(statuses, results, n).len() ==> (#[trigger] block_events(
                statuses,
                results,
                n,
            )[i]).idx < logs_before(results, n),
        forall|i: int, j: int|
            0 <= i < j < block_events(statuses, results, n).len() ==> block_events(
                statuses,
                results,
                n,
            )[i].idx < block_events(statuses, results, n)[j].idx,
    decreases n,
{
    if n > 0 {
        lemma_event_indices(statuses, results, n - 1);
        let before = block_events(statuses, results, n - 1);
        let t = results[n - 1];
        let more = events_of(succeeded(statuses, n - 1), t);
        let now = block_events(statuses, results, n);
        assert(now == before + more);
        assert forall|i: int| 0 <= i < now.len() implies (#[trigger] now[i]).idx < logs_before(
            results,
            n,
        ) by {
            if i < before.len() {
                assert(now[i] == before[i]);
            } else {
                assert(now[i] == results[n - 1].events@[i - before.len()]);
            }
        }
        assert forall|i: int, j: int| 0 <= i < j < now.len() implies now[i].idx < now[j].idx by {
            if j < before.len() {
                assert(now[i] == before[i]);
                assert(now[j] == before[j]);
            } else {
                assert(now[j] == results[n - 1].events@[j - before.len()]);
                if i < before.len() {
                    assert(now[i] == before[i]);
                } else {
                    assert(now[i] == results[n - 1].events@[i - before.len()]);
                }
            }
        }
    }
}

/// The events of the block file stand in the order of their log indices, whichever transactions
/// failed: a failed transaction leaves a gap as wide as its receipt. No index reaches the number of
/// receipt logs.
pub proof fn block_events_follow_the_log_index<B>(
    statuses: Seq<bool>,
    results: Seq<TransactionTraces<B>>,
    i: int,
    j: int,
)
    requires
        logs_numbered(results),
        0 <= i < j < block_events(statuses, results, results.len() as int).len(),
    ensures
        block_events(statuses, results, results.len() as int)[i].idx < block_events(
            statuses,
            results,
            results.len() as int,
        )[j].idx < logs_before(results, results.len() as int),
{
    lemma_event_indices(statuses, results, results.len() as int);
}

/// Where all transactions succeeded, an event's log index is its position in the block file.
pub proof fn log_index_is_position_without_failures<B>(
    statuses: Seq<bool>,
    results: Seq<TransactionTraces<B>>,
    i: int,
)
    requires
        logs_numbered(results),
        forall|k: int| 0 <= k < results.len() ==> succeeded(statuses, k),
        0 <= i < block_events(statuses, results, results.len() as int).len(),
    ensures
        block_events(statuses, results, results.len() as int)[i].idx == i,
{
    lemma_positions(statuses, results, results.len() as int);
}

proof fn lemma_positions<B>(statuses: Seq<bool>, results: Seq<TransactionTraces<B>>, n: int)
    requires
        0 <= n <= results.len(),
        logs_numbered(results),
        forall|k: int| 0 <= k < results.len() ==> succeeded(statuses, k),
    ensures
        block_events(statuses, results, n).len() == logs_before(results, n),
        forall|i: int|
            0 <= i < block_events(statuses, results, n).len() ==> (#[trigger] block_events(
                statuses,
                results,
                n,
            )[i]).idx == i,
    decreases n,
{
    if n > 0 {
        lemma_positions(statuses, results, n - 1);
        let before = block_events(statuses, results, n - 1);
        let now = block_events(statuses, results, n);
        assert(succeeded(statuses, n - 1));
        assert(now == before + results[n - 1].events@);
        assert forall|i: int| 0 <= i < now.len() implies (#[trigger] now[i]).idx == i by {
            if i < before.len() {
                assert(now[i] == before[i]);
            } else {
                assert(now[i] == results[n - 1].events@[i - before.len()]);
            }
        }
    }
}

} // verus!
