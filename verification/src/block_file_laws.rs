//! Where the traces and events of a transaction go, said of its receipt status and of the addresses
//! of its traces.
use vstd::prelude::*;

use crate::assemble::{
    block_error_events, block_error_traces, block_events, block_traces, error_events_of,
    error_traces_of, events_of, succeeded, traces_of, TransactionTraces,
};
use crate::trace::{has_root, DebankTrace};

verus! {

/// A root was put among the failed calls exactly if one of them has an empty address.
pub proof fn a_root_has_an_empty_address<B>(traces: Seq<DebankTrace<B>>)
    ensures
        has_root(traces) <==> exists|i: int|
            0 <= i < traces.len() && (#[trigger] traces[i]).trace_address@.len() == 0,
{
    if exists|i: int| 0 <= i < traces.len() && (#[trigger] traces[i]).trace_address@.len() == 0 {
        let i = choose|i: int|
            0 <= i < traces.len() && (#[trigger] traces[i]).trace_address@.len() == 0;
        assert(traces[i].is_root());
    }
}

/// A failed transaction adds nothing to the successful traces and events; its failed traces come
/// first among the errors, then the others, and so do its events. A successful one keeps the
/// success of each call, unless one of its error traces has an empty address: then all its traces
/// count as successful. Its receipt logs are events, all other logs are errors.
pub proof fn a_transaction_goes_where_its_status_says<B>(
    success: bool,
    t: TransactionTraces<B>,
)
    ensures
        !success ==> {
            &&& traces_of(success, t).len() == 0
            &&& error_traces_of(success, t) == t.error_traces@ + t.traces@
            &&& events_of(success, t).len() == 0
            &&& error_events_of(success, t) == t.error_events@ + t.events@
        },
        success ==> {
            &&& events_of(success, t) == t.events@
            &&& error_events_of(success, t) == t.error_events@
        },
        success && (forall|i: int|
            0 <= i < t.error_traces@.len() ==> (
            #[trigger] t.error_traces@[i]).trace_address@.len() > 0) ==> {
            &&& traces_of(success, t) == t.traces@
            &&& error_traces_of(success, t) == t.error_traces@
        },
        success && (exists|i: int|
            0 <= i < t.error_traces@.len() && (
            #[trigger] t.error_traces@[i]).trace_address@.len() == 0) ==> {
            &&& traces_of(success, t) == t.traces@ + t.error_traces@
            &&& error_traces_of(success, t).len() == 0
        },
{
    a_root_has_an_empty_address(t.error_traces@);
}

/// The block file grows by one transaction after the other, in their order, and starts out empty:
/// a failed one adds to the errors alone, a successful one by the addresses of its error traces. A
/// transaction without a receipt status counts as successful.
pub proof fn the_block_file_grows_by_transaction<B>(
    statuses: Seq<bool>,
    results: Seq<TransactionTraces<B>>,
    k: int,
)
    requires
        0 <= k < results.len(),
    ensures
        block_traces(statuses, results, 0).len() == 0,
        block_error_traces(statuses, results, 0).len() == 0,
        block_events(statuses, results, 0).len() == 0,
        block_error_events(statuses, results, 0).len() == 0,
        ({
            let t = results[k];
            let success = k >= statuses.len() || statuses[k];
            let misclassified = exists|i: int|
                0 <= i < t.error_traces@.len() && (
                #[trigger] t.error_traces@[i]).trace_address@.len() == 0;
            let traces = block_traces(statuses, results, k);
            let error_traces = block_error_traces(statuses, results, k);
            let events = block_events(statuses, results, k);
            let error_events = block_error_events(statuses, results, k);
            let next_traces = block_traces(statuses, results, k + 1);
            let next_error_traces = block_error_traces(statuses, results, k + 1);
            let next_events = block_events(statuses, results, k + 1);
            let next_error_events = block_error_events(statuses, results, k + 1);
            &&& !success ==> {
                &&& next_traces == traces
                &&& next_error_traces == error_traces + t.error_traces@ + t.traces@
                &&& next_events == events
                &&& next_error_events == error_events + t.error_events@ + t.events@
            }
            &&& success ==> {
                &&& next_events == events + t.events@
                &&& next_error_events == error_events + t.error_events@
            }
            &&& success && !misclassified ==> {
                &&& next_traces == traces + t.traces@
                &&& next_error_traces == error_traces + t.error_traces@
            }
            &&& success && misclassified ==> {
                &&& next_traces == traces + t.traces@ + t.error_traces@
                &&& next_error_traces == error_traces
            }
        }),
{
    let t = results[k];
    let success = k >= statuses.len() || statuses[k];
    assert(succeeded(statuses, k) == success);
    a_transaction_goes_where_its_status_says(success, t);
    a_root_has_an_empty_address(t.error_traces@);
    assert(block_traces(statuses, results, k + 1) == block_traces(statuses, results, k)
        + traces_of(success, t));
    assert(block_error_traces(statuses, results, k + 1) == block_error_traces(statuses, results, k)
        + error_traces_of(success, t));
    assert(block_events(statuses, results, k + 1) == block_events(statuses, results, k)
        + events_of(success, t));
    assert(block_error_events(statuses, results, k + 1) == block_error_events(statuses, results, k)
        + error_events_of(success, t));
    if !success {
        assert(block_traces(statuses, results, k + 1) =~= block_traces(statuses, results, k));
        assert(block_events(statuses, results, k + 1) =~= block_events(statuses, results, k));
        assert(block_error_traces(statuses, results, k + 1) =~= block_error_traces(
            statuses,
            results,
            k,
        ) + t.error_traces@ + t.traces@);
        assert(block_error_events(statuses, results, k + 1) =~= block_error_events(
            statuses,
            results,
            k,
        ) + t.error_events@ + t.events@);
    } else if has_root(t.error_traces@) {
        assert(block_traces(statuses, results, k + 1) =~= block_traces(statuses, results, k)
            + t.traces@ + t.error_traces@);
        assert(block_error_traces(statuses, results, k + 1) =~= block_error_traces(
            statuses,
            results,
            k,
        ));
    }
}

} // verus!
