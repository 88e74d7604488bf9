//! What recording a replayed transaction does, said of its receipt status and its traces.
use vstd::prelude::*;

use crate::assemble::TransactionTraces;
use crate::candidates::inspected_logs;
use crate::event::{event_models, DebankEvent, EventModel};
use crate::event_laws::{
    a_content_is_log_place_and_index, a_payload_is_the_whole_log, contents_stand_for_events,
    same_log, same_place,
};
use crate::log_laws::{reconciling_keeps_logs_and_places, root_id};
use crate::matching::match_of;
use crate::reconcile::{is_receipt_event, reconciles};
use crate::reverted_laws::reverted_logs_take_no_receipt_log;
use crate::session::Replay;
use crate::trace::{first_root, no_root, DebankTrace};

verus! {

/// Whether `root` is the first trace whose address is empty, if there is one.
pub open spec fn is_first_root<B>(
    traces: Seq<DebankTrace<B>>,
    root: Option<DebankTrace<B>>,
) -> bool {
    match root {
        Some(trace) => exists|i: int|
            {
                &&& 0 <= i < traces.len()
                &&& #[trigger] traces[i] == trace
                &&& traces[i].trace_address@.len() == 0
                &&& forall|k: int| 0 <= k < i ==> (#[trigger] traces[k]).trace_address@.len() > 0
            },
        None => forall|i: int|
            0 <= i < traces.len() ==> (#[trigger] traces[i]).trace_address@.len() > 0,
    }
}

/// The root trace of a transaction is the first trace whose address is empty.
pub proof fn the_root_is_the_first_empty_address<B>(traces: Seq<DebankTrace<B>>)
    ensures
        is_first_root(traces, first_root(traces)),
    decreases traces.len(),
{
    if traces.len() > 0 && traces[0].trace_address@.len() > 0 {
        let rest = traces.drop_first();
        the_root_is_the_first_empty_address(rest);
        assert(forall|i: int| 0 <= i < rest.len() ==> (#[trigger] rest[i]) == traces[i + 1]);
        match first_root(traces) {
            Some(trace) => {
                let i = choose|i: int|
                    {
                        &&& 0 <= i < rest.len()
                        &&& #[trigger] rest[i] == trace
                        &&& rest[i].trace_address@.len() == 0
                        &&& forall|k: int|
                            0 <= k < i ==> (#[trigger] rest[k]).trace_address@.len() > 0
                    };
                assert(traces[i + 1] == trace);
                assert forall|k: int| 0 <= k < i + 1 implies (
                #[trigger] traces[k]).trace_address@.len() > 0 by {
                    if k > 0 {
                        assert(rest[k - 1] == traces[k]);
                    }
                }
            },
            None => {
                assert forall|i: int| 0 <= i < traces.len() implies (
                #[trigger] traces[i]).trace_address@.len() > 0 by {
                    if i > 0 {
                        assert(rest[i - 1] == traces[i]);
                    }
                }
            },
        }
    } else if traces.len() > 0 {
        assert(traces[0] == first_root(traces)->0);
    }
}

/// Recording a transaction keeps all earlier ones, and the traces as they are. Its logs are
/// reconciled with its receipt under the first trace whose address is empty; error events count
/// only if the transaction succeeded and one of its error traces has an empty address.
pub proof fn a_step_reconciles_by_status_and_address<B, F: Fn(&DebankEvent) -> String>(
    replay: Replay<B>,
    inspected: TransactionTraces<B>,
    persisted: Seq<DebankEvent>,
    debank_id: F,
    next: Replay<B>,
) -> (root: Option<DebankTrace<B>>)
    requires
        replay.is_followed_by(inspected, persisted, debank_id, next),
    ensures
        ({
            let k = replay.results@.len() as int;
            let recorded = next.results@[k];
            let misclassified = exists|i: int|
                0 <= i < inspected.error_traces@.len() && (
                #[trigger] inspected.error_traces@[i]).trace_address@.len() == 0;
            &&& is_first_root(inspected.traces@ + inspected.error_traces@, root)
            &&& next.results@.len() == k + 1
            &&& forall|i: int| 0 <= i < k ==> #[trigger] next.results@[i] == replay.results@[i]
            &&& recorded.traces@ == inspected.traces@
            &&& recorded.error_traces@ == inspected.error_traces@
            &&& reconciles(
                inspected.events@,
                inspected.error_events@,
                persisted,
                root,
                replay.tx_statuses@[k] && misclassified,
                replay.next_event_index as int,
                debank_id,
                recorded.events@,
                recorded.error_events@,
                next.next_event_index as int,
            )
            &&& next.block == replay.block
            &&& next.header == replay.header
            &&& next.transactions@ == replay.transactions@
            &&& next.tx_hashes@ == replay.tx_hashes@
            &&& next.tx_statuses@ == replay.tx_statuses@
            &&& next.tx_gas_used@ == replay.tx_gas_used@
            &&& next.parent_state_root == replay.parent_state_root
        }),
{
    let traces = inspected.traces@ + inspected.error_traces@;
    the_root_is_the_first_empty_address(traces);
    first_root(traces)
}

/// Whether the identifier is empty or that of a trace whose address is empty.
pub open spec fn names_a_root<B>(traces: Seq<DebankTrace<B>>, id: Seq<char>) -> bool {
    id.len() == 0 || exists|i: int|
        {
            &&& 0 <= i < traces.len()
            &&& (#[trigger] traces[i]).trace_address@.len() == 0
            &&& traces[i].id@ == id
        }
}

/// Reverted logs take no receipt log away: unless the transaction succeeded and one of its error
/// traces has an empty address, the receipt events that are recorded are those of the same
/// transaction without error events, in log, trace and log index, and in place and identifier as
/// well but under the root.
pub proof fn reverted_logs_do_not_change_a_step<B, F: Fn(&DebankEvent) -> String>(
    replay: Replay<B>,
    inspected: TransactionTraces<B>,
    bare: TransactionTraces<B>,
    persisted: Seq<DebankEvent>,
    debank_id: F,
    next: Replay<B>,
    next_bare: Replay<B>,
)
    requires
        !replay.tx_statuses@[replay.results@.len() as int] || forall|i: int|
            0 <= i < inspected.error_traces@.len() ==> (
            #[trigger] inspected.error_traces@[i]).trace_address@.len() > 0,
        bare.traces@ == inspected.traces@,
        bare.error_traces@ == inspected.error_traces@,
        bare.events@ == inspected.events@,
        bare.error_events@.len() == 0,
        replay.is_followed_by(inspected, persisted, debank_id, next),
        replay.is_followed_by(bare, persisted, debank_id, next_bare),
    ensures
        ({
            let k = replay.results@.len() as int;
            let out = next.results@[k].events@;
            let out_bare = next_bare.results@[k].events@;
            &&& out.len() == persisted.len()
            &&& out_bare.len() == persisted.len()
            &&& next.next_event_index == next_bare.next_event_index
            &&& forall|j: int|
                #![trigger out[j]]
                0 <= j < out.len() ==> {
                    &&& same_log(out[j], out_bare[j])
                    &&& out[j].parent_trace_id@ == out_bare[j].parent_trace_id@
                    &&& out[j].idx == out_bare[j].idx
                    &&& same_place(out[j], out_bare[j]) || names_a_root(
                        inspected.traces@ + inspected.error_traces@,
                        out[j].parent_trace_id@,
                    )
                }
        }),
{
    let k = replay.results@.len() as int;
    let traces = inspected.traces@ + inspected.error_traces@;
    let root = a_step_reconciles_by_status_and_address(
        replay,
        inspected,
        persisted,
        debank_id,
        next,
    );
    let root_bare = a_step_reconciles_by_status_and_address(
        replay,
        bare,
        persisted,
        debank_id,
        next_bare,
    );
    lemma_one_first_root(traces, root, root_bare);
    let out = next.results@[k].events@;
    let out_bare = next_bare.results@[k].events@;
    let receipt = event_models(persisted);
    let events = event_models(inspected.events@);
    let errors = event_models(inspected.error_events@);
    let place = match root {
        Some(trace) => trace.place(),
        None => no_root(),
    };
    let start = replay.next_event_index as int;
    let logs = inspected_logs(events, errors, false);
    assert(event_models(bare.error_events@) =~= Seq::<EventModel>::empty());
    reverted_logs_take_no_receipt_log(
        events,
        errors,
        receipt,
        place,
        start,
        debank_id,
        (event_models(out), event_models(next.results@[k].error_events@)),
        (event_models(out_bare), event_models(next_bare.results@[k].error_events@)),
    );
    contents_stand_for_events(out, true);
    contents_stand_for_events(out_bare, true);
    contents_stand_for_events(persisted, true);
    assert forall|j: int|
        #![trigger out[j]]
        0 <= j < out.len() implies {
        &&& same_log(out[j], out_bare[j])
        &&& out[j].parent_trace_id@ == out_bare[j].parent_trace_id@
        &&& out[j].idx == out_bare[j].idx
        &&& same_place(out[j], out_bare[j]) || names_a_root(traces, out[j].parent_trace_id@)
    } by {
        let a = event_models(out)[j];
        let b = event_models(out_bare)[j];
        assert(a == out[j]@ && b == out_bare[j]@);
        a_payload_is_the_whole_log(out[j], out_bare[j]);
        a_content_is_log_place_and_index(out[j], out_bare[j], 0);
        if match_of(logs, receipt, j) is None {
            assert(is_receipt_event(logs, receipt, place, start, debank_id, j, a));
            assert(a.parent_trace_id == place.id);
        }
    }
}

/// There is one first trace with an empty address.
proof fn lemma_one_first_root<B>(
    traces: Seq<DebankTrace<B>>,
    a: Option<DebankTrace<B>>,
    b: Option<DebankTrace<B>>,
)
    requires
        is_first_root(traces, a),
        is_first_root(traces, b),
    ensures
        a == b,
        root_id(a).len() > 0 ==> names_a_root(traces, root_id(a)),
        a is Some ==> names_a_root(traces, a->0.id@),
{
    if a is Some && b is Some {
        let i = choose|i: int|
            {
                &&& 0 <= i < traces.len()
                &&& #[trigger] traces[i] == a->0
                &&& traces[i].trace_address@.len() == 0
                &&& forall|k: int| 0 <= k < i ==> (#[trigger] traces[k]).trace_address@.len() > 0
            };
        let j = choose|j: int|
            {
                &&& 0 <= j < traces.len()
                &&& #[trigger] traces[j] == b->0
                &&& traces[j].trace_address@.len() == 0
                &&& forall|k: int| 0 <= k < j ==> (#[trigger] traces[k]).trace_address@.len() > 0
            };
        if i < j {
            assert(traces[i].trace_address@.len() > 0);
        }
        if j < i {
            assert(traces[j].trace_address@.len() > 0);
        }
        assert(traces[i].id@ == a->0.id@);
    }
}

/// Reverted logs are not lost: unless the transaction succeeded and one of its error traces has an
/// empty address, every error event stands among the recorded error events, each at a place of its
/// own, in log, trace, position and identifier as it came.
pub proof fn reverted_logs_are_recorded_as_errors<B, F: Fn(&DebankEvent) -> String>(
    replay: Replay<B>,
    inspected: TransactionTraces<B>,
    persisted: Seq<DebankEvent>,
    debank_id: F,
    next: Replay<B>,
) -> (at: Seq<int>)
    requires
        !replay.tx_statuses@[replay.results@.len() as int] || forall|i: int|
            0 <= i < inspected.error_traces@.len() ==> (
            #[trigger] inspected.error_traces@[i]).trace_address@.len() > 0,
        replay.is_followed_by(inspected, persisted, debank_id, next),
    ensures
        ({
            let rest = next.results@[replay.results@.len() as int].error_events@;
            &&& at.len() == inspected.error_events@.len()
            &&& forall|i: int|
                #![trigger at[i]]
                0 <= i < at.len() ==> {
                    &&& 0 <= at[i] < rest.len()
                    &&& same_log(rest[at[i]], inspected.error_events@[i])
                    &&& same_place(rest[at[i]], inspected.error_events@[i])
                }
            &&& forall|i: int, j: int|
                #![trigger at[i], at[j]]
                0 <= i < j < at.len() ==> at[i] != at[j]
        }),
{
    let k = replay.results@.len() as int;
    let root = a_step_reconciles_by_status_and_address(
        replay,
        inspected,
        persisted,
        debank_id,
        next,
    );
    let events = inspected.events@;
    let errors = inspected.error_events@;
    let all = events + errors;
    let rest = next.results@[k].error_events@;
    let (order, found, left) = reconciling_keeps_logs_and_places(
        events,
        errors,
        persisted,
        root,
        false,
        replay.next_event_index as int,
        debank_id,
        next.results@[k].events@,
        rest,
        next.next_event_index as int,
    );
    let at = Seq::new(
        errors.len(),
        |i: int| left.index_of(order.index_of(events.len() + i)),
    );
    assert forall|i: int|
        #![trigger at[i]]
        0 <= i < at.len() implies {
        let c = order.index_of(events.len() + i);
        &&& 0 <= c < order.len()
        &&& order[c] == events.len() + i
        &&& 0 <= at[i] < left.len()
        &&& left[at[i]] == c
        &&& 0 <= at[i] < rest.len()
        &&& same_log(rest[at[i]], errors[i])
        &&& same_place(rest[at[i]], errors[i])
    } by {
        let p = events.len() + i;
        assert(order.contains(p));
        let c = order.index_of(p);
        assert(all[p] == errors[i]);
        if found.contains(Some(c)) {
            let j = found.index_of(Some(c));
            assert(found[j] is Some);
            assert(order[c] < events.len());
        }
        assert(left.contains(c));
        assert(same_log(rest[at[i]], all[order[left[at[i]]]]));
    }
    assert forall|i: int, j: int|
        #![trigger at[i], at[j]]
        0 <= i < j < at.len() implies at[i] != at[j] by {
        assert(order[left[at[i]]] == events.len() + i);
        assert(order[left[at[j]]] == events.len() + j);
    }
    at
}

} // verus!
