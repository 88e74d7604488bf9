//! Reconciles the logs that the inspector saw with the logs of the replayed receipt.
use vstd::prelude::*;

use crate::candidates::{
    candidate_models, inspect_logs, inspected_logs, Candidate, CandidateModel,
};
use crate::event::{
    event_models, with_event_index, with_pending_event_index, DebankEvent, EventModel,
};
use crate::matching::{
    after_last_match, lemma_unmatched_monotone, match_of, match_receipt_logs, passed,
    unmatched_before,
};
use crate::trace::{no_root, root_place, DebankTrace, RootPlace};

verus! {

/// The number of inspected logs that belong to the given trace.
pub open spec fn logs_of_trace(candidates: Seq<CandidateModel>, trace_id: Seq<char>) -> int
    decreases candidates.len(),
{
    if candidates.len() == 0 {
        0
    } else {
        logs_of_trace(candidates.drop_last(), trace_id) + if candidates.last().event.parent_trace_id
            == trace_id {
            1int
        } else {
            0int
        }
    }
}

/// The first position in the root trace that is free for logs from outside the interpreter.
pub open spec fn first_root_position(candidates: Seq<CandidateModel>, root: RootPlace) -> int {
    root.subtraces + logs_of_trace(candidates, root.id)
}

/// The log placed under a trace at a position.
pub open spec fn placed(log: EventModel, trace_id: Seq<char>, position: int) -> EventModel {
    EventModel { parent_trace_id: trace_id, pos_in_parent_trace: position, ..log }
}

/// Whether `debank_id` gives an event of content `event` the identifier `id`.
pub open spec fn identifies<F: Fn(&DebankEvent) -> String>(
    debank_id: F,
    event: EventModel,
    id: Seq<char>,
) -> bool {
    exists|e: DebankEvent, text: String|
        #![trigger call_ensures(debank_id, (&e,), text)]
        e@ == event && text@ == id && call_ensures(debank_id, (&e,), text)
}

/// What becomes of receipt log `j`, whose log index in the block is `start + j`.
///
/// A log that the inspector saw keeps the place in the call trace at which it was seen. Any other
/// log goes under the root trace, behind the members that the root already has, and gets the
/// identifier that goes with that place.
pub open spec fn is_receipt_event<F: Fn(&DebankEvent) -> String>(
    candidates: Seq<CandidateModel>,
    receipt: Seq<EventModel>,
    root: RootPlace,
    start: int,
    debank_id: F,
    j: int,
    out: EventModel,
) -> bool {
    match match_of(candidates, receipt, j) {
        Some(c) => out == candidates[c].event.at_index(start + j),
        None => {
            let position = first_root_position(candidates, root) + unmatched_before(
                candidates,
                receipt,
                j,
            );
            let log = placed(receipt[j], root.id, position);
            &&& out == EventModel { id: out.id, ..log.at_index(start + j) }
            &&& identifies(debank_id, log, out.id)
        },
    }
}

/// The inspected logs from `from` up to `to`, all under one log index.
pub open spec fn logs_at_index(
    candidates: Seq<CandidateModel>,
    from: int,
    to: int,
    idx: int,
) -> Seq<EventModel> {
    candidates.subrange(from, to).map_values(|c: CandidateModel| c.event.at_index(idx))
}

/// The inspected logs passed over while the first `j` receipt logs were recognised. Each has the
/// log index of the receipt log that was recognised next.
pub open spec fn passed_over(
    candidates: Seq<CandidateModel>,
    receipt: Seq<EventModel>,
    start: int,
    j: int,
) -> Seq<EventModel>
    decreases j,
{
    if j <= 0 {
        Seq::empty()
    } else {
        let before = passed_over(candidates, receipt, start, j - 1);
        match match_of(candidates, receipt, j - 1) {
            Some(c) => before + logs_at_index(
                candidates,
                passed(candidates, receipt, j - 1),
                c,
                start + j - 1,
            ),
            None => before,
        }
    }
}

/// The inspected logs that are in no receipt, in emission order. Those behind the last recognised
/// log have the log index behind that log.
pub open spec fn inspector_only(
    candidates: Seq<CandidateModel>,
    receipt: Seq<EventModel>,
    start: int,
) -> Seq<EventModel> {
    let n = receipt.len() as int;
    passed_over(candidates, receipt, start, n) + logs_at_index(
        candidates,
        passed(candidates, receipt, n),
        candidates.len() as int,
        start + after_last_match(candidates, receipt, n),
    )
}

/// Whether the positions of the logs that go under the root trace fit into a `usize`.
pub open spec fn root_positions_fit(
    candidates: Seq<CandidateModel>,
    receipt: Seq<EventModel>,
    root: RootPlace,
) -> bool {
    first_root_position(candidates, root) + unmatched_before(
        candidates,
        receipt,
        receipt.len() as int,
    ) <= usize::MAX
}

/// Whether `events` and `error_events` are the receipt logs and the inspector-only logs of a
/// transaction whose first log has the log index `start`.
pub open spec fn is_reconciled<F: Fn(&DebankEvent) -> String>(
    candidates: Seq<CandidateModel>,
    receipt: Seq<EventModel>,
    root: RootPlace,
    start: int,
    debank_id: F,
    events: Seq<EventModel>,
    error_events: Seq<EventModel>,
) -> bool {
    &&& events.len() == receipt.len()
    &&& forall|j: int|
        0 <= j < receipt.len() ==> is_receipt_event(
            candidates,
            receipt,
            root,
            start,
            debank_id,
            j,
            #[trigger] events[j],
        )
    &&& error_events == inspector_only(candidates, receipt, start)
}

/// Whether `out` and `rest` are what reconciling the logs of a transaction yields, and `end` is the
/// log index behind its last receipt log.
pub open spec fn reconciles<B, F: Fn(&DebankEvent) -> String>(
    events: Seq<DebankEvent>,
    error_events: Seq<DebankEvent>,
    persisted_events: Seq<DebankEvent>,
    root: Option<DebankTrace<B>>,
    match_error_events: bool,
    start: int,
    debank_id: F,
    out: Seq<DebankEvent>,
    rest: Seq<DebankEvent>,
    end: int,
) -> bool {
    &&& is_reconciled(
        inspected_logs(event_models(events), event_models(error_events), match_error_events),
        event_models(persisted_events),
        match root {
            Some(trace) => trace.place(),
            None => no_root(),
        },
        start,
        debank_id,
        event_models(out),
        event_models(rest),
    )
    &&& end == start + persisted_events.len()
}

/// Counts the inspected logs that belong to the given trace.
fn count_logs_of_trace(candidates: &Vec<Candidate>, trace_id: &String) -> (r: usize)
    ensures
        r == logs_of_trace(candidate_models(candidates@), trace_id@),
{
    let ghost models = candidate_models(candidates@);
    let mut count: usize = 0;
    let mut i: usize = 0;
    assert(models.take(0).len() == 0);
    while i < candidates.len()
        invariant
            i <= candidates.len(),
            count <= i,
            models == candidate_models(candidates@),
            count == logs_of_trace(models.take(i as int), trace_id@),
        decreases candidates.len() - i,
    {
        assert(models.take(i + 1).drop_last() =~= models.take(i as int));
        assert(models.take(i + 1).last() == candidates@[i as int]@);
        if candidates[i].event.parent_trace_id == *trace_id {
            count += 1;
        }
        i += 1;
    }
    assert(models.take(models.len() as int) =~= models);
    count
}

/// Moves on to the list of inspector-only logs those from `from` up to `to`, under one log index.
fn push_inspector_only(
    out: &mut Vec<DebankEvent>,
    candidates: &Vec<Candidate>,
    from: usize,
    to: usize,
    idx: usize,
)
    requires
        from <= to <= candidates.len(),
    ensures
        event_models(final(out)@) == event_models(old(out)@) + logs_at_index(
            candidate_models(candidates@),
            from as int,
            to as int,
            idx as int,
        ),
{
    let ghost models = candidate_models(candidates@);
    let mut c: usize = from;
    assert(event_models(out@) =~= event_models(old(out)@) + logs_at_index(
        models,
        from as int,
        from as int,
        idx as int,
    ));
    while c < to
        invariant
            from <= c <= to <= candidates.len(),
            models == candidate_models(candidates@),
            event_models(out@) == event_models(old(out)@) + logs_at_index(
                models,
                from as int,
                c as int,
                idx as int,
            ),
        decreases to - c,
    {
        let ghost before = out@;
        let event = with_pending_event_index(candidates[c].event.clone(), idx);
        out.push(event);
        c += 1;
        proof {
            assert(event_models(out@) =~= event_models(before).push(event@));
            assert(models[c - 1] == candidates@[c - 1]@);
            assert(logs_at_index(models, from as int, c as int, idx as int) =~= logs_at_index(
                models,
                from as int,
                c - 1,
                idx as int,
            ).push(event@));
        }
    }
}

/// Reconciles inspector-visible logs with the authoritative logs in the replayed receipt.
///
/// Transaction handlers can emit logs both before and after EVM calls. Inspector-only logs come
/// from reverted frames; receipt-only logs come from handler code outside the interpreter.
/// Greedily matching equal payloads in order preserves call-trace parents without assuming that
/// handler logs form a suffix. Error events are eligible only for a successful transaction whose
/// synthetic root was misclassified; otherwise an identical reverted log must not steal a receipt
/// log from its successful frame.
///
/// Returns the receipt logs, numbered from `next_event_index`, and the inspector-only logs.
/// `debank_id` gives an event its identifier.
pub fn reconcile_persisted_events<B, F: Fn(&DebankEvent) -> String>(
    events: Vec<DebankEvent>,
    error_events: Vec<DebankEvent>,
    persisted_events: Vec<DebankEvent>,
    root_trace: Option<&DebankTrace<B>>,
    match_error_events: bool,
    next_event_index: &mut usize,
    debank_id: F,
) -> (r: (Vec<DebankEvent>, Vec<DebankEvent>))
    requires
        *old(next_event_index) + persisted_events.len() <= usize::MAX,
        root_positions_fit(
            inspected_logs(event_models(events@), event_models(error_events@), match_error_events),
            event_models(persisted_events@),
            root_place(root_trace),
        ),
        forall|e: DebankEvent| call_requires(debank_id, (&e,)),
    ensures
        reconciles(
            events@,
            error_events@,
            persisted_events@,
            match root_trace {
                Some(trace) => Some(*trace),
                None => None,
            },
            match_error_events,
            *old(next_event_index) as int,
            debank_id,
            r.0@,
            r.1@,
            *final(next_event_index) as int,
        ),
{
    let candidates = inspect_logs(events, error_events, match_error_events);
    let matches = match_receipt_logs(&candidates, &persisted_events);
    let ghost logs = candidate_models(candidates@);
    let ghost receipt = event_models(persisted_events@);
    let ghost start = *next_event_index as int;
    let ghost root = root_place(root_trace);
    let ghost base = first_root_position(logs, root);
    let ghost n = receipt.len() as int;

    let (root_trace_id, subtraces): (String, usize) = match root_trace {
        Some(trace) => (trace.id.clone(), trace.subtraces),
        None => (String::new(), 0),
    };
    let own_logs = count_logs_of_trace(&candidates, &root_trace_id);
    proof {
        assert(root_trace_id@ == root.id);
        lemma_unmatched_monotone(logs, receipt, 0, n);
    }
    let mut next_root_position: usize = subtraces + own_logs;
    let mut reconciled_events: Vec<DebankEvent> = Vec::new();
    let mut reconciled_error_events: Vec<DebankEvent> = Vec::new();
    let mut candidate_cursor: usize = 0;
    let mut pending_index: usize = *next_event_index;
    let mut j: usize = 0;
    assert(event_models(reconciled_error_events@) =~= passed_over(logs, receipt, start, 0));
    while j < persisted_events.len()
        invariant
            j <= persisted_events.len(),
            n == persisted_events.len(),
            matches.len() == n,
            logs == candidate_models(candidates@),
            receipt == event_models(persisted_events@),
            root_trace_id@ == root.id,
            base == first_root_position(logs, root),
            base + unmatched_before(logs, receipt, n) <= usize::MAX,
            start + n <= usize::MAX,
            *next_event_index == start + j,
            pending_index == start + after_last_match(logs, receipt, j as int),
            candidate_cursor == passed(logs, receipt, j as int),
            candidate_cursor <= candidates.len(),
            next_root_position == base + unmatched_before(logs, receipt, j as int),
            forall|e: DebankEvent| call_requires(debank_id, (&e,)),
            forall|k: int|
                0 <= k < n ==> match #[trigger] matches@[k] {
                    Some(c) => match_of(logs, receipt, k) == Some(c as int),
                    None => match_of(logs, receipt, k) is None,
                },
            reconciled_events.len() == j,
            forall|k: int|
                0 <= k < j ==> is_receipt_event(
                    logs,
                    receipt,
                    root,
                    start,
                    debank_id,
                    k,
                    (#[trigger] reconciled_events@[k])@,
                ),
            event_models(reconciled_error_events@) == passed_over(logs, receipt, start, j as int),
        decreases persisted_events.len() - j,
    {
        let ghost done = reconciled_events@;
        match matches[j] {
            Some(candidate_index) => {
                proof {
                    crate::matching::lemma_passed_bounds(logs, receipt, j as int);
                    crate::matching::first_match_is_first(
                        logs,
                        receipt[j as int].payload(),
                        passed(logs, receipt, j as int),
                    );
                    assert(logs[candidate_index as int] == candidates@[candidate_index as int]@);
                }
                push_inspector_only(
                    &mut reconciled_error_events,
                    &candidates,
                    candidate_cursor,
                    candidate_index,
                    *next_event_index,
                );
                let event = with_event_index(
                    candidates[candidate_index].event.clone(),
                    next_event_index,
                );
                reconciled_events.push(event);
                candidate_cursor = candidate_index + 1;
                pending_index = *next_event_index;
            },
            None => {
                proof {
                    lemma_unmatched_monotone(logs, receipt, j + 1, n);
                    assert(receipt[j as int] == persisted_events@[j as int]@);
                }
                let mut event = persisted_events[j].clone();
                event.parent_trace_id = root_trace_id.clone();
                event.pos_in_parent_trace = next_root_position;
                next_root_position += 1;
                let ghost log = event;
                let id = debank_id(&event);
                event.id = id;
                proof {
                    assert(log@ == placed(
                        receipt[j as int],
                        root.id,
                        base + unmatched_before(logs, receipt, j as int),
                    ));
                    assert(identifies(debank_id, log@, id@));
                }
                let event = with_event_index(event, next_event_index);
                reconciled_events.push(event);
            },
        }
        j += 1;
        assert forall|k: int| 0 <= k < j implies is_receipt_event(
            logs,
            receipt,
            root,
            start,
            debank_id,
            k,
            (#[trigger] reconciled_events@[k])@,
        ) by {
            if k < j - 1 {
                assert(reconciled_events@[k] == done[k]);
            }
        }
    }

    // Inspector-only trailing logs execute before handler-generated receipt suffix logs.
    let candidate_count = candidates.len();
    push_inspector_only(
        &mut reconciled_error_events,
        &candidates,
        candidate_cursor,
        candidate_count,
        pending_index,
    );
    assert forall|k: int| 0 <= k < n implies is_receipt_event(
        logs,
        receipt,
        root,
        start,
        debank_id,
        k,
        #[trigger] event_models(reconciled_events@)[k],
    ) by {
        assert(event_models(reconciled_events@)[k] == reconciled_events@[k]@);
    }
    (reconciled_events, reconciled_error_events)
}

/// No position under the root trace lies beyond its calls, the inspected logs and the receipt logs
/// taken together.
pub proof fn lemma_root_positions_bounded(
    candidates: Seq<CandidateModel>,
    receipt: Seq<EventModel>,
    root: RootPlace,
)
    ensures
        first_root_position(candidates, root) + unmatched_before(
            candidates,
            receipt,
            receipt.len() as int,
        ) <= root.subtraces + candidates.len() + receipt.len(),
{
    lemma_logs_of_trace_bounded(candidates, root.id);
    lemma_unmatched_bounded(candidates, receipt, receipt.len() as int);
}

proof fn lemma_logs_of_trace_bounded(candidates: Seq<CandidateModel>, trace_id: Seq<char>)
    ensures
        logs_of_trace(candidates, trace_id) <= candidates.len(),
    decreases candidates.len(),
{
    if candidates.len() > 0 {
        lemma_logs_of_trace_bounded(candidates.drop_last(), trace_id);
    }
}

proof fn lemma_unmatched_bounded(
    candidates: Seq<CandidateModel>,
    receipt: Seq<EventModel>,
    j: int,
)
    requires
        0 <= j,
    ensures
        unmatched_before(candidates, receipt, j) <= j,
    decreases j,
{
    if j > 0 {
        lemma_unmatched_bounded(candidates, receipt, j - 1);
    }
}

} // verus!
