//! What reconciling does to the logs of a transaction, said of the events that go in and come out.
use vstd::prelude::*;

use crate::candidates::{
    as_candidates, candidate_models, inspected_logs, insertion_point, lemma_insert_parts,
    lemma_insertion_point, stable_by_idx, stable_by_idx_sorts_stably, Candidate, CandidateModel,
};
use crate::event::{event_models, DebankEvent, EventModel};
use crate::event_laws::{
    a_content_is_log_place_and_index, a_payload_is_the_whole_log, contents_stand_for_events,
    same_log, same_place,
};
use crate::matching::{
    after_last_match, first_match_is_first, lemma_passed_bounds, lemma_passed_monotone, match_of,
    matches_keep_order, matches_share_their_payload, matching_is_greedy, passed, unmatched_before,
};
use crate::reconcile::{
    first_root_position, identifies, inspector_only, is_receipt_event, logs_at_index,
    logs_of_trace, passed_over, placed, reconciles,
};
use crate::trace::{no_root, DebankTrace, RootPlace};

verus! {

/// Whether `order` lists the positions of all events by ascending log index, positions of equal
/// log index in ascending order.
pub open spec fn is_emission_order(all: Seq<DebankEvent>, order: Seq<int>) -> bool {
    &&& order.len() == all.len()
    &&& forall|i: int| 0 <= i < order.len() ==> 0 <= #[trigger] order[i] < all.len()
    &&& forall|p: int| 0 <= p < all.len() ==> #[trigger] order.contains(p)
    &&& forall|i: int, j: int|
        #![trigger order[i], order[j]]
        0 <= i < j < order.len() ==> {
            &&& order[i] != order[j]
            &&& all[order[i]].idx < all[order[j]].idx || (all[order[i]].idx == all[order[j]].idx
                && order[i] < order[j])
        }
}

/// Whether the log that was emitted at place `c` may be recognised in the receipt: the events may,
/// the error events behind them only where `match_error_events` holds.
pub open spec fn may_be_recognised(
    events: Seq<DebankEvent>,
    match_error_events: bool,
    order: Seq<int>,
    c: int,
) -> bool {
    order[c] < events.len() || match_error_events
}

/// Whether `found` says for each receipt log in which emitted log it is recognised: in one that
/// holds the same log and may be recognised, each later than the one before, and always in the
/// first that there is.
pub open spec fn is_recognised_in(
    events: Seq<DebankEvent>,
    error_events: Seq<DebankEvent>,
    match_error_events: bool,
    persisted: Seq<DebankEvent>,
    order: Seq<int>,
    found: Seq<Option<int>>,
) -> bool {
    let all = events + error_events;
    &&& found.len() == persisted.len()
    &&& forall|j: int|
        0 <= j < found.len() && (#[trigger] found[j]) is Some ==> {
            &&& 0 <= found[j]->0 < order.len()
            &&& may_be_recognised(events, match_error_events, order, found[j]->0)
            &&& same_log(all[order[found[j]->0]], persisted[j])
        }
    &&& forall|i: int, j: int|
        #![trigger found[i], found[j]]
        0 <= i < j < found.len() && found[i] is Some && found[j] is Some ==> found[i]->0
            < found[j]->0
    &&& forall|j: int, c: int|
        #![trigger found[j], order[c]]
        0 <= j < found.len() && 0 <= c < order.len() && may_be_recognised(
            events,
            match_error_events,
            order,
            c,
        ) && same_log(all[order[c]], persisted[j]) && (forall|i: int|
            0 <= i < j && (#[trigger] found[i]) is Some ==> found[i]->0 < c) ==> {
            &&& found[j] is Some
            &&& found[j]->0 <= c
        }
}

/// The number of events under the given trace.
pub open spec fn events_under(all: Seq<DebankEvent>, trace_id: Seq<char>) -> int
    decreases all.len(),
{
    if all.len() == 0 {
        0
    } else {
        events_under(all.drop_last(), trace_id) + if all.last().parent_trace_id@ == trace_id {
            1int
        } else {
            0int
        }
    }
}

/// The number of the first `j` receipt logs that are recognised nowhere.
pub open spec fn unrecognised_before(found: Seq<Option<int>>, j: int) -> int
    decreases j,
{
    if j <= 0 {
        0
    } else {
        unrecognised_before(found, j - 1) + if found[j - 1] is None {
            1int
        } else {
            0int
        }
    }
}

/// The identifier of the root trace; empty without one.
pub open spec fn root_id<B>(root: Option<DebankTrace<B>>) -> Seq<char> {
    if root is Some {
        root->0.id@
    } else {
        Seq::empty()
    }
}

/// The number of calls of the root trace.
pub open spec fn root_calls<B>(root: Option<DebankTrace<B>>) -> int {
    if root is Some {
        root->0.subtraces as int
    } else {
        0
    }
}

/// Whether `id` is what `debank_id` gives the log of `event` placed under a trace at a position.
pub open spec fn is_id_at<F: Fn(&DebankEvent) -> String>(
    debank_id: F,
    event: DebankEvent,
    trace_id: Seq<char>,
    position: int,
    id: Seq<char>,
) -> bool {
    exists|e: DebankEvent, text: String|
        #![trigger call_ensures(debank_id, (&e,), text)]
        {
            &&& call_ensures(debank_id, (&e,), text)
            &&& text@ == id
            &&& same_log(e, event)
            &&& e.id@ == event.id@
            &&& e.idx == event.idx
            &&& e.parent_trace_id@ == trace_id
            &&& e.pos_in_parent_trace == position
        }
}

/// Whether receipt log `j` is written as it should be. It holds its log and has its log index. A
/// recognised one keeps the place and the identifier of the log that it is recognised in; any
/// other goes under the root, behind its calls, all inspected logs under it, and the receipt logs
/// that went there before.
pub open spec fn is_written_at<B, F: Fn(&DebankEvent) -> String>(
    all: Seq<DebankEvent>,
    persisted: Seq<DebankEvent>,
    root: Option<DebankTrace<B>>,
    start: int,
    debank_id: F,
    order: Seq<int>,
    found: Seq<Option<int>>,
    out: Seq<DebankEvent>,
    j: int,
) -> bool {
    let position = root_calls(root) + events_under(all, root_id(root)) + unrecognised_before(
        found,
        j,
    );
    &&& same_log(out[j], persisted[j])
    &&& out[j].idx == start + j
    &&& found[j] is Some ==> same_place(out[j], all[order[found[j]->0]])
    &&& found[j] is None ==> {
        &&& out[j].parent_trace_id@ == root_id(root)
        &&& out[j].pos_in_parent_trace == position
        &&& is_id_at(debank_id, persisted[j], root_id(root), position, out[j].id@)
    }
}

/// Whether `out` are the receipt logs, each written as it should be.
pub open spec fn are_written<B, F: Fn(&DebankEvent) -> String>(
    all: Seq<DebankEvent>,
    persisted: Seq<DebankEvent>,
    root: Option<DebankTrace<B>>,
    start: int,
    debank_id: F,
    order: Seq<int>,
    found: Seq<Option<int>>,
    out: Seq<DebankEvent>,
) -> bool {
    &&& out.len() == persisted.len()
    &&& forall|j: int|
        0 <= j < out.len() ==> #[trigger] is_written_at(
            all,
            persisted,
            root,
            start,
            debank_id,
            order,
            found,
            out,
            j,
        )
}

/// Whether a log that was emitted at place `c` gets the log index `start + t` if it is recognised
/// nowhere: that of the first receipt log recognised behind it; where there is none, the one behind
/// the last recognised receipt log.
pub open spec fn is_pending_at(found: Seq<Option<int>>, c: int, t: int) -> bool {
    &&& 0 <= t <= found.len()
    &&& forall|j: int| 0 <= j < t && (#[trigger] found[j]) is Some ==> found[j]->0 < c
    &&& {
        ||| t < found.len() && found[t] is Some && found[t]->0 > c
        ||| (forall|j: int| t <= j < found.len() ==> (#[trigger] found[j]) is None) && (t == 0
            || found[t - 1] is Some)
    }
}

/// Whether `left` lists, in ascending order, the places at which a log was emitted that no receipt
/// log is recognised in.
pub open spec fn is_left(emitted: int, found: Seq<Option<int>>, left: Seq<int>) -> bool {
    &&& forall|k: int| 0 <= k < left.len() ==> 0 <= #[trigger] left[k] < emitted
    &&& forall|k: int, l: int|
        #![trigger left[k], left[l]]
        0 <= k < l < left.len() ==> left[k] < left[l]
    &&& forall|k: int, j: int|
        #![trigger left[k], found[j]]
        0 <= k < left.len() && 0 <= j < found.len() ==> found[j] != Some(left[k])
    &&& forall|c: int|
        #![trigger left.contains(c)]
        0 <= c < emitted ==> left.contains(c) || found.contains(Some(c))
}

/// Whether `rest` are the inspected logs that no receipt log is recognised in, in emission order,
/// each with nothing changed but its log index. `left` says where each was emitted.
pub open spec fn are_left(
    all: Seq<DebankEvent>,
    start: int,
    order: Seq<int>,
    found: Seq<Option<int>>,
    left: Seq<int>,
    rest: Seq<DebankEvent>,
) -> bool {
    &&& is_left(order.len() as int, found, left)
    &&& rest.len() == left.len()
    &&& forall|k: int|
        #![trigger rest[k]]
        0 <= k < rest.len() ==> {
            &&& same_log(rest[k], all[order[left[k]]])
            &&& same_place(rest[k], all[order[left[k]]])
            &&& is_pending_at(found, left[k], rest[k].idx - start)
        }
}

proof fn lemma_order(s: Seq<CandidateModel>) -> (order: Seq<int>)
    ensures
        order.len() == s.len(),
        stable_by_idx(s).len() == s.len(),
        forall|i: int| 0 <= i < order.len() ==> 0 <= #[trigger] order[i] < s.len(),
        forall|i: int| 0 <= i < order.len() ==> stable_by_idx(s)[i] == s[#[trigger] order[i]],
        forall|p: int| 0 <= p < s.len() ==> #[trigger] order.contains(p),
        forall|i: int, j: int|
            #![trigger order[i], order[j]]
            0 <= i < j < order.len() ==> {
                &&& order[i] != order[j]
                &&& s[order[i]].event.idx < s[order[j]].event.idx || (s[order[i]].event.idx
                    == s[order[j]].event.idx && order[i] < order[j])
            },
    decreases s.len(),
{
    stable_by_idx_sorts_stably(s);
    if s.len() == 0 {
        Seq::empty()
    } else {
        let front = s.drop_last();
        let c = s.last();
        let before = lemma_order(front);
        let sorted = stable_by_idx(front);
        stable_by_idx_sorts_stably(front);
        lemma_insertion_point(sorted, c.event.idx);
        let at = insertion_point(sorted, c.event.idx);
        let order = before.insert(at, front.len() as int);
        assert(forall|i: int| 0 <= i < front.len() ==> (#[trigger] front[i]) == s[i]);
        assert forall|i: int| 0 <= i < order.len() implies 0 <= #[trigger] order[i] < s.len()
            && stable_by_idx(s)[i] == s[order[i]] by {
            if i < at {
                assert(order[i] == before[i]);
            } else if i > at {
                assert(order[i] == before[i - 1]);
            }
        }
        assert forall|p: int| 0 <= p < s.len() implies #[trigger] order.contains(p) by {
            if p < front.len() {
                assert(before.contains(p));
                let i = before.index_of(p);
                if i < at {
                    assert(order[i] == p);
                } else {
                    assert(order[i + 1] == p);
                }
            } else {
                assert(order[at] == p);
            }
        }
        assert forall|i: int, j: int|
            #![trigger order[i], order[j]]
            0 <= i < j < order.len() implies {
            &&& order[i] != order[j]
            &&& s[order[i]].event.idx < s[order[j]].event.idx || (s[order[i]].event.idx
                == s[order[j]].event.idx && order[i] < order[j])
        } by {
            let pi = if i < at {
                i
            } else {
                i - 1
            };
            let pj = if j < at {
                j
            } else {
                j - 1
            };
            if i != at {
                assert(order[i] == before[pi]);
                assert(sorted[pi] == front[before[pi]]);
            }
            if j != at {
                assert(order[j] == before[pj]);
                assert(sorted[pj] == front[before[pj]]);
            }
        }
        order
    }
}

/// How many inspected logs belong to a trace does not depend on their order.
proof fn lemma_logs_of_trace_sorted(s: Seq<CandidateModel>, id: Seq<char>)
    ensures
        logs_of_trace(stable_by_idx(s), id) == logs_of_trace(s, id),
    decreases s.len(),
{
    if s.len() > 0 {
        let front = s.drop_last();
        let sorted = stable_by_idx(front);
        lemma_logs_of_trace_sorted(front, id);
        stable_by_idx_sorts_stably(front);
        lemma_insertion_point(sorted, s.last().event.idx);
        let at = insertion_point(sorted, s.last().event.idx);
        lemma_insert_parts(sorted, at, s.last());
        lemma_logs_of_trace_add(sorted.take(at), sorted.skip(at), id);
        lemma_logs_of_trace_add(sorted.take(at) + seq![s.last()], sorted.skip(at), id);
        lemma_logs_of_trace_add(sorted.take(at), seq![s.last()], id);
        lemma_logs_of_trace_add(front, seq![s.last()], id);
        assert(s =~= front + seq![s.last()]);
    }
}

proof fn lemma_logs_of_trace_add(a: Seq<CandidateModel>, b: Seq<CandidateModel>, id: Seq<char>)
    ensures
        logs_of_trace(a + b, id) == logs_of_trace(a, id) + logs_of_trace(b, id),
    decreases b.len(),
{
    if b.len() == 0 {
        assert(a + b =~= a);
    } else {
        lemma_logs_of_trace_add(a, b.drop_last(), id);
        assert((a + b).drop_last() =~= a + b.drop_last());
    }
}

proof fn lemma_events_under(events: Seq<DebankEvent>, receipt_eligible: bool, id: Seq<char>)
    ensures
        logs_of_trace(as_candidates(event_models(events), receipt_eligible), id) == events_under(
            events,
            id,
        ),
    decreases events.len(),
{
    let all = as_candidates(event_models(events), receipt_eligible);
    if events.len() > 0 {
        lemma_events_under(events.drop_last(), receipt_eligible, id);
        assert(all.drop_last() =~= as_candidates(
            event_models(events.drop_last()),
            receipt_eligible,
        ));
        assert(all.last().event == events.last()@);
    }
}

proof fn lemma_events_under_add(a: Seq<DebankEvent>, b: Seq<DebankEvent>, id: Seq<char>)
    ensures
        events_under(a + b, id) == events_under(a, id) + events_under(b, id),
    decreases b.len(),
{
    if b.len() == 0 {
        assert(a + b =~= a);
    } else {
        lemma_events_under_add(a, b.drop_last(), id);
        assert((a + b).drop_last() =~= a + b.drop_last());
    }
}

/// What is passed was passed by the last match.
proof fn lemma_passed_by(logs: Seq<CandidateModel>, receipt: Seq<EventModel>, j: int) -> (i: int)
    requires
        0 <= j <= receipt.len(),
        passed(logs, receipt, j) > 0,
    ensures
        0 <= i < j,
        match_of(logs, receipt, i) == Some(passed(logs, receipt, j) - 1),
    decreases j,
{
    if match_of(logs, receipt, j - 1) is Some {
        j - 1
    } else {
        lemma_passed_by(logs, receipt, j - 1)
    }
}

/// A match lies between what is passed before it and what is passed behind it.
proof fn lemma_match_bounds(logs: Seq<CandidateModel>, receipt: Seq<EventModel>, i: int, j: int)
    requires
        0 <= i < j <= receipt.len(),
        match_of(logs, receipt, i) is Some,
    ensures
        passed(logs, receipt, i) <= match_of(logs, receipt, i)->0 < passed(logs, receipt, j),
        match_of(logs, receipt, i)->0 < logs.len(),
{
    lemma_passed_bounds(logs, receipt, i);
    first_match_is_first(logs, receipt[i].payload(), passed(logs, receipt, i));
    lemma_passed_monotone(logs, receipt, i + 1, j);
}

/// Where the logs that were passed over were emitted.
proof fn lemma_passed_over_places(
    logs: Seq<CandidateModel>,
    receipt: Seq<EventModel>,
    start: int,
    j: int,
) -> (left: Seq<int>)
    requires
        0 <= j <= receipt.len(),
    ensures
        left.len() == passed_over(logs, receipt, start, j).len(),
        forall|k: int|
            0 <= k < left.len() ==> 0 <= #[trigger] left[k] < passed(logs, receipt, j),
        forall|k: int, l: int|
            #![trigger left[k], left[l]]
            0 <= k < l < left.len() ==> left[k] < left[l],
        forall|k: int, i: int|
            #![trigger left[k], match_of(logs, receipt, i)]
            0 <= k < left.len() && 0 <= i < j ==> match_of(logs, receipt, i) != Some(left[k]),
        forall|c: int|
            #![trigger left.contains(c)]
            0 <= c < passed(logs, receipt, j) ==> left.contains(c) || exists|i: int|
                0 <= i < j && #[trigger] match_of(logs, receipt, i) == Some(c),
        forall|k: int|
            #![trigger left[k]]
            0 <= k < left.len() ==> {
                let log = passed_over(logs, receipt, start, j)[k];
                let t = log.idx - start;
                &&& log == logs[left[k]].event.at_index(log.idx)
                &&& 0 <= t < j
                &&& passed(logs, receipt, t) <= left[k]
                &&& match_of(logs, receipt, t) is Some
                &&& match_of(logs, receipt, t)->0 > left[k]
            },
    decreases j,
{
    if j == 0 {
        Seq::empty()
    } else {
        let before = lemma_passed_over_places(logs, receipt, start, j - 1);
        let from = passed(logs, receipt, j - 1);
        lemma_passed_bounds(logs, receipt, j - 1);
        first_match_is_first(logs, receipt[j - 1].payload(), from);
        match match_of(logs, receipt, j - 1) {
            None => {
                assert(passed_over(logs, receipt, start, j) == passed_over(
                    logs,
                    receipt,
                    start,
                    j - 1,
                ));
                before
            },
            Some(d) => {
                let gap = Seq::new((d - from) as nat, |x: int| from + x);
                let left = before + gap;
                let now = passed_over(logs, receipt, start, j);
                let old_logs = passed_over(logs, receipt, start, j - 1);
                let gap_logs = logs_at_index(logs, from, d, start + j - 1);
                assert(now == old_logs + gap_logs);
                assert forall|k: int, i: int|
                    #![trigger left[k], match_of(logs, receipt, i)]
                    0 <= k < left.len() && 0 <= i < j implies match_of(logs, receipt, i) != Some(
                    left[k],
                ) by {
                    if match_of(logs, receipt, i) is Some && i < j - 1 {
                        lemma_match_bounds(logs, receipt, i, j - 1);
                    }
                    if k < before.len() {
                        assert(left[k] == before[k]);
                    } else {
                        assert(left[k] == gap[k - before.len()]);
                    }
                }
                assert forall|c: int|
                    #![trigger left.contains(c)]
                    0 <= c < passed(logs, receipt, j) implies left.contains(c) || exists|i: int|
                    0 <= i < j && #[trigger] match_of(logs, receipt, i) == Some(c) by {
                    if c < from {
                        if before.contains(c) {
                            let k = before.index_of(c);
                            assert(left[k] == c);
                        }
                    } else if c < d {
                        assert(gap[c - from] == c);
                        assert(left[before.len() + (c - from)] == c);
                    } else {
                        assert(match_of(logs, receipt, j - 1) == Some(c));
                    }
                }
                assert forall|k: int|
                    #![trigger left[k]]
                    0 <= k < left.len() implies {
                    let log = now[k];
                    let t = log.idx - start;
                    &&& log == logs[left[k]].event.at_index(log.idx)
                    &&& 0 <= t < j
                    &&& passed(logs, receipt, t) <= left[k]
                    &&& match_of(logs, receipt, t) is Some
                    &&& match_of(logs, receipt, t)->0 > left[k]
                } by {
                    if k < before.len() {
                        assert(left[k] == before[k]);
                        assert(now[k] == old_logs[k]);
                    } else {
                        assert(now[k] == gap_logs[k - before.len()]);
                        assert(left[k] == from + (k - before.len()));
                    }
                }
                left
            },
        }
    }
}

proof fn lemma_last_match(logs: Seq<CandidateModel>, receipt: Seq<EventModel>, j: int)
    requires
        0 <= j <= receipt.len(),
    ensures
        0 <= after_last_match(logs, receipt, j) <= j,
        after_last_match(logs, receipt, j) > 0 ==> match_of(
            logs,
            receipt,
            after_last_match(logs, receipt, j) - 1,
        ) is Some,
        forall|i: int|
            after_last_match(logs, receipt, j) <= i < j ==> (#[trigger] match_of(
                logs,
                receipt,
                i,
            )) is None,
    decreases j,
{
    if j > 0 && match_of(logs, receipt, j - 1) is None {
        lemma_last_match(logs, receipt, j - 1);
    }
}

proof fn lemma_unrecognised(
    logs: Seq<CandidateModel>,
    receipt: Seq<EventModel>,
    found: Seq<Option<int>>,
    j: int,
)
    requires
        0 <= j <= receipt.len(),
        found.len() == receipt.len(),
        forall|i: int| 0 <= i < found.len() ==> #[trigger] found[i] == match_of(logs, receipt, i),
    ensures
        unmatched_before(logs, receipt, j) == unrecognised_before(found, j),
    decreases j,
{
    if j > 0 {
        lemma_unrecognised(logs, receipt, found, j - 1);
        assert(found[j - 1] == match_of(logs, receipt, j - 1));
    }
}

/// The inspected logs are the events and error events in emission order.
pub proof fn inspected_logs_are_in_emission_order(
    events: Seq<DebankEvent>,
    error_events: Seq<DebankEvent>,
    match_error_events: bool,
) -> (order: Seq<int>)
    ensures
        is_emission_order(events + error_events, order),
        ({
            let logs = inspected_logs(
                event_models(events),
                event_models(error_events),
                match_error_events,
            );
            let all = events + error_events;
            &&& logs.len() == all.len()
            &&& forall|c: int|
                #![trigger logs[c]]
                #![trigger order[c]]
                0 <= c < logs.len() ==> {
                    &&& logs[c].event == all[order[c]]@
                    &&& logs[c].receipt_eligible == may_be_recognised(
                        events,
                        match_error_events,
                        order,
                        c,
                    )
                }
        }),
{
    let all = events + error_events;
    let s = as_candidates(event_models(events), true) + as_candidates(
        event_models(error_events),
        match_error_events,
    );
    let order = lemma_order(s);
    contents_stand_for_events(events, true);
    contents_stand_for_events(error_events, match_error_events);
    assert forall|i: int| 0 <= i < all.len() implies {
        &&& (#[trigger] s[i]).event == all[i]@
        &&& s[i].receipt_eligible == (i < events.len() || match_error_events)
        &&& s[i].event.idx == all[i].idx
    } by {
        if i < events.len() {
            assert(s[i] == as_candidates(event_models(events), true)[i]);
        } else {
            assert(s[i] == as_candidates(event_models(error_events), match_error_events)[i
                - events.len()]);
        }
        a_content_is_log_place_and_index(all[i], all[i], 0);
    }
    assert forall|i: int, j: int|
        #![trigger order[i], order[j]]
        0 <= i < j < order.len() implies {
        &&& order[i] != order[j]
        &&& all[order[i]].idx < all[order[j]].idx || (all[order[i]].idx == all[order[j]].idx
            && order[i] < order[j])
    } by {
        assert(s[order[i]].event.idx == all[order[i]].idx);
        assert(s[order[j]].event.idx == all[order[j]].idx);
    }
    assert forall|c: int|
        #![trigger order[c]]
        0 <= c < order.len() implies s[order[c]].event == all[order[c]]@ by {}
    order
}

proof fn lemma_is_recognised_in(
    events: Seq<DebankEvent>,
    error_events: Seq<DebankEvent>,
    match_error_events: bool,
    persisted: Seq<DebankEvent>,
    order: Seq<int>,
    logs: Seq<CandidateModel>,
    found: Seq<Option<int>>,
)
    requires
        order.len() == logs.len(),
        forall|c: int|
            #![trigger logs[c]]
            #![trigger order[c]]
            0 <= c < logs.len() ==> {
                &&& logs[c].event == (events + error_events)[order[c]]@
                &&& logs[c].receipt_eligible == may_be_recognised(
                    events,
                    match_error_events,
                    order,
                    c,
                )
            },
        found.len() == persisted.len(),
        forall|j: int|
            0 <= j < found.len() ==> #[trigger] found[j] == match_of(
                logs,
                event_models(persisted),
                j,
            ),
    ensures
        is_recognised_in(events, error_events, match_error_events, persisted, order, found),
{
    let all = events + error_events;
    let receipt = event_models(persisted);
    assert forall|j: int| 0 <= j < found.len() && (#[trigger] found[j]) is Some implies {
        &&& 0 <= found[j]->0 < order.len()
        &&& may_be_recognised(events, match_error_events, order, found[j]->0)
        &&& same_log(all[order[found[j]->0]], persisted[j])
    } by {
        matches_share_their_payload(logs, receipt, j);
        let c = found[j]->0;
        assert(logs[c].event == all[order[c]]@);
        assert(receipt[j] == persisted[j]@);
        a_payload_is_the_whole_log(all[order[c]], persisted[j]);
    }
    assert forall|i: int, j: int|
        #![trigger found[i], found[j]]
        0 <= i < j < found.len() && found[i] is Some && found[j] is Some implies found[i]->0
        < found[j]->0 by {
        matches_keep_order(logs, receipt, i, j);
    }
    assert forall|j: int, c: int|
        #![trigger found[j], order[c]]
        0 <= j < found.len() && 0 <= c < order.len() && may_be_recognised(
            events,
            match_error_events,
            order,
            c,
        ) && same_log(all[order[c]], persisted[j]) && (forall|i: int|
            0 <= i < j && (#[trigger] found[i]) is Some ==> found[i]->0 < c) implies {
        &&& found[j] is Some
        &&& found[j]->0 <= c
    } by {
        if passed(logs, receipt, j) > c {
            let i = lemma_passed_by(logs, receipt, j);
            assert(found[i] == match_of(logs, receipt, i));
            assert(found[i]->0 < c);
        }
        assert(logs[c].event == all[order[c]]@);
        assert(receipt[j] == persisted[j]@);
        a_payload_is_the_whole_log(all[order[c]], persisted[j]);
        matching_is_greedy(logs, receipt, j, c);
    }
}

/// Where the logs that no receipt log is recognised in were emitted.
proof fn lemma_left_places(
    logs: Seq<CandidateModel>,
    receipt: Seq<EventModel>,
    start: int,
    found: Seq<Option<int>>,
) -> (left: Seq<int>)
    requires
        found.len() == receipt.len(),
        forall|j: int| 0 <= j < found.len() ==> #[trigger] found[j] == match_of(logs, receipt, j),
    ensures
        is_left(logs.len() as int, found, left),
        left.len() == inspector_only(logs, receipt, start).len(),
        forall|k: int|
            #![trigger left[k]]
            0 <= k < left.len() ==> {
                let log = inspector_only(logs, receipt, start)[k];
                &&& log == logs[left[k]].event.at_index(log.idx)
                &&& is_pending_at(found, left[k], log.idx - start)
            },
{
    let n = receipt.len() as int;
    let front = lemma_passed_over_places(logs, receipt, start, n);
    let at = passed(logs, receipt, n);
    let behind = after_last_match(logs, receipt, n);
    lemma_passed_bounds(logs, receipt, n);
    lemma_last_match(logs, receipt, n);
    let tail = Seq::new((logs.len() - at) as nat, |x: int| at + x);
    let left = front + tail;
    let front_logs = passed_over(logs, receipt, start, n);
    let tail_logs = logs_at_index(logs, at, logs.len() as int, start + behind);
    assert(inspector_only(logs, receipt, start) == front_logs + tail_logs);
    assert(tail_logs.len() == tail.len());
    assert forall|k: int, l: int|
        #![trigger left[k], left[l]]
        0 <= k < l < left.len() implies left[k] < left[l] by {
        if l < front.len() {
            assert(left[k] == front[k] && left[l] == front[l]);
        } else {
            assert(left[l] == at + (l - front.len()));
            if k < front.len() {
                assert(left[k] == front[k]);
            }
        }
    }
    assert forall|k: int| 0 <= k < left.len() implies 0 <= #[trigger] left[k] < logs.len() by {
        if k < front.len() {
            assert(left[k] == front[k]);
        }
    }
    assert forall|k: int, j: int|
        #![trigger left[k], found[j]]
        0 <= k < left.len() && 0 <= j < found.len() implies found[j] != Some(left[k]) by {
        assert(found[j] == match_of(logs, receipt, j));
        if k < front.len() {
            assert(left[k] == front[k]);
        } else if found[j] is Some {
            lemma_match_bounds(logs, receipt, j, n);
        }
    }
    assert forall|c: int|
        #![trigger left.contains(c)]
        0 <= c < logs.len() implies left.contains(c) || found.contains(Some(c)) by {
        if c < at {
            if front.contains(c) {
                let k = front.index_of(c);
                assert(left[k] == c);
            } else {
                let i = choose|i: int|
                    0 <= i < n && #[trigger] match_of(logs, receipt, i) == Some(c);
                assert(found[i] == Some(c));
            }
        } else {
            assert(left[front.len() + (c - at)] == c);
        }
    }
    assert forall|k: int|
        #![trigger left[k]]
        0 <= k < left.len() implies {
        let log = inspector_only(logs, receipt, start)[k];
        &&& log == logs[left[k]].event.at_index(log.idx)
        &&& is_pending_at(found, left[k], log.idx - start)
    } by {
        let log = inspector_only(logs, receipt, start)[k];
        let c = left[k];
        let t = log.idx - start;
        if k < front.len() {
            assert(left[k] == front[k]);
            assert(log == front_logs[k]);
            assert(found[t] == match_of(logs, receipt, t));
            assert forall|j: int| 0 <= j < t && (#[trigger] found[j]) is Some implies found[j]->0
                < c by {
                lemma_match_bounds(logs, receipt, j, t);
            }
        } else {
            assert(log == tail_logs[k - front.len()]);
            assert(left[k] == at + (k - front.len()));
            assert(log == logs[c].event.at_index(start + behind));
            assert forall|j: int| 0 <= j < t && (#[trigger] found[j]) is Some implies found[j]->0
                < c by {
                lemma_match_bounds(logs, receipt, j, n);
            }
            assert forall|j: int| t <= j < found.len() implies (#[trigger] found[j]) is None by {
                assert(match_of(logs, receipt, j) is None);
            }
            assert(t > 0 ==> found[t - 1] == match_of(logs, receipt, t - 1));
        }
    }
    left
}

proof fn lemma_are_left(
    all: Seq<DebankEvent>,
    start: int,
    order: Seq<int>,
    logs: Seq<CandidateModel>,
    receipt: Seq<EventModel>,
    found: Seq<Option<int>>,
    rest: Seq<DebankEvent>,
) -> (left: Seq<int>)
    requires
        order.len() == logs.len(),
        forall|c: int|
            #![trigger logs[c]]
            0 <= c < logs.len() ==> logs[c].event == all[order[c]]@,
        found.len() == receipt.len(),
        forall|j: int|
            0 <= j < found.len() ==> #[trigger] found[j] == match_of(logs, receipt, j),
        event_models(rest) == inspector_only(logs, receipt, start),
    ensures
        are_left(all, start, order, found, left, rest),
{
    let left = lemma_left_places(logs, receipt, start, found);
    contents_stand_for_events(rest, true);
    assert forall|k: int|
        #![trigger rest[k]]
        0 <= k < rest.len() implies {
        &&& same_log(rest[k], all[order[left[k]]])
        &&& same_place(rest[k], all[order[left[k]]])
        &&& is_pending_at(found, left[k], rest[k].idx - start)
    } by {
        let log = event_models(rest)[k];
        assert(log == rest[k]@);
        assert(log == logs[left[k]].event.at_index(log.idx));
        a_content_is_log_place_and_index(rest[k], all[order[left[k]]], log.idx);
    }
    left
}

proof fn lemma_written_recognised(
    seen: DebankEvent,
    log: DebankEvent,
    idx: int,
    out: DebankEvent,
)
    requires
        out@ == seen@.at_index(idx),
        seen@.payload() == log@.payload(),
    ensures
        same_log(out, log),
        same_place(out, seen),
        out.idx == idx,
{
    a_content_is_log_place_and_index(out, seen, idx);
    a_payload_is_the_whole_log(out, log);
    a_payload_is_the_whole_log(out, seen);
}

proof fn lemma_written_under_root<F: Fn(&DebankEvent) -> String>(
    log: DebankEvent,
    trace_id: Seq<char>,
    position: int,
    idx: int,
    debank_id: F,
    out: DebankEvent,
)
    requires
        out@ == (EventModel { id: out@.id, ..placed(log@, trace_id, position).at_index(idx) }),
        identifies(debank_id, placed(log@, trace_id, position), out@.id),
    ensures
        same_log(out, log),
        out.idx == idx,
        out.parent_trace_id@ == trace_id,
        out.pos_in_parent_trace == position,
        is_id_at(debank_id, log, trace_id, position, out.id@),
{
    let model = placed(log@, trace_id, position);
    a_payload_is_the_whole_log(out, log);
    a_content_is_log_place_and_index(out, log, idx);
    let (e, text) = choose|e: DebankEvent, text: String|
        #![trigger call_ensures(debank_id, (&e,), text)]
        e@ == model && text@ == out@.id && call_ensures(debank_id, (&e,), text);
    a_payload_is_the_whole_log(e, log);
    a_content_is_log_place_and_index(e, log, 0);
    assert(call_ensures(debank_id, (&e,), text));
}

proof fn lemma_is_written_at<B, F: Fn(&DebankEvent) -> String>(
    all: Seq<DebankEvent>,
    persisted: Seq<DebankEvent>,
    root: Option<DebankTrace<B>>,
    start: int,
    debank_id: F,
    order: Seq<int>,
    found: Seq<Option<int>>,
    out: Seq<DebankEvent>,
    logs: Seq<CandidateModel>,
    j: int,
)
    requires
        0 <= j < out.len() == persisted.len(),
        found.len() == persisted.len(),
        forall|i: int|
            0 <= i < found.len() ==> #[trigger] found[i] == match_of(
                logs,
                event_models(persisted),
                i,
            ),
        forall|c: int|
            #![trigger logs[c]]
            0 <= c < logs.len() ==> logs[c].event == all[order[c]]@,
        ({
            let place = RootPlace { id: root_id(root), subtraces: root_calls(root) };
            &&& is_receipt_event(
                logs,
                event_models(persisted),
                place,
                start,
                debank_id,
                j,
                out[j]@,
            )
            &&& first_root_position(logs, place) == root_calls(root) + events_under(
                all,
                root_id(root),
            )
        }),
    ensures
        is_written_at(all, persisted, root, start, debank_id, order, found, out, j),
{
    let receipt = event_models(persisted);
    assert(receipt[j] == persisted[j]@);
    lemma_unrecognised(logs, receipt, found, j);
    if let Some(c) = match_of(logs, receipt, j) {
        matches_share_their_payload(logs, receipt, j);
        assert(logs[c].event == all[order[c]]@);
        lemma_written_recognised(all[order[c]], persisted[j], start + j, out[j]);
    } else {
        lemma_written_under_root(
            persisted[j],
            root_id(root),
            root_calls(root) + events_under(all, root_id(root)) + unrecognised_before(found, j),
            start + j,
            debank_id,
            out[j],
        );
    }
}

proof fn lemma_root_position<B>(
    events: Seq<DebankEvent>,
    error_events: Seq<DebankEvent>,
    match_error_events: bool,
    root: Option<DebankTrace<B>>,
)
    ensures
        first_root_position(
            inspected_logs(event_models(events), event_models(error_events), match_error_events),
            RootPlace { id: root_id(root), subtraces: root_calls(root) },
        ) == root_calls(root) + events_under(events + error_events, root_id(root)),
{
    let id = root_id(root);
    let a = as_candidates(event_models(events), true);
    let b = as_candidates(event_models(error_events), match_error_events);
    lemma_logs_of_trace_sorted(a + b, id);
    lemma_logs_of_trace_add(a, b, id);
    lemma_events_under(events, true, id);
    lemma_events_under(error_events, match_error_events, id);
    lemma_events_under_add(events, error_events, id);
}

proof fn lemma_are_written<B, F: Fn(&DebankEvent) -> String>(
    events: Seq<DebankEvent>,
    error_events: Seq<DebankEvent>,
    persisted: Seq<DebankEvent>,
    root: Option<DebankTrace<B>>,
    match_error_events: bool,
    start: int,
    debank_id: F,
    out: Seq<DebankEvent>,
    order: Seq<int>,
    found: Seq<Option<int>>,
)
    requires
        ({
            let logs = inspected_logs(
                event_models(events),
                event_models(error_events),
                match_error_events,
            );
            let receipt = event_models(persisted);
            let place = match root {
                Some(trace) => trace.place(),
                None => no_root(),
            };
            let models = event_models(out);
            &&& models.len() == receipt.len()
            &&& forall|j: int|
                0 <= j < receipt.len() ==> is_receipt_event(
                    logs,
                    receipt,
                    place,
                    start,
                    debank_id,
                    j,
                    #[trigger] models[j],
                )
            &&& found.len() == persisted.len()
            &&& forall|j: int|
                0 <= j < found.len() ==> #[trigger] found[j] == match_of(logs, receipt, j)
            &&& forall|c: int|
                #![trigger logs[c]]
                0 <= c < logs.len() ==> logs[c].event == (events + error_events)[order[c]]@
        }),
    ensures
        are_written(events + error_events, persisted, root, start, debank_id, order, found, out),
{
    let all = events + error_events;
    let logs = inspected_logs(event_models(events), event_models(error_events), match_error_events);
    let place = match root {
        Some(trace) => trace.place(),
        None => no_root(),
    };
    assert(place == (RootPlace { id: root_id(root), subtraces: root_calls(root) }));
    lemma_root_position(events, error_events, match_error_events, root);
    contents_stand_for_events(out, true);
    contents_stand_for_events(persisted, true);
    assert forall|j: int| 0 <= j < out.len() implies #[trigger] is_written_at(
        all,
        persisted,
        root,
        start,
        debank_id,
        order,
        found,
        out,
        j,
    ) by {
        assert(event_models(out)[j] == out[j]@);
        lemma_is_written_at(all, persisted, root, start, debank_id, order, found, out, logs, j);
    }
}

/// What reconciling does, said of the events that go in and come out: the receipt logs are
/// recognised, in order and greedily, among the inspected logs in emission order; recognised ones
/// keep the place at which they were seen, all others go under the root; the inspected logs that
/// remain stay as they are. Every receipt log has its log index.
pub proof fn reconciling_keeps_logs_and_places<B, F: Fn(&DebankEvent) -> String>(
    events: Seq<DebankEvent>,
    error_events: Seq<DebankEvent>,
    persisted: Seq<DebankEvent>,
    root: Option<DebankTrace<B>>,
    match_error_events: bool,
    start: int,
    debank_id: F,
    out: Seq<DebankEvent>,
    rest: Seq<DebankEvent>,
    end: int,
) -> (w: (Seq<int>, Seq<Option<int>>, Seq<int>))
    requires
        reconciles(
            events,
            error_events,
            persisted,
            root,
            match_error_events,
            start,
            debank_id,
            out,
            rest,
            end,
        ),
    ensures
        end == start + persisted.len(),
        is_emission_order(events + error_events, w.0),
        is_recognised_in(events, error_events, match_error_events, persisted, w.0, w.1),
        are_written(
            events + error_events,
            persisted,
            root,
            start,
            debank_id,
            w.0,
            w.1,
            out,
        ),
        are_left(events + error_events, start, w.0, w.1, w.2, rest),
{
    let all = events + error_events;
    let logs = inspected_logs(event_models(events), event_models(error_events), match_error_events);
    let receipt = event_models(persisted);
    let order = inspected_logs_are_in_emission_order(events, error_events, match_error_events);
    let found = Seq::new(persisted.len(), |j: int| match_of(logs, receipt, j));
    lemma_is_recognised_in(
        events,
        error_events,
        match_error_events,
        persisted,
        order,
        logs,
        found,
    );
    let left = lemma_are_left(all, start, order, logs, receipt, found, rest);
    lemma_are_written(
        events,
        error_events,
        persisted,
        root,
        match_error_events,
        start,
        debank_id,
        out,
        order,
        found,
    );
    (order, found, left)
}

/// What looking up receipt logs does, said of the logs themselves: each is recognised in an
/// eligible log that says the same, later than the one before, and in the first that there is.
pub proof fn receipt_logs_are_recognised_in_order(
    candidates: Seq<Candidate>,
    receipt: Seq<DebankEvent>,
    found: Seq<Option<usize>>,
)
    requires
        found.len() == receipt.len(),
        forall|j: int|
            0 <= j < receipt.len() ==> match #[trigger] found[j] {
                Some(c) => match_of(candidate_models(candidates), event_models(receipt), j) == Some(
                    c as int,
                ),
                None => match_of(candidate_models(candidates), event_models(receipt), j) is None,
            },
    ensures
        forall|j: int|
            0 <= j < found.len() && (#[trigger] found[j]) is Some ==> {
                &&& found[j]->0 < candidates.len()
                &&& candidates[found[j]->0 as int].receipt_eligible
                &&& same_log(candidates[found[j]->0 as int].event, receipt[j])
            },
        forall|i: int, j: int|
            #![trigger found[i], found[j]]
            0 <= i < j < found.len() && found[i] is Some && found[j] is Some ==> found[i]->0
                < found[j]->0,
        forall|j: int, c: int|
            #![trigger found[j], candidates[c]]
            0 <= j < found.len() && 0 <= c < candidates.len() && candidates[c].receipt_eligible
                && same_log(candidates[c].event, receipt[j]) && (forall|i: int|
                0 <= i < j && (#[trigger] found[i]) is Some ==> found[i]->0 < c) ==> {
                &&& found[j] is Some
                &&& found[j]->0 <= c
            },
{
    let logs = candidate_models(candidates);
    let models = event_models(receipt);
    assert forall|j: int| 0 <= j < found.len() && (#[trigger] found[j]) is Some implies {
        &&& found[j]->0 < candidates.len()
        &&& candidates[found[j]->0 as int].receipt_eligible
        &&& same_log(candidates[found[j]->0 as int].event, receipt[j])
    } by {
        matches_share_their_payload(logs, models, j);
        let c = found[j]->0 as int;
        assert(logs[c] == candidates[c]@);
        assert(models[j] == receipt[j]@);
        a_payload_is_the_whole_log(candidates[c].event, receipt[j]);
    }
    assert forall|i: int, j: int|
        #![trigger found[i], found[j]]
        0 <= i < j < found.len() && found[i] is Some && found[j] is Some implies found[i]->0
        < found[j]->0 by {
        matches_keep_order(logs, models, i, j);
    }
    assert forall|j: int, c: int|
        #![trigger found[j], candidates[c]]
        0 <= j < found.len() && 0 <= c < candidates.len() && candidates[c].receipt_eligible
            && same_log(candidates[c].event, receipt[j]) && (forall|i: int|
            0 <= i < j && (#[trigger] found[i]) is Some ==> found[i]->0 < c) implies {
        &&& found[j] is Some
        &&& found[j]->0 <= c
    } by {
        if passed(logs, models, j) > c {
            let i = lemma_passed_by(logs, models, j);
            assert(found[i] is Some);
            assert(found[i]->0 < c);
        }
        assert(logs[c] == candidates[c]@);
        assert(models[j] == receipt[j]@);
        a_payload_is_the_whole_log(candidates[c].event, receipt[j]);
        matching_is_greedy(logs, models, j, c);
    }
}

} // verus!
