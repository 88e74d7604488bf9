//! What reverted logs can do to the logs of a receipt: nothing, unless they are eligible.
use vstd::prelude::*;

use crate::candidates::{
    as_candidates, inspected_logs, insertion_point, lemma_insert_parts, lemma_insertion_point,
    lemma_insertion_point_unique, stable_by_idx, stable_by_idx_sorts_stably, CandidateModel,
};
use crate::event::{DebankEvent, EventModel, PayloadModel};
use crate::matching::{first_match, lemma_passed_bounds, match_of, passed, recognises};
use crate::reconcile::{inspector_only, is_receipt_event, is_reconciled};
use crate::reconcile_laws::{
    inspector_only_logs_keep_order_and_content, left_out, reverted_logs_stay_out,
};
use crate::trace::RootPlace;

verus! {

/// The candidates that may be recognised in the receipt, in their given order.
pub open spec fn eligible(s: Seq<CandidateModel>) -> Seq<CandidateModel>
    decreases s.len(),
{
    if s.len() == 0 {
        Seq::empty()
    } else if s.last().receipt_eligible {
        eligible(s.drop_last()).push(s.last())
    } else {
        eligible(s.drop_last())
    }
}

proof fn lemma_eligible_add(a: Seq<CandidateModel>, b: Seq<CandidateModel>)
    ensures
        eligible(a + b) == eligible(a) + eligible(b),
    decreases b.len(),
{
    if b.len() == 0 {
        assert(a + b =~= a);
        assert(eligible(a) + eligible(b) =~= eligible(a));
    } else {
        lemma_eligible_add(a, b.drop_last());
        assert((a + b).drop_last() =~= a + b.drop_last());
        assert((a + b).last() == b.last());
        assert(eligible(a + b) =~= eligible(a) + eligible(b));
    }
}

/// Every eligible candidate is one of the candidates.
proof fn lemma_eligible_from(s: Seq<CandidateModel>, i: int) -> (k: int)
    requires
        0 <= i < eligible(s).len(),
    ensures
        0 <= k < s.len(),
        eligible(s)[i] == s[k],
    decreases s.len(),
{
    let front = s.drop_last();
    if i < eligible(front).len() {
        let k = lemma_eligible_from(front, i);
        assert(front[k] == s[k]);
        k
    } else {
        s.len() - 1
    }
}

/// Sorting and picking the eligible candidates can be done in either order.
proof fn lemma_eligible_sorted(s: Seq<CandidateModel>)
    ensures
        eligible(stable_by_idx(s)) == stable_by_idx(eligible(s)),
    decreases s.len(),
{
    if s.len() > 0 {
        let front = s.drop_last();
        let c = s.last();
        let idx = c.event.idx;
        let sorted = stable_by_idx(front);
        lemma_eligible_sorted(front);
        stable_by_idx_sorts_stably(front);
        lemma_insertion_point(sorted, idx);
        let at = insertion_point(sorted, idx);
        let head = sorted.take(at);
        let tail = sorted.skip(at);
        lemma_insert_parts(sorted, at, c);
        lemma_eligible_add(head, tail);
        lemma_eligible_add(head + seq![c], tail);
        lemma_eligible_add(head, seq![c]);
        assert(seq![c].drop_last() =~= Seq::<CandidateModel>::empty());
        reveal_with_fuel(eligible, 2);
        let parts = eligible(head) + eligible(tail);
        let here = eligible(head).len() as int;
        assert(eligible(sorted) == parts);
        if c.receipt_eligible {
            if here > 0 {
                let k = lemma_eligible_from(head, here - 1);
                assert(parts[here - 1] == sorted[k]);
            }
            assert forall|i: int| here <= i < parts.len() implies parts[i].event.idx > idx by {
                let k = lemma_eligible_from(tail, i - here);
                assert(parts[i] == sorted[at + k]);
            }
            lemma_insertion_point_unique(parts, idx, here);
            assert(eligible(seq![c]) =~= seq![c]);
            assert(eligible(front).push(c).drop_last() =~= eligible(front));
            assert(eligible(stable_by_idx(s)) =~= parts.insert(here, c));
        } else {
            assert(eligible(seq![c]) =~= Seq::<CandidateModel>::empty());
            assert(eligible(stable_by_idx(s)) =~= parts);
        }
    }
}

proof fn lemma_eligible_uniform(events: Seq<EventModel>, receipt_eligible: bool)
    ensures
        eligible(as_candidates(events, receipt_eligible)) == if receipt_eligible {
            as_candidates(events, true)
        } else {
            Seq::empty()
        },
    decreases events.len(),
{
    let all = as_candidates(events, receipt_eligible);
    if events.len() > 0 {
        lemma_eligible_uniform(events.drop_last(), receipt_eligible);
        assert(all.drop_last() =~= as_candidates(events.drop_last(), receipt_eligible));
        assert(all =~= all.drop_last().push(all.last()));
    } else {
        assert(all =~= Seq::<CandidateModel>::empty());
    }
}

/// Where error events are not eligible, the eligible ones of the inspected logs are the inspected
/// logs of the same transaction without error events.
pub proof fn eligible_logs_are_those_without_error_events(
    events: Seq<EventModel>,
    error_events: Seq<EventModel>,
)
    ensures
        eligible(inspected_logs(events, error_events, false)) == inspected_logs(
            events,
            Seq::empty(),
            false,
        ),
{
    let ok = as_candidates(events, true);
    let failed = as_candidates(error_events, false);
    lemma_eligible_sorted(ok + failed);
    lemma_eligible_add(ok, failed);
    lemma_eligible_uniform(events, true);
    lemma_eligible_uniform(error_events, false);
    assert(ok + Seq::<CandidateModel>::empty() =~= ok);
    assert(ok + as_candidates(Seq::empty(), false) =~= ok);
}

/// The number of eligible ones of the first `n` candidates.
spec fn eligible_before(s: Seq<CandidateModel>, n: int) -> int {
    eligible(s.take(n)).len() as int
}

/// An eligible candidate stands among the eligible ones behind those before it.
proof fn lemma_eligible_place(s: Seq<CandidateModel>, n: int)
    requires
        0 <= n < s.len(),
    ensures
        s[n].receipt_eligible ==> {
            &&& eligible_before(s, n + 1) == eligible_before(s, n) + 1
            &&& eligible_before(s, n) < eligible(s).len()
            &&& eligible(s)[eligible_before(s, n)] == s[n]
        },
        !s[n].receipt_eligible ==> eligible_before(s, n + 1) == eligible_before(s, n),
{
    assert(s.take(n + 1).drop_last() =~= s.take(n));
    assert(s.take(n + 1).last() == s[n]);
    lemma_eligible_add(s.take(n + 1), s.skip(n + 1));
    assert(s =~= s.take(n + 1) + s.skip(n + 1));
}

/// The first match among all candidates is the first match among the eligible ones.
proof fn lemma_first_match_eligible(s: Seq<CandidateModel>, payload: PayloadModel, from: int)
    requires
        0 <= from <= s.len(),
    ensures
        match first_match(s, payload, from) {
            Some(c) => {
                &&& from <= c < s.len()
                &&& s[c].receipt_eligible
                &&& first_match(eligible(s), payload, eligible_before(s, from)) == Some(
                    eligible_before(s, c),
                )
            },
            None => first_match(eligible(s), payload, eligible_before(s, from)) is None,
        },
    decreases s.len() - from,
{
    if from < s.len() {
        lemma_eligible_place(s, from);
        if !recognises(s[from], payload) {
            lemma_first_match_eligible(s, payload, from + 1);
        }
    } else {
        assert(s.take(from) =~= s);
    }
}

proof fn lemma_passed_eligible(s: Seq<CandidateModel>, receipt: Seq<EventModel>, j: int)
    requires
        0 <= j <= receipt.len(),
    ensures
        passed(eligible(s), receipt, j) == eligible_before(s, passed(s, receipt, j)),
    decreases j,
{
    if j > 0 {
        let before = passed(s, receipt, j - 1);
        lemma_passed_eligible(s, receipt, j - 1);
        lemma_passed_bounds(s, receipt, j - 1);
        lemma_first_match_eligible(s, receipt[j - 1].payload(), before);
        if let Some(c) = first_match(s, receipt[j - 1].payload(), before) {
            lemma_eligible_place(s, c);
        }
    } else {
        assert(s.take(0) =~= Seq::<CandidateModel>::empty());
    }
}

/// Candidates that are not eligible do not change what a receipt log stands for.
pub proof fn only_eligible_logs_decide_matches(
    s: Seq<CandidateModel>,
    receipt: Seq<EventModel>,
    j: int,
)
    requires
        0 <= j < receipt.len(),
    ensures
        match match_of(s, receipt, j) {
            Some(c) => {
                &&& match_of(eligible(s), receipt, j) is Some
                &&& eligible(s)[match_of(eligible(s), receipt, j)->0] == s[c]
            },
            None => match_of(eligible(s), receipt, j) is None,
        },
{
    lemma_passed_eligible(s, receipt, j);
    lemma_passed_bounds(s, receipt, j);
    lemma_first_match_eligible(s, receipt[j].payload(), passed(s, receipt, j));
    if let Some(c) = match_of(s, receipt, j) {
        lemma_eligible_place(s, c);
    }
}

/// The contents of events but for their log indices.
pub open spec fn without_index(events: Seq<EventModel>) -> Seq<EventModel> {
    events.map_values(|e: EventModel| e.at_index(0))
}

/// The events of candidates but for their log indices.
spec fn events_without_index(s: Seq<CandidateModel>) -> Seq<EventModel> {
    s.map_values(|c: CandidateModel| c.event.at_index(0))
}

/// If all candidates of `a` stand in `b`, so do their events.
proof fn lemma_events_stand_in(a: Seq<CandidateModel>, b: Seq<CandidateModel>)
    requires
        a.to_multiset().subset_of(b.to_multiset()),
    ensures
        events_without_index(a).to_multiset().subset_of(events_without_index(b).to_multiset()),
    decreases a.len(),
{
    broadcast use vstd::seq_lib::group_to_multiset_ensures;

    let ea = events_without_index(a);
    let eb = events_without_index(b);
    if a.len() > 0 {
        let front = a.drop_last();
        let c = a.last();
        assert(a =~= front.push(c));
        assert(a.to_multiset().count(c) > 0);
        assert(b.to_multiset().count(c) > 0);
        assert(b.contains(c));
        let at = b.index_of(c);
        let rest = b.remove(at);
        assert forall|x: CandidateModel|
            front.to_multiset().count(x) <= rest.to_multiset().count(x) by {
            assert(a.to_multiset().count(x) <= b.to_multiset().count(x));
        }
        lemma_events_stand_in(front, rest);
        assert(ea =~= events_without_index(front).push(c.event.at_index(0)));
        assert(events_without_index(rest) =~= eb.remove(at));
        assert(eb[at] == c.event.at_index(0));
        assert forall|e: EventModel| ea.to_multiset().count(e) <= eb.to_multiset().count(e) by {
            let fewer = events_without_index(front).to_multiset();
            let others = events_without_index(rest).to_multiset();
            assert(fewer.count(e) <= others.count(e));
            assert(eb.contains(eb[at]));
            assert(eb.to_multiset().count(eb[at]) > 0);
        }
    } else {
        assert forall|e: EventModel| ea.to_multiset().count(e) <= eb.to_multiset().count(e) by {
            assert(!ea.contains(e));
        }
    }
}

/// Unless the root trace was misclassified, reverted logs, those of equal payload among them, take
/// no receipt log away from a successful frame. Reconciling with and without the error events gives
/// receipt logs that agree in payload, trace and log index, and in everything else as well where
/// the inspector saw the log. The error events themselves all stand among the inspector-only logs,
/// with nothing changed but the log index.
pub proof fn reverted_logs_take_no_receipt_log<F: Fn(&DebankEvent) -> String>(
    events: Seq<EventModel>,
    error_events: Seq<EventModel>,
    receipt: Seq<EventModel>,
    root: RootPlace,
    start: int,
    debank_id: F,
    with_errors: (Seq<EventModel>, Seq<EventModel>),
    without_errors: (Seq<EventModel>, Seq<EventModel>),
)
    requires
        is_reconciled(
            inspected_logs(events, error_events, false),
            receipt,
            root,
            start,
            debank_id,
            with_errors.0,
            with_errors.1,
        ),
        is_reconciled(
            inspected_logs(events, Seq::empty(), false),
            receipt,
            root,
            start,
            debank_id,
            without_errors.0,
            without_errors.1,
        ),
    ensures
        with_errors.0.len() == without_errors.0.len(),
        forall|i: int|
            #![trigger with_errors.0[i]]
            #![trigger without_errors.0[i]]
            0 <= i < with_errors.0.len() ==> {
                &&& with_errors.0[i].payload() == without_errors.0[i].payload()
                &&& with_errors.0[i].parent_trace_id == without_errors.0[i].parent_trace_id
                &&& with_errors.0[i].idx == without_errors.0[i].idx
                &&& match_of(inspected_logs(events, error_events, false), receipt, i) is Some
                    ==> with_errors.0[i] == without_errors.0[i]
            },
        without_index(error_events).to_multiset().subset_of(
            without_index(with_errors.1).to_multiset(),
        ),
{
    let logs = inspected_logs(events, error_events, false);
    eligible_logs_are_those_without_error_events(events, error_events);
    assert forall|i: int|
        #![trigger with_errors.0[i]]
        #![trigger without_errors.0[i]]
        0 <= i < with_errors.0.len() implies {
        &&& with_errors.0[i].payload() == without_errors.0[i].payload()
        &&& with_errors.0[i].parent_trace_id == without_errors.0[i].parent_trace_id
        &&& with_errors.0[i].idx == without_errors.0[i].idx
        &&& match_of(logs, receipt, i) is Some ==> with_errors.0[i] == without_errors.0[i]
    } by {
        only_eligible_logs_decide_matches(logs, receipt, i);
        assert(is_receipt_event(logs, receipt, root, start, debank_id, i, with_errors.0[i]));
        assert(is_receipt_event(
            eligible(logs),
            receipt,
            root,
            start,
            debank_id,
            i,
            without_errors.0[i],
        ));
    }
    let failed = as_candidates(error_events, false);
    let out = left_out(logs, receipt);
    reverted_logs_stay_out(events, error_events, receipt);
    inspector_only_logs_keep_order_and_content(logs, receipt, start);
    lemma_events_stand_in(failed, out);
    assert(events_without_index(failed) =~= without_index(error_events));
    assert forall|k: int| 0 <= k < out.len() implies #[trigger] events_without_index(out)[k]
        == without_index(with_errors.1)[k] by {
        let log = inspector_only(logs, receipt, start)[k];
        assert(log == out[k].event.at_index(log.idx));
    }
    assert(events_without_index(out) =~= without_index(with_errors.1));
}

} // verus!
