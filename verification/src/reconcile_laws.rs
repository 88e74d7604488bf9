//! What reconciling the logs of a transaction keeps.
use vstd::prelude::*;

use crate::candidates::{
    as_candidates, inspected_logs, stable_by_idx_sorts_stably, CandidateModel,
};
use crate::event::{DebankEvent, EventModel};
use crate::matching::{
    after_last_match, first_match_is_first, lemma_passed_bounds, lemma_unmatched_monotone,
    match_of, matches_share_their_payload, passed, recognises, unmatched_before,
};
use crate::reconcile::{
    first_root_position, inspector_only, is_receipt_event, logs_at_index, passed_over,
};
use crate::trace::RootPlace;

verus! {

/// A receipt log keeps its payload and gets its log index, whether or not the inspector saw it.
pub proof fn receipt_logs_keep_payload_and_log_index<F: Fn(&DebankEvent) -> String>(
    candidates: Seq<CandidateModel>,
    receipt: Seq<EventModel>,
    root: RootPlace,
    start: int,
    debank_id: F,
    j: int,
    out: EventModel,
)
    requires
        0 <= j < receipt.len(),
        is_receipt_event(candidates, receipt, root, start, debank_id, j, out),
    ensures
        out.payload() == receipt[j].payload(),
        out.idx == start + j,
{
    if match_of(candidates, receipt, j) is Some {
        matches_share_their_payload(candidates, receipt, j);
    }
}

/// Logs from outside the interpreter go under the root trace at positions that start behind its
/// own members and grow with the log index, so that no two share a position.
pub proof fn handler_logs_take_free_root_positions<F: Fn(&DebankEvent) -> String>(
    candidates: Seq<CandidateModel>,
    receipt: Seq<EventModel>,
    root: RootPlace,
    start: int,
    debank_id: F,
    i: int,
    j: int,
    out_i: EventModel,
    out_j: EventModel,
)
    requires
        0 <= i < j < receipt.len(),
        match_of(candidates, receipt, i) is None,
        match_of(candidates, receipt, j) is None,
        is_receipt_event(candidates, receipt, root, start, debank_id, i, out_i),
        is_receipt_event(candidates, receipt, root, start, debank_id, j, out_j),
    ensures
        first_root_position(candidates, root) <= out_i.pos_in_parent_trace
            < out_j.pos_in_parent_trace,
{
    lemma_unmatched_monotone(candidates, receipt, 0, i);
    lemma_unmatched_monotone(candidates, receipt, i + 1, j);
}

/// The inspected logs that the first `j` receipt logs stand for.
pub open spec fn taken(
    candidates: Seq<CandidateModel>,
    receipt: Seq<EventModel>,
    j: int,
) -> Seq<CandidateModel>
    decreases j,
{
    if j <= 0 {
        Seq::empty()
    } else {
        let before = taken(candidates, receipt, j - 1);
        match match_of(candidates, receipt, j - 1) {
            Some(c) => before.push(candidates[c]),
            None => before,
        }
    }
}

/// The inspected logs passed over while the first `j` receipt logs were looked up.
pub open spec fn skipped(
    candidates: Seq<CandidateModel>,
    receipt: Seq<EventModel>,
    j: int,
) -> Seq<CandidateModel>
    decreases j,
{
    if j <= 0 {
        Seq::empty()
    } else {
        let before = skipped(candidates, receipt, j - 1);
        match match_of(candidates, receipt, j - 1) {
            Some(c) => before + candidates.subrange(passed(candidates, receipt, j - 1), c),
            None => before,
        }
    }
}

/// The inspected logs that no receipt log stands for.
pub open spec fn left_out(
    candidates: Seq<CandidateModel>,
    receipt: Seq<EventModel>,
) -> Seq<CandidateModel> {
    let n = receipt.len() as int;
    skipped(candidates, receipt, n) + candidates.subrange(
        passed(candidates, receipt, n),
        candidates.len() as int,
    )
}

proof fn lemma_split(candidates: Seq<CandidateModel>, receipt: Seq<EventModel>, j: int)
    requires
        0 <= j <= receipt.len(),
    ensures
        taken(candidates, receipt, j).to_multiset().add(
            skipped(candidates, receipt, j).to_multiset(),
        ) == candidates.take(passed(candidates, receipt, j)).to_multiset(),
    decreases j,
{
    broadcast use vstd::seq_lib::group_to_multiset_ensures;

    lemma_passed_bounds(candidates, receipt, j);
    if j == 0 {
        assert(candidates.take(0) =~= Seq::<CandidateModel>::empty());
        assert(taken(candidates, receipt, 0).to_multiset().add(
            skipped(candidates, receipt, 0).to_multiset(),
        ) =~= candidates.take(0).to_multiset());
    } else {
        lemma_split(candidates, receipt, j - 1);
        let from = passed(candidates, receipt, j - 1);
        lemma_passed_bounds(candidates, receipt, j - 1);
        first_match_is_first(candidates, receipt[j - 1].payload(), from);
        if let Some(c) = match_of(candidates, receipt, j - 1) {
            let gap = candidates.subrange(from, c);
            let t = taken(candidates, receipt, j - 1);
            let s = skipped(candidates, receipt, j - 1);
            assert(candidates.take(c + 1) =~= (candidates.take(from) + gap).push(candidates[c]));
            vstd::seq_lib::lemma_multiset_commutative(candidates.take(from), gap);
            vstd::seq_lib::lemma_multiset_commutative(s, gap);
            assert(t.push(candidates[c]).to_multiset().add((s + gap).to_multiset())
                =~= candidates.take(c + 1).to_multiset());
        }
    }
}

/// Every inspected log ends up exactly once: either a receipt log stands for it, or it is left out.
pub proof fn every_inspected_log_ends_up_once(
    candidates: Seq<CandidateModel>,
    receipt: Seq<EventModel>,
)
    ensures
        taken(candidates, receipt, receipt.len() as int).to_multiset().add(
            left_out(candidates, receipt).to_multiset(),
        ) == candidates.to_multiset(),
{
    broadcast use vstd::seq_lib::group_to_multiset_ensures;

    let n = receipt.len() as int;
    lemma_split(candidates, receipt, n);
    lemma_passed_bounds(candidates, receipt, n);
    let at = passed(candidates, receipt, n);
    let rest = candidates.subrange(at, candidates.len() as int);
    assert(candidates =~= candidates.take(at) + rest);
    vstd::seq_lib::lemma_multiset_commutative(candidates.take(at), rest);
    vstd::seq_lib::lemma_multiset_commutative(skipped(candidates, receipt, n), rest);
    assert(taken(candidates, receipt, n).to_multiset().add(
        left_out(candidates, receipt).to_multiset(),
    ) =~= candidates.to_multiset());
}

proof fn lemma_passed_over_matches_skipped(
    candidates: Seq<CandidateModel>,
    receipt: Seq<EventModel>,
    start: int,
    j: int,
)
    requires
        0 <= j <= receipt.len(),
    ensures
        passed_over(candidates, receipt, start, j).len() == skipped(candidates, receipt, j).len(),
        forall|k: int|
            0 <= k < passed_over(candidates, receipt, start, j).len() ==> {
                let log = #[trigger] passed_over(candidates, receipt, start, j)[k];
                &&& log == skipped(candidates, receipt, j)[k].event.at_index(log.idx)
                &&& start <= log.idx < start + j
            },
        forall|k: int, l: int|
            0 <= k <= l < passed_over(candidates, receipt, start, j).len() ==> passed_over(
                candidates,
                receipt,
                start,
                j,
            )[k].idx <= passed_over(candidates, receipt, start, j)[l].idx,
    decreases j,
{
    if j > 0 {
        lemma_passed_over_matches_skipped(candidates, receipt, start, j - 1);
        lemma_passed_bounds(candidates, receipt, j - 1);
        first_match_is_first(
            candidates,
            receipt[j - 1].payload(),
            passed(candidates, receipt, j - 1),
        );
        let now = passed_over(candidates, receipt, start, j);
        let before = passed_over(candidates, receipt, start, j - 1);
        if let Some(c) = match_of(candidates, receipt, j - 1) {
            let from = passed(candidates, receipt, j - 1);
            let gap = logs_at_index(candidates, from, c, start + j - 1);
            assert(now == before + gap);
            assert forall|k: int| 0 <= k < now.len() implies {
                let log = #[trigger] now[k];
                &&& log == skipped(candidates, receipt, j)[k].event.at_index(log.idx)
                &&& start <= log.idx < start + j
            } by {
                if k < before.len() {
                    assert(now[k] == before[k]);
                } else {
                    assert(now[k] == gap[k - before.len()]);
                }
            }
            assert forall|k: int, l: int| 0 <= k <= l < now.len() implies now[k].idx
                <= now[l].idx by {
                if l >= before.len() {
                    assert(now[l] == gap[l - before.len()]);
                    if k < before.len() {
                        assert(now[k] == before[k]);
                    }
                } else {
                    assert(now[k] == before[k]);
                    assert(now[l] == before[l]);
                }
            }
        } else {
            assert(now == before);
        }
    }
}

proof fn lemma_after_last_match(
    candidates: Seq<CandidateModel>,
    receipt: Seq<EventModel>,
    start: int,
    j: int,
)
    requires
        0 <= j <= receipt.len(),
    ensures
        0 <= after_last_match(candidates, receipt, j) <= j,
        forall|k: int|
            0 <= k < passed_over(candidates, receipt, start, j).len() ==> (#[trigger] passed_over(
                candidates,
                receipt,
                start,
                j,
            )[k]).idx < start + after_last_match(candidates, receipt, j),
    decreases j,
{
    if j > 0 {
        lemma_after_last_match(candidates, receipt, start, j - 1);
        if match_of(candidates, receipt, j - 1) is Some {
            lemma_passed_over_matches_skipped(candidates, receipt, start, j);
        } else {
            assert(passed_over(candidates, receipt, start, j) == passed_over(
                candidates,
                receipt,
                start,
                j - 1,
            ));
        }
    }
}

/// The inspector-only logs are the inspected logs that were left out, in emission order, with
/// nothing changed but the log index. That index never falls, and lies between the first log index
/// of the transaction and the one behind its last receipt log.
pub proof fn inspector_only_logs_keep_order_and_content(
    candidates: Seq<CandidateModel>,
    receipt: Seq<EventModel>,
    start: int,
)
    ensures
        inspector_only(candidates, receipt, start).len() == left_out(candidates, receipt).len(),
        forall|k: int|
            0 <= k < inspector_only(candidates, receipt, start).len() ==> {
                let log = #[trigger] inspector_only(candidates, receipt, start)[k];
                &&& log == left_out(candidates, receipt)[k].event.at_index(log.idx)
                &&& start <= log.idx <= start + receipt.len()
            },
        forall|k: int, l: int|
            0 <= k <= l < inspector_only(candidates, receipt, start).len() ==> inspector_only(
                candidates,
                receipt,
                start,
            )[k].idx <= inspector_only(candidates, receipt, start)[l].idx,
{
    let n = receipt.len() as int;
    let all = inspector_only(candidates, receipt, start);
    let front = passed_over(candidates, receipt, start, n);
    let at = passed(candidates, receipt, n);
    let tail_idx = start + after_last_match(candidates, receipt, n);
    let tail = logs_at_index(candidates, at, candidates.len() as int, tail_idx);
    lemma_passed_bounds(candidates, receipt, n);
    lemma_passed_over_matches_skipped(candidates, receipt, start, n);
    lemma_after_last_match(candidates, receipt, start, n);
    assert(all == front + tail);
    assert forall|k: int| 0 <= k < all.len() implies {
        let log = #[trigger] all[k];
        &&& log == left_out(candidates, receipt)[k].event.at_index(log.idx)
        &&& start <= log.idx <= start + receipt.len()
    } by {
        if k < front.len() {
            assert(all[k] == front[k]);
        } else {
            assert(all[k] == tail[k - front.len()]);
        }
    }
    assert forall|k: int, l: int| 0 <= k <= l < all.len() implies all[k].idx <= all[l].idx by {
        if l < front.len() {
            assert(all[k] == front[k]);
            assert(all[l] == front[l]);
        } else {
            assert(all[l] == tail[l - front.len()]);
            if k < front.len() {
                assert(all[k] == front[k]);
            }
        }
    }
}

proof fn lemma_taken_eligible(
    candidates: Seq<CandidateModel>,
    receipt: Seq<EventModel>,
    j: int,
)
    requires
        0 <= j <= receipt.len(),
    ensures
        forall|k: int|
            0 <= k < taken(candidates, receipt, j).len() ==> (#[trigger] taken(
                candidates,
                receipt,
                j,
            )[k]).receipt_eligible,
    decreases j,
{
    if j > 0 {
        lemma_taken_eligible(candidates, receipt, j - 1);
        if match_of(candidates, receipt, j - 1) is Some {
            matches_share_their_payload(candidates, receipt, j - 1);
        }
        let before = taken(candidates, receipt, j - 1);
        let now = taken(candidates, receipt, j);
        assert forall|k: int| 0 <= k < now.len() implies (#[trigger] now[k]).receipt_eligible by {
            if k < before.len() {
                assert(now[k] == before[k]);
            }
        }
    }
}

/// Unless the root trace was misclassified, a reverted log never steals a receipt log: all error
/// events are left out, whatever the receipt holds.
pub proof fn reverted_logs_stay_out(
    events: Seq<EventModel>,
    error_events: Seq<EventModel>,
    receipt: Seq<EventModel>,
)
    ensures
        as_candidates(error_events, false).to_multiset().subset_of(
            left_out(inspected_logs(events, error_events, false), receipt).to_multiset(),
        ),
{
    broadcast use vstd::seq_lib::group_to_multiset_ensures;

    let logs = inspected_logs(events, error_events, false);
    let ok = as_candidates(events, true);
    let failed = as_candidates(error_events, false);
    let n = receipt.len() as int;
    let used = taken(logs, receipt, n);
    stable_by_idx_sorts_stably(ok + failed);
    vstd::seq_lib::lemma_multiset_commutative(ok, failed);
    every_inspected_log_ends_up_once(logs, receipt);
    lemma_taken_eligible(logs, receipt, n);
    assert forall|x: CandidateModel|
        failed.to_multiset().count(x) <= left_out(logs, receipt).to_multiset().count(x) by {
        if failed.to_multiset().count(x) > 0 {
            assert(failed.contains(x));
            assert(!x.receipt_eligible);
            assert(!used.contains(x));
            assert(used.to_multiset().count(x) == 0);
            assert(logs.to_multiset().count(x) == used.to_multiset().add(
                left_out(logs, receipt).to_multiset(),
            ).count(x));
        }
    }
}

/// Where the receipt holds exactly the inspected logs, each receipt log stands for the inspected
/// log at its own position, and no log is left out.
pub proof fn equal_logs_match_one_to_one(
    candidates: Seq<CandidateModel>,
    receipt: Seq<EventModel>,
    start: int,
)
    requires
        candidates.len() == receipt.len(),
        forall|i: int|
            0 <= i < receipt.len() ==> recognises(
                #[trigger] candidates[i],
                receipt[i].payload(),
            ),
    ensures
        forall|j: int|
            0 <= j < receipt.len() ==> #[trigger] match_of(candidates, receipt, j) == Some(j),
        inspector_only(candidates, receipt, start) == Seq::<EventModel>::empty(),
{
    assert forall|j: int| 0 <= j < receipt.len() implies #[trigger] match_of(
        candidates,
        receipt,
        j,
    ) == Some(j) by {
        lemma_equal_prefix(candidates, receipt, start, j);
    }
    lemma_equal_prefix(candidates, receipt, start, receipt.len() as int);
    assert(inspector_only(candidates, receipt, start) =~= Seq::<EventModel>::empty());
}

proof fn lemma_equal_prefix(
    candidates: Seq<CandidateModel>,
    receipt: Seq<EventModel>,
    start: int,
    j: int,
)
    requires
        candidates.len() == receipt.len(),
        0 <= j <= receipt.len(),
        forall|i: int|
            0 <= i < receipt.len() ==> recognises(
                #[trigger] candidates[i],
                receipt[i].payload(),
            ),
    ensures
        passed(candidates, receipt, j) == j,
        passed_over(candidates, receipt, start, j) == Seq::<EventModel>::empty(),
    decreases j,
{
    if j > 0 {
        lemma_equal_prefix(candidates, receipt, start, j - 1);
        assert(recognises(candidates[j - 1], receipt[j - 1].payload()));
        assert(passed_over(candidates, receipt, start, j) =~= Seq::<EventModel>::empty());
    }
}

} // verus!
