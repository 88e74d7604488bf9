//! Recognises the logs of a receipt among the logs that the inspector saw.
//!
//! Receipt logs are taken in order. Each takes the first eligible inspected log of equal payload
//! behind the one that was taken last, if there is one.
use vstd::prelude::*;

use crate::candidates::{candidate_models, Candidate, CandidateModel};
use crate::event::{event_models, DebankEvent, EventModel, EventPayloadKey, PayloadModel};
use crate::payload_index::PayloadIndex;

verus! {

/// Whether an inspected log may stand for a receipt log of the given payload.
pub open spec fn recognises(candidate: CandidateModel, payload: PayloadModel) -> bool {
    candidate.receipt_eligible && candidate.event.payload() == payload
}

/// The first inspected log at or behind `from` that may stand for `payload`.
pub open spec fn first_match(
    candidates: Seq<CandidateModel>,
    payload: PayloadModel,
    from: int,
) -> Option<int>
    decreases candidates.len() - from,
{
    if from < 0 || from >= candidates.len() {
        None
    } else if recognises(candidates[from], payload) {
        Some(from)
    } else {
        first_match(candidates, payload, from + 1)
    }
}

/// How many inspected logs are behind us once the first `j` receipt logs have been looked up.
pub open spec fn passed(
    candidates: Seq<CandidateModel>,
    receipt: Seq<EventModel>,
    j: int,
) -> int
    decreases j,
{
    if j <= 0 {
        0
    } else {
        let before = passed(candidates, receipt, j - 1);
        match first_match(candidates, receipt[j - 1].payload(), before) {
            Some(c) => c + 1,
            None => before,
        }
    }
}

/// The inspected log that receipt log `j` stands for.
pub open spec fn match_of(
    candidates: Seq<CandidateModel>,
    receipt: Seq<EventModel>,
    j: int,
) -> Option<int> {
    first_match(candidates, receipt[j].payload(), passed(candidates, receipt, j))
}

/// How many of the first `j` receipt logs stand for no inspected log.
pub open spec fn unmatched_before(
    candidates: Seq<CandidateModel>,
    receipt: Seq<EventModel>,
    j: int,
) -> int
    decreases j,
{
    if j <= 0 {
        0
    } else {
        unmatched_before(candidates, receipt, j - 1) + if match_of(candidates, receipt, j - 1)
            is None {
            1int
        } else {
            0int
        }
    }
}

/// The number of receipt logs up to and with the last of the first `j` that was recognised.
pub open spec fn after_last_match(
    candidates: Seq<CandidateModel>,
    receipt: Seq<EventModel>,
    j: int,
) -> int
    decreases j,
{
    if j <= 0 {
        0
    } else if match_of(candidates, receipt, j - 1) is Some {
        j
    } else {
        after_last_match(candidates, receipt, j - 1)
    }
}

/// What `first_match` finds is the first log that fits; where it finds none, none fits.
pub proof fn first_match_is_first(
    candidates: Seq<CandidateModel>,
    payload: PayloadModel,
    from: int,
)
    requires
        0 <= from,
    ensures
        match first_match(candidates, payload, from) {
            Some(c) => {
                &&& from <= c < candidates.len()
                &&& recognises(candidates[c], payload)
                &&& forall|i: int| from <= i < c ==> !recognises(#[trigger] candidates[i], payload)
            },
            None => forall|i: int|
                from <= i < candidates.len() ==> !recognises(#[trigger] candidates[i], payload),
        },
    decreases candidates.len() - from,
{
    if from < candidates.len() && !recognises(candidates[from], payload) {
        first_match_is_first(candidates, payload, from + 1);
    }
}

/// A log that fits, with none that fits before it, is what `first_match` finds.
pub proof fn lemma_first_match_found(
    candidates: Seq<CandidateModel>,
    payload: PayloadModel,
    from: int,
    at: int,
)
    requires
        0 <= from <= at < candidates.len(),
        recognises(candidates[at], payload),
        forall|i: int| from <= i < at ==> !recognises(#[trigger] candidates[i], payload),
    ensures
        first_match(candidates, payload, from) == Some(at),
{
    first_match_is_first(candidates, payload, from);
}

/// No more inspected logs are passed than there are.
pub proof fn lemma_passed_bounds(
    candidates: Seq<CandidateModel>,
    receipt: Seq<EventModel>,
    j: int,
)
    ensures
        0 <= passed(candidates, receipt, j) <= candidates.len(),
    decreases j,
{
    if j > 0 {
        lemma_passed_bounds(candidates, receipt, j - 1);
        first_match_is_first(
            candidates,
            receipt[j - 1].payload(),
            passed(candidates, receipt, j - 1),
        );
    }
}

/// The look-up of receipt logs never goes back.
pub proof fn lemma_passed_monotone(
    candidates: Seq<CandidateModel>,
    receipt: Seq<EventModel>,
    i: int,
    j: int,
)
    requires
        i <= j,
    ensures
        passed(candidates, receipt, i) <= passed(candidates, receipt, j),
    decreases j - i,
{
    if i < j && j > 0 {
        lemma_passed_monotone(candidates, receipt, i, j - 1);
        lemma_passed_bounds(candidates, receipt, j - 1);
        first_match_is_first(
            candidates,
            receipt[j - 1].payload(),
            passed(candidates, receipt, j - 1),
        );
    }
}

/// The number of receipt logs that stand for no inspected log never falls.
pub proof fn lemma_unmatched_monotone(
    candidates: Seq<CandidateModel>,
    receipt: Seq<EventModel>,
    i: int,
    j: int,
)
    requires
        0 <= i <= j,
    ensures
        0 <= unmatched_before(candidates, receipt, i) <= unmatched_before(candidates, receipt, j),
    decreases j,
{
    if i < j {
        lemma_unmatched_monotone(candidates, receipt, i, j - 1);
    } else if i > 0 {
        lemma_unmatched_monotone(candidates, receipt, i - 1, i - 1);
    }
}

/// A receipt log only stands for an eligible inspected log of the same payload.
pub proof fn matches_share_their_payload(
    candidates: Seq<CandidateModel>,
    receipt: Seq<EventModel>,
    j: int,
)
    requires
        0 <= j < receipt.len(),
        match_of(candidates, receipt, j) is Some,
    ensures
        0 <= match_of(candidates, receipt, j)->0 < candidates.len(),
        recognises(candidates[match_of(candidates, receipt, j)->0], receipt[j].payload()),
{
    lemma_passed_bounds(candidates, receipt, j);
    first_match_is_first(candidates, receipt[j].payload(), passed(candidates, receipt, j));
}

/// Matches keep the order of emission: of two recognised receipt logs, the later one stands for
/// the later inspected log. So no inspected log is taken twice.
pub proof fn matches_keep_order(
    candidates: Seq<CandidateModel>,
    receipt: Seq<EventModel>,
    i: int,
    j: int,
)
    requires
        0 <= i < j < receipt.len(),
        match_of(candidates, receipt, i) is Some,
        match_of(candidates, receipt, j) is Some,
    ensures
        match_of(candidates, receipt, i)->0 < match_of(candidates, receipt, j)->0,
{
    lemma_passed_monotone(candidates, receipt, i + 1, j);
    lemma_passed_bounds(candidates, receipt, j);
    first_match_is_first(candidates, receipt[j].payload(), passed(candidates, receipt, j));
}

/// Matching is greedy: a receipt log is left without an inspected log only where no eligible log
/// of its payload lies behind the last one taken, and it never skips one that fits.
pub proof fn matching_is_greedy(
    candidates: Seq<CandidateModel>,
    receipt: Seq<EventModel>,
    j: int,
    c: int,
)
    requires
        0 <= j < receipt.len(),
        passed(candidates, receipt, j) <= c < candidates.len(),
        recognises(candidates[c], receipt[j].payload()),
    ensures
        match_of(candidates, receipt, j) is Some,
        match_of(candidates, receipt, j)->0 <= c,
{
    lemma_passed_bounds(candidates, receipt, j);
    first_match_is_first(candidates, receipt[j].payload(), passed(candidates, receipt, j));
}

/// Looks up every receipt log among the inspected logs.
pub fn match_receipt_logs(candidates: &Vec<Candidate>, receipt: &Vec<DebankEvent>) -> (r: Vec<
    Option<usize>,
>)
    ensures
        r.len() == receipt.len(),
        forall|j: int|
            0 <= j < receipt.len() ==> match #[trigger] r@[j] {
                Some(c) => match_of(candidate_models(candidates@), event_models(receipt@), j)
                    == Some(c as int),
                None => match_of(candidate_models(candidates@), event_models(receipt@), j) is None,
            },
{
    let ghost models = candidate_models(candidates@);
    let ghost logs = event_models(receipt@);
    let index = PayloadIndex::new(candidates);
    let mut matches: Vec<Option<usize>> = Vec::new();
    let mut next: usize = 0;
    let mut j: usize = 0;
    while j < receipt.len()
        invariant
            j <= receipt.len(),
            matches.len() == j,
            models == candidate_models(candidates@),
            logs == event_models(receipt@),
            index.indexes(models),
            next == passed(models, logs, j as int),
            next <= candidates.len(),
            forall|k: int|
                0 <= k < j ==> match #[trigger] matches@[k] {
                    Some(c) => match_of(models, logs, k) == Some(c as int),
                    None => match_of(models, logs, k) is None,
                },
        decreases receipt.len() - j,
    {
        let key: EventPayloadKey<'_> = EventPayloadKey::from(&receipt[j]);
        assert(logs[j as int] == receipt@[j as int]@);
        assert(key@ == logs[j as int].payload());
        let found = index.find(candidates, &key, next);
        if let Some(c) = found {
            next = c + 1;
        }
        matches.push(found);
        j += 1;
    }
    matches
}

} // verus!
