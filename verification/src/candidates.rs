//! Logs seen by the inspector, in the order in which they were emitted.
use vstd::prelude::*;

use crate::event::{event_models, DebankEvent, EventModel};

verus! {

/// A log that the inspector saw while a transaction ran.
#[derive(Debug)]
pub struct Candidate {
    /// The log.
    pub event: DebankEvent,
    /// Whether the log may be recognised in the receipt.
    pub receipt_eligible: bool,
}

/// The content of a [`Candidate`].
#[verifier::ext_equal]
pub struct CandidateModel {
    pub event: EventModel,
    pub receipt_eligible: bool,
}

impl View for Candidate {
    type V = CandidateModel;

    open spec fn view(&self) -> CandidateModel {
        CandidateModel { event: self.event@, receipt_eligible: self.receipt_eligible }
    }
}

/// The contents of a sequence of candidates.
pub open spec fn candidate_models(candidates: Seq<Candidate>) -> Seq<CandidateModel> {
    candidates.map_values(|c: Candidate| c@)
}

/// The candidates made of `events`.
pub open spec fn as_candidates(events: Seq<EventModel>, receipt_eligible: bool) -> Seq<
    CandidateModel,
> {
    events.map_values(|e: EventModel| CandidateModel { event: e, receipt_eligible })
}

/// Where a candidate with log index `idx` enters a sequence: behind the last candidate whose index
/// is not larger.
pub open spec fn insertion_point(s: Seq<CandidateModel>, idx: int) -> int
    decreases s.len(),
{
    if s.len() == 0 {
        0
    } else if s.last().event.idx <= idx {
        s.len() as int
    } else {
        insertion_point(s.drop_last(), idx)
    }
}

/// The candidates sorted by log index, those of equal index in their given order.
pub open spec fn stable_by_idx(s: Seq<CandidateModel>) -> Seq<CandidateModel>
    decreases s.len(),
{
    if s.len() == 0 {
        s
    } else {
        let sorted = stable_by_idx(s.drop_last());
        sorted.insert(insertion_point(sorted, s.last().event.idx), s.last())
    }
}

/// The logs that the inspector saw in a transaction, in emission order: those of `events` may be
/// in the receipt, those of `error_events` only where `match_error_events` holds.
pub open spec fn inspected_logs(
    events: Seq<EventModel>,
    error_events: Seq<EventModel>,
    match_error_events: bool,
) -> Seq<CandidateModel> {
    stable_by_idx(as_candidates(events, true) + as_candidates(error_events, match_error_events))
}

/// The candidates of one log index, in their given order.
pub open spec fn with_idx(s: Seq<CandidateModel>, idx: int) -> Seq<CandidateModel> {
    s.filter(|c: CandidateModel| c.event.idx == idx)
}

/// Whether the candidates stand in the order of their log indices.
pub open spec fn sorted_by_idx(s: Seq<CandidateModel>) -> bool {
    forall|i: int, j: int| 0 <= i <= j < s.len() ==> s[i].event.idx <= s[j].event.idx
}

/// In a sorted sequence, `insertion_point` parts the smaller and equal indices from the larger.
pub proof fn lemma_insertion_point(s: Seq<CandidateModel>, idx: int)
    requires
        sorted_by_idx(s),
    ensures
        0 <= insertion_point(s, idx) <= s.len(),
        forall|i: int| 0 <= i < insertion_point(s, idx) ==> s[i].event.idx <= idx,
        forall|i: int| insertion_point(s, idx) <= i < s.len() ==> s[i].event.idx > idx,
    decreases s.len(),
{
    if s.len() > 0 && s.last().event.idx > idx {
        lemma_insertion_point(s.drop_last(), idx);
        assert forall|i: int| insertion_point(s, idx) <= i < s.len() implies s[i].event.idx
            > idx by {
            if i < s.len() - 1 {
                assert(s.drop_last()[i] == s[i]);
            }
        }
        assert forall|i: int| 0 <= i < insertion_point(s, idx) implies s[i].event.idx <= idx by {
            assert(s.drop_last()[i] == s[i]);
        }
    }
}

/// `insertion_point` finds the one split of a sorted sequence.
pub proof fn lemma_insertion_point_unique(s: Seq<CandidateModel>, idx: int, at: int)
    requires
        0 <= at <= s.len(),
        at == 0 || s[at - 1].event.idx <= idx,
        forall|i: int| at <= i < s.len() ==> s[i].event.idx > idx,
    ensures
        insertion_point(s, idx) == at,
    decreases s.len(),
{
    if s.len() > at {
        let front = s.drop_last();
        assert(forall|i: int| at <= i < front.len() ==> front[i] == s[i]);
        assert(at == 0 || front[at - 1] == s[at - 1]);
        lemma_insertion_point_unique(front, idx, at);
    }
}

/// Inserting puts a candidate between two parts of a sequence.
pub proof fn lemma_insert_parts(s: Seq<CandidateModel>, at: int, c: CandidateModel)
    requires
        0 <= at <= s.len(),
    ensures
        s.insert(at, c) == s.take(at) + seq![c] + s.skip(at),
        s == s.take(at) + s.skip(at),
{
    assert(s.insert(at, c) =~= s.take(at) + seq![c] + s.skip(at));
    assert(s =~= s.take(at) + s.skip(at));
}

/// `stable_by_idx` is a stable sort by log index: its result is sorted, holds the same candidates,
/// and lists those of any one index in the order in which they were given.
pub proof fn stable_by_idx_sorts_stably(s: Seq<CandidateModel>)
    ensures
        sorted_by_idx(stable_by_idx(s)),
        stable_by_idx(s).to_multiset() == s.to_multiset(),
        stable_by_idx(s).len() == s.len(),
        forall|k: int| #[trigger] with_idx(stable_by_idx(s), k) == with_idx(s, k),
    decreases s.len(),
{
    broadcast use vstd::seq_lib::group_to_multiset_ensures;

    if s.len() > 0 {
        let front = s.drop_last();
        let c = s.last();
        stable_by_idx_sorts_stably(front);
        let sorted = stable_by_idx(front);
        let at = insertion_point(sorted, c.event.idx);
        lemma_insertion_point(sorted, c.event.idx);
        let out = sorted.insert(at, c);
        assert(out == stable_by_idx(s));
        assert(sorted_by_idx(out)) by {
            assert forall|i: int, j: int| 0 <= i <= j < out.len() implies out[i].event.idx
                <= out[j].event.idx by {}
        }
        lemma_insert_parts(sorted, at, c);
        assert(s =~= front.push(c));
        vstd::seq_lib::lemma_multiset_commutative(sorted.take(at), sorted.skip(at));
        vstd::seq_lib::lemma_multiset_commutative(sorted.take(at) + seq![c], sorted.skip(at));
        vstd::seq_lib::lemma_multiset_commutative(sorted.take(at), seq![c]);
        vstd::seq_lib::lemma_multiset_commutative(front, seq![c]);
        assert(s =~= front + seq![c]);
        assert(out.to_multiset() =~= s.to_multiset());
        assert forall|k: int| #[trigger] with_idx(out, k) == with_idx(s, k) by {
            let same = |c: CandidateModel| c.event.idx == k;
            let head = sorted.take(at);
            let tail = sorted.skip(at);
            assert(with_idx(sorted, k) == with_idx(front, k));
            Seq::filter_distributes_over_add(head, tail, same);
            Seq::filter_distributes_over_add(head + seq![c], tail, same);
            Seq::filter_distributes_over_add(head, seq![c], same);
            Seq::filter_distributes_over_add(front, seq![c], same);
            assert(s =~= front + seq![c]);
            if c.event.idx == k {
                assert forall|i: int| 0 <= i < tail.len() implies !same(#[trigger] tail[i]) by {}
                lemma_filter_nothing(tail, same);
                assert(out.filter(same) =~= s.filter(same));
            } else {
                lemma_filter_nothing(seq![c], same);
                assert(out.filter(same) =~= s.filter(same));
            }
        }
    }
}

/// The inspected logs are as many as the events and error events together.
pub proof fn inspected_logs_count(
    events: Seq<EventModel>,
    error_events: Seq<EventModel>,
    match_error_events: bool,
)
    ensures
        inspected_logs(events, error_events, match_error_events).len() == events.len()
            + error_events.len(),
{
    stable_by_idx_sorts_stably(
        as_candidates(events, true) + as_candidates(error_events, match_error_events),
    );
}

proof fn lemma_filter_nothing(s: Seq<CandidateModel>, pred: spec_fn(CandidateModel) -> bool)
    requires
        forall|i: int| 0 <= i < s.len() ==> !pred(#[trigger] s[i]),
    ensures
        s.filter(pred) == Seq::<CandidateModel>::empty(),
    decreases s.len(),
{
    reveal(Seq::filter);
    if s.len() > 0 {
        lemma_filter_nothing(s.drop_last(), pred);
    }
}

/// Sorts one more candidate into a sorted list.
fn insert_candidate(sorted: &mut Vec<Candidate>, candidate: Candidate)
    requires
        sorted_by_idx(candidate_models(old(sorted)@)),
    ensures
        candidate_models(final(sorted)@) == candidate_models(old(sorted)@).insert(
            insertion_point(candidate_models(old(sorted)@), candidate@.event.idx),
            candidate@,
        ),
{
    let ghost models = candidate_models(sorted@);
    let mut at: usize = sorted.len();
    while at > 0 && sorted[at - 1].event.idx > candidate.event.idx
        invariant
            at <= sorted.len(),
            models == candidate_models(sorted@),
            forall|i: int| at <= i < models.len() ==> models[i].event.idx > candidate@.event.idx,
        decreases at,
    {
        assert(models[at - 1] == sorted@[at - 1]@);
        at -= 1;
    }
    proof {
        assert(at == 0 || models[at - 1] == sorted@[at - 1]@);
        lemma_insertion_point_unique(models, candidate@.event.idx, at as int);
    }
    let ghost before = sorted@;
    sorted.insert(at, candidate);
    assert(candidate_models(sorted@) =~= models.insert(at as int, candidate@));
}

/// Two sorted sequences merged; of candidates of equal index, those of `x` come first.
spec fn merged(x: Seq<CandidateModel>, y: Seq<CandidateModel>) -> Seq<CandidateModel>
    decreases x.len() + y.len(),
{
    if y.len() == 0 {
        x
    } else if x.len() == 0 || x.last().event.idx <= y.last().event.idx {
        merged(x, y.drop_last()).push(y.last())
    } else {
        merged(x.drop_last(), y).push(x.last())
    }
}

/// A sequence with one more candidate sorted in.
spec fn inserted(s: Seq<CandidateModel>, c: CandidateModel) -> Seq<CandidateModel> {
    s.insert(insertion_point(s, c.event.idx), c)
}

/// Inserting into a sequence that ends with a larger index leaves that end in place.
proof fn lemma_inserted_before_last(s: Seq<CandidateModel>, last: CandidateModel, c: CandidateModel)
    requires
        last.event.idx > c.event.idx,
        0 <= insertion_point(s, c.event.idx) <= s.len(),
    ensures
        inserted(s.push(last), c) == inserted(s, c).push(last),
{
    assert(s.push(last).drop_last() =~= s);
    assert(inserted(s.push(last), c) =~= inserted(s, c).push(last));
}

proof fn lemma_insertion_point_bounds(s: Seq<CandidateModel>, idx: int)
    ensures
        0 <= insertion_point(s, idx) <= s.len(),
    decreases s.len(),
{
    if s.len() > 0 {
        lemma_insertion_point_bounds(s.drop_last(), idx);
    }
}

proof fn lemma_merged_last(x: Seq<CandidateModel>, y: Seq<CandidateModel>, idx: int)
    requires
        x.len() > 0 ==> x.last().event.idx <= idx,
        y.len() > 0 ==> y.last().event.idx <= idx,
    ensures
        merged(x, y).len() == x.len() + y.len(),
        merged(x, y).len() > 0 ==> merged(x, y).last().event.idx <= idx,
{
    lemma_merged_len(x, y);
}

proof fn lemma_merged_len(x: Seq<CandidateModel>, y: Seq<CandidateModel>)
    ensures
        merged(x, y).len() == x.len() + y.len(),
    decreases x.len() + y.len(),
{
    if y.len() > 0 {
        if x.len() == 0 || x.last().event.idx <= y.last().event.idx {
            lemma_merged_len(x, y.drop_last());
        } else {
            lemma_merged_len(x.drop_last(), y);
        }
    }
}

/// Merging after inserting into the second sequence is inserting after merging.
proof fn lemma_merged_inserted(
    x: Seq<CandidateModel>,
    y: Seq<CandidateModel>,
    c: CandidateModel,
)
    ensures
        merged(x, inserted(y, c)) == inserted(merged(x, y), c),
    decreases x.len() + y.len(),
{
    let idx = c.event.idx;
    let z = inserted(y, c);
    lemma_insertion_point_bounds(y, idx);
    lemma_insertion_point_bounds(merged(x, y), idx);
    if y.len() > 0 && y.last().event.idx > idx {
        let front = y.drop_last();
        assert(y =~= front.push(y.last()));
        lemma_insertion_point_bounds(front, idx);
        lemma_inserted_before_last(front, y.last(), c);
        assert(z.drop_last() =~= inserted(front, c));
        assert(z.last() == y.last());
        if x.len() == 0 || x.last().event.idx <= y.last().event.idx {
            lemma_merged_inserted(x, front, c);
            lemma_insertion_point_bounds(merged(x, front), idx);
            lemma_inserted_before_last(merged(x, front), y.last(), c);
        } else {
            lemma_merged_inserted(x.drop_last(), y, c);
            lemma_insertion_point_bounds(merged(x.drop_last(), y), idx);
            lemma_inserted_before_last(merged(x.drop_last(), y), x.last(), c);
        }
    } else {
        assert(insertion_point(y, idx) == y.len());
        assert(z =~= y.push(c));
        assert(z.drop_last() =~= y);
        if x.len() == 0 || x.last().event.idx <= idx {
            lemma_merged_last(x, y, idx);
            assert(insertion_point(merged(x, y), idx) == merged(x, y).len());
            assert(inserted(merged(x, y), c) =~= merged(x, y).push(c));
        } else {
            lemma_merged_inserted(x.drop_last(), y, c);
            lemma_insertion_point_bounds(merged(x.drop_last(), y), idx);
            lemma_inserted_before_last(merged(x.drop_last(), y), x.last(), c);
            if y.len() == 0 {
                assert(merged(x.drop_last(), y).push(x.last()) =~= x);
            }
        }
    }
}

/// Sorting a concatenation is merging the sorted parts.
proof fn lemma_stable_by_idx_of_parts(a: Seq<CandidateModel>, b: Seq<CandidateModel>)
    ensures
        stable_by_idx(a + b) == merged(stable_by_idx(a), stable_by_idx(b)),
    decreases b.len(),
{
    if b.len() == 0 {
        assert(a + b =~= a);
    } else {
        let front = b.drop_last();
        lemma_stable_by_idx_of_parts(a, front);
        assert((a + b).drop_last() =~= a + front);
        lemma_merged_inserted(stable_by_idx(a), stable_by_idx(front), b.last());
    }
}

/// Sorts events into a list of candidates.
fn sort_events(events: Vec<DebankEvent>, receipt_eligible: bool) -> (r: Vec<Candidate>)
    ensures
        candidate_models(r@) == stable_by_idx(
            as_candidates(event_models(events@), receipt_eligible),
        ),
{
    let ghost all = as_candidates(event_models(events@), receipt_eligible);
    let mut sorted: Vec<Candidate> = Vec::new();
    assert(candidate_models(sorted@) =~= stable_by_idx(all.take(0)));
    for event in iter: events.into_iter()
        invariant
            all == as_candidates(event_models(iter.seq()), receipt_eligible),
            candidate_models(sorted@) == stable_by_idx(all.take(iter.index())),
    {
        proof {
            let seen = iter.index();
            stable_by_idx_sorts_stably(all.take(seen));
            assert(all.take(seen + 1).drop_last() =~= all.take(seen));
            assert(all.take(seen + 1).last() == CandidateModel { event: event@, receipt_eligible });
        }
        insert_candidate(&mut sorted, Candidate { event, receipt_eligible });
    }
    assert(all.take(all.len() as int) =~= all);
    sorted
}

/// Turns a list around.
fn reversed(list: Vec<Candidate>) -> (r: Vec<Candidate>)
    ensures
        candidate_models(r@) == candidate_models(list@).reverse(),
{
    let mut list = list;
    let ghost all = candidate_models(list@);
    let mut out: Vec<Candidate> = Vec::new();
    while list.len() > 0
        invariant
            list.len() <= all.len(),
            candidate_models(list@) == all.take(list.len() as int),
            candidate_models(out@) == all.skip(list.len() as int).reverse(),
        decreases list.len(),
    {
        let ghost rest = list.len() - 1;
        let ghost before = list@;
        let popped = list.pop();
        assert(candidate_models(list@) =~= all.take(rest));
        if let Some(candidate) = popped {
            let ghost done = out@;
            assert(candidate_models(before)[rest] == before[rest]@);
            out.push(candidate);
            assert(candidate_models(out@) =~= candidate_models(done).push(candidate@));
            assert(all.skip(rest).reverse() =~= all.skip(rest + 1).reverse().push(all[rest]));
        }
    }
    assert(all.skip(0) =~= all);
    out
}

/// Merges two sorted lists.
fn merge_candidates(x: Vec<Candidate>, y: Vec<Candidate>) -> (r: Vec<Candidate>)
    ensures
        candidate_models(r@) == merged(candidate_models(x@), candidate_models(y@)),
{
    let mut x = x;
    let mut y = y;
    let ghost all = merged(candidate_models(x@), candidate_models(y@));
    // Filled from the back.
    let mut out: Vec<Candidate> = Vec::new();
    proof {
        lemma_merged_len(candidate_models(x@), candidate_models(y@));
        assert(all.take(all.len() as int) =~= all);
        assert(candidate_models(out@) =~= all.skip(all.len() as int).reverse());
    }
    while x.len() > 0 || y.len() > 0
        invariant
            x.len() + y.len() <= all.len(),
            merged(candidate_models(x@), candidate_models(y@)) == all.take(x.len() + y.len()),
            candidate_models(out@) == all.skip(x.len() + y.len()).reverse(),
        decreases x.len() + y.len(),
    {
        let ghost rest = x.len() + y.len() - 1;
        let ghost xs = candidate_models(x@);
        let ghost ys = candidate_models(y@);
        let ghost done = candidate_models(out@);
        let from_y = y.len() > 0 && (x.len() == 0 || x[x.len() - 1].event.idx <= y[y.len()
            - 1].event.idx);
        let popped = if from_y {
            y.pop()
        } else {
            x.pop()
        };
        proof {
            lemma_merged_len(xs, ys);
            if from_y {
                assert(candidate_models(y@) =~= ys.drop_last());
                lemma_merged_len(xs, ys.drop_last());
                assert(merged(xs, ys) == merged(xs, ys.drop_last()).push(ys.last()));
                assert(all.take(rest + 1).drop_last() =~= merged(xs, ys.drop_last()));
            } else {
                assert(candidate_models(x@) =~= xs.drop_last());
                lemma_merged_len(xs.drop_last(), ys);
                if ys.len() == 0 {
                    assert(xs =~= merged(xs.drop_last(), ys).push(xs.last()));
                }
                assert(merged(xs, ys) == merged(xs.drop_last(), ys).push(xs.last()));
                assert(all.take(rest + 1).drop_last() =~= merged(xs.drop_last(), ys));
            }
            assert(all.take(rest + 1).drop_last() =~= all.take(rest));
            assert(all.take(rest + 1).last() == all[rest]);
            assert(all.skip(rest).reverse() =~= all.skip(rest + 1).reverse().push(all[rest]));
        }
        if let Some(candidate) = popped {
            assert(candidate@ == all[rest]);
            out.push(candidate);
            assert(candidate_models(out@) =~= done.push(candidate@));
        }
    }
    assert(all.skip(0) =~= all);
    assert(all.reverse().reverse() =~= all);
    reversed(out)
}

/// Collects the logs that the inspector saw, in emission order.
///
/// Both lists mostly come sorted, which sorting them one by one and merging them makes use of.
pub fn inspect_logs(
    events: Vec<DebankEvent>,
    error_events: Vec<DebankEvent>,
    match_error_events: bool,
) -> (r: Vec<Candidate>)
    ensures
        candidate_models(r@) == inspected_logs(
            event_models(events@),
            event_models(error_events@),
            match_error_events,
        ),
{
    proof {
        lemma_stable_by_idx_of_parts(
            as_candidates(event_models(events@), true),
            as_candidates(event_models(error_events@), match_error_events),
        );
    }
    merge_candidates(sort_events(events, true), sort_events(error_events, match_error_events))
}

} // verus!
