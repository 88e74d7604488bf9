//! An index of the inspected logs by payload.
use std::collections::HashMap;

use vstd::prelude::*;

use crate::candidates::{candidate_models, Candidate, CandidateModel};
use crate::event::{EventPayloadKey, PayloadModel};
use crate::matching::{first_match, first_match_is_first, lemma_first_match_found, recognises};

verus! {

/// Takes one more item into a fingerprint.
pub open spec fn mixed(h: int, item: int) -> int {
    (h % 0x1_0000_0000_0000) * 257 + item
}

/// Takes bytes into a fingerprint.
pub open spec fn bytes_mixed(h: int, bytes: Seq<u8>) -> int
    decreases bytes.len(),
{
    if bytes.len() == 0 {
        h
    } else {
        mixed(bytes_mixed(h, bytes.drop_last()), bytes.last() as int)
    }
}

/// Takes a text into a fingerprint.
pub open spec fn text_mixed(h: int, text: Seq<char>) -> int
    decreases text.len(),
{
    if text.len() == 0 {
        h
    } else {
        mixed(text_mixed(h, text.drop_last()), text.last() as int)
    }
}

/// Takes texts into a fingerprint.
pub open spec fn texts_mixed(h: int, texts: Seq<Seq<char>>) -> int
    decreases texts.len(),
{
    if texts.len() == 0 {
        h
    } else {
        text_mixed(texts_mixed(h, texts.drop_last()), texts.last())
    }
}

/// A number that equal payloads share.
pub open spec fn fingerprint_of(payload: PayloadModel) -> int {
    bytes_mixed(
        texts_mixed(
            text_mixed(bytes_mixed(0, payload.contract_id@), payload.selector),
            payload.topics,
        ),
        payload.data,
    )
}

fn mix(h: u64, item: u64) -> (r: u64)
    requires
        item <= 0x10_ffff,
    ensures
        r == mixed(h as int, item as int),
{
    (h % 0x1_0000_0000_0000) * 257 + item
}

fn mix_bytes(h: u64, bytes: &[u8]) -> (r: u64)
    ensures
        r == bytes_mixed(h as int, bytes@),
{
    let mut r: u64 = h;
    let mut i: usize = 0;
    assert(bytes@.take(0) =~= Seq::<u8>::empty());
    while i < bytes.len()
        invariant
            i <= bytes.len(),
            r == bytes_mixed(h as int, bytes@.take(i as int)),
        decreases bytes.len() - i,
    {
        assert(bytes@.take(i + 1).drop_last() =~= bytes@.take(i as int));
        r = mix(r, bytes[i] as u64);
        i += 1;
    }
    assert(bytes@.take(bytes@.len() as int) =~= bytes@);
    r
}

fn mix_char(h: u64, c: char) -> (r: u64)
    ensures
        r == mixed(h as int, c as int),
{
    mix(h, c as u64)
}

fn mix_text(h: u64, text: &str) -> (r: u64)
    ensures
        r == text_mixed(h as int, text@),
{
    let mut r: u64 = h;
    assert(text@.take(0) =~= Seq::<char>::empty());
    for c in iter: text.chars()
        invariant
            iter.seq() == text@,
            r == text_mixed(h as int, text@.take(iter.index())),
    {
        assert(text@.take(iter.index() + 1).drop_last() =~= text@.take(iter.index()));
        assert(text@.take(iter.index() + 1).last() == c);
        r = mix_char(r, c);
    }
    assert(text@.take(text@.len() as int) =~= text@);
    r
}

/// Computes the fingerprint of a payload.
fn fingerprint(key: &EventPayloadKey<'_>) -> (r: u64)
    ensures
        r == fingerprint_of(key@),
{
    let mut r: u64 = mix_bytes(0, key.contract_id.0.as_slice());
    r = mix_text(r, key.selector.as_str());
    let ghost start = r as int;
    let ghost topics = key@.topics;
    let mut i: usize = 0;
    assert(topics.take(0) =~= Seq::<Seq<char>>::empty());
    while i < key.topics.len()
        invariant
            i <= key.topics.len(),
            topics == key@.topics,
            r == texts_mixed(start, topics.take(i as int)),
        decreases key.topics.len() - i,
    {
        assert(topics.take(i + 1).drop_last() =~= topics.take(i as int));
        assert(topics[i as int] == key.topics@[i as int]@);
        r = mix_text(r, key.topics[i].as_str());
        i += 1;
    }
    assert(topics.take(topics.len() as int) =~= topics);
    mix_bytes(r, key.data.as_slice())
}

/// Whether the index lists position `i` under the fingerprint `f`.
pub open spec fn is_listed(index: Map<u64, Vec<usize>>, f: u64, i: usize) -> bool {
    index.contains_key(f) && index[f]@.contains(i)
}

/// Whether the index lists, for each fingerprint, exactly the eligible ones of the first `n` logs
/// that have it, in ascending order.
pub open spec fn lists_eligible(
    index: Map<u64, Vec<usize>>,
    candidates: Seq<CandidateModel>,
    n: int,
) -> bool {
    &&& forall|f: u64, p: int|
        #![trigger index[f]@[p]]
        index.contains_key(f) && 0 <= p < index[f]@.len() ==> {
            let i = index[f]@[p] as int;
            &&& i < n
            &&& candidates[i].receipt_eligible
            &&& fingerprint_of(candidates[i].event.payload()) == f
        }
    &&& forall|f: u64, p: int, q: int|
        #![trigger index[f]@[p], index[f]@[q]]
        index.contains_key(f) && 0 <= p < q < index[f]@.len() ==> index[f]@[p] < index[f]@[q]
    &&& forall|i: int|
        0 <= i < n && (#[trigger] candidates[i]).receipt_eligible ==> is_listed(
            index,
            fingerprint_of(candidates[i].event.payload()) as u64,
            i as usize,
        )
}

/// The inspected logs by payload: the positions of the eligible logs under the fingerprint of
/// their payloads.
#[derive(Debug)]
pub struct PayloadIndex {
    positions: HashMap<u64, Vec<usize>>,
}

impl PayloadIndex {
    /// Whether this is an index of the given logs.
    pub closed spec fn indexes(self, candidates: Seq<CandidateModel>) -> bool {
        lists_eligible(self.positions@, candidates, candidates.len() as int)
    }

    /// Indexes the inspected logs.
    pub fn new(candidates: &Vec<Candidate>) -> (r: PayloadIndex)
        ensures
            r.indexes(candidate_models(candidates@)),
    {
        broadcast use vstd::std_specs::hash::group_hash_axioms;

        let ghost models = candidate_models(candidates@);
        let mut positions: HashMap<u64, Vec<usize>> = HashMap::new();
        let mut i: usize = 0;
        while i < candidates.len()
            invariant
                i <= candidates.len(),
                models == candidate_models(candidates@),
                lists_eligible(positions@, models, i as int),
            decreases candidates.len() - i,
        {
            broadcast use vstd::std_specs::hash::group_hash_axioms;

            let ghost before = positions@;
            assert(models[i as int] == candidates@[i as int]@);
            if candidates[i].receipt_eligible {
                let key: EventPayloadKey<'_> = EventPayloadKey::from(&candidates[i].event);
                assert(key@ == models[i as int].event.payload());
                let f = fingerprint(&key);
                let mut list: Vec<usize> = match positions.remove(&f) {
                    Some(list) => list,
                    None => Vec::new(),
                };
                let ghost known = list@;
                list.push(i);
                positions.insert(f, list);
                proof {
                    lemma_index_grows(before, positions@, models, i, f, known);
                }
            }
            i += 1;
        }
        PayloadIndex { positions }
    }

    /// Finds the first inspected log at or behind `from` that may stand for the payload `key`.
    pub fn find(
        &self,
        candidates: &Vec<Candidate>,
        key: &EventPayloadKey<'_>,
        from: usize,
    ) -> (r: Option<usize>)
        requires
            self.indexes(candidate_models(candidates@)),
        ensures
            match r {
                Some(c) => {
                    &&& from <= c < candidates.len()
                    &&& first_match(candidate_models(candidates@), key@, from as int) == Some(
                        c as int,
                    )
                },
                None => first_match(candidate_models(candidates@), key@, from as int) is None,
            },
    {
        broadcast use vstd::std_specs::hash::group_hash_axioms;

        let ghost models = candidate_models(candidates@);
        let f = fingerprint(key);
        let list = match self.positions.get(&f) {
            Some(list) => list,
            None => {
                proof {
                    first_match_is_first(models, key@, from as int);
                    if let Some(c) = first_match(models, key@, from as int) {
                        assert(c < candidates.len());
                        assert(models[c].receipt_eligible);
                        assert(is_listed(self.positions@, f, c as usize));
                    }
                }
                return None;
            },
        };
        let ghost index = self.positions@;
        assert(index[f] == *list);
        assert(forall|p: int, q: int|
            0 <= p < q < list.len() ==> index[f]@[p] < index[f]@[q]);
        let mut p: usize = first_at_least(list, from);
        while p < list.len()
            invariant
                p <= list.len(),
                models == candidate_models(candidates@),
                lists_eligible(index, models, models.len() as int),
                index.contains_key(f),
                index[f] == *list,
                f == fingerprint_of(key@),
                forall|q: int| p <= q < list.len() ==> list@[q] >= from,
                forall|q: int|
                    0 <= q < p ==> (#[trigger] list@[q]) < from || !recognises(
                        models[list@[q] as int],
                        key@,
                    ),
            decreases list.len() - p,
        {
            let c: usize = list[p];
            assert(index[f]@[p as int] == c);
            assert(models[c as int] == candidates@[c as int]@);
            let other: EventPayloadKey<'_> = EventPayloadKey::from(&candidates[c].event);
            assert(other@ == models[c as int].event.payload());
            if other == *key {
                proof {
                    assert forall|i: int| from <= i < c implies !recognises(
                        #[trigger] models[i],
                        key@,
                    ) by {
                        if recognises(models[i], key@) {
                            assert(is_listed(index, f, i as usize));
                            let q = index[f]@.index_of(i as usize);
                            assert(list@[q] == i);
                            if q >= p {
                                if q > p {
                                    assert(index[f]@[p as int] < index[f]@[q]);
                                }
                            }
                        }
                    }
                    lemma_first_match_found(models, key@, from as int, c as int);
                }
                return Some(c);
            }
            p += 1;
        }
        proof {
            first_match_is_first(models, key@, from as int);
            if let Some(c) = first_match(models, key@, from as int) {
                assert(c < candidates.len());
                assert(models[c].receipt_eligible);
                assert(is_listed(index, f, c as usize));
                let q = index[f]@.index_of(c as usize);
                assert(list@[q] == c);
            }
        }
        None
    }
}

proof fn lemma_index_grows(
    before: Map<u64, Vec<usize>>,
    after: Map<u64, Vec<usize>>,
    candidates: Seq<CandidateModel>,
    i: usize,
    f: u64,
    known: Seq<usize>,
)
    requires
        lists_eligible(before, candidates, i as int),
        i < candidates.len(),
        candidates[i as int].receipt_eligible,
        fingerprint_of(candidates[i as int].event.payload()) == f,
        known == if before.contains_key(f) {
            before[f]@
        } else {
            Seq::empty()
        },
        after.contains_key(f),
        after[f]@ == known.push(i),
        forall|g: u64|
            g != f ==> (#[trigger] after.contains_key(g) <==> before.contains_key(g)),
        forall|g: u64| g != f && before.contains_key(g) ==> #[trigger] after[g] == before[g],
    ensures
        lists_eligible(after, candidates, i + 1),
{
    assert forall|g: u64, p: int|
        #![trigger after[g]@[p]]
        after.contains_key(g) && 0 <= p < after[g]@.len() implies {
        let k = after[g]@[p] as int;
        &&& k < i + 1
        &&& candidates[k].receipt_eligible
        &&& fingerprint_of(candidates[k].event.payload()) == g
    } by {
        if g == f {
            if p < known.len() {
                assert(before[f]@[p] == after[f]@[p]);
            }
        } else {
            assert(before[g]@[p] == after[g]@[p]);
        }
    }
    assert forall|g: u64, p: int, q: int|
        #![trigger after[g]@[p], after[g]@[q]]
        after.contains_key(g) && 0 <= p < q < after[g]@.len() implies after[g]@[p]
        < after[g]@[q] by {
        if g == f {
            assert(before[f]@[p] == after[f]@[p]);
            if q < known.len() {
                assert(before[f]@[q] == after[f]@[q]);
            }
        } else {
            assert(before[g]@[p] == after[g]@[p]);
            assert(before[g]@[q] == after[g]@[q]);
        }
    }
    assert forall|k: int|
        0 <= k < i + 1 && (#[trigger] candidates[k]).receipt_eligible implies is_listed(
        after,
        fingerprint_of(candidates[k].event.payload()) as u64,
        k as usize,
    ) by {
        let g = fingerprint_of(candidates[k].event.payload()) as u64;
        if k < i {
            assert(is_listed(before, g, k as usize));
            let p = before[g]@.index_of(k as usize);
            if g == f {
                assert(after[f]@[p] == k);
            } else {
                assert(after.contains_key(g));
                assert(after[g] == before[g]);
            }
        } else {
            assert(after[f]@[known.len() as int] == i);
        }
    }
}

/// The first place in an ascending list that holds at least `from`.
fn first_at_least(
    list: &Vec<usize>,
    from: usize,
) -> (r: usize)
    requires
        forall|p: int, q: int| 0 <= p < q < list.len() ==> list@[p] < list@[q],
    ensures
        r <= list.len(),
        forall|q: int| 0 <= q < r ==> list@[q] < from,
        forall|q: int| r <= q < list.len() ==> list@[q] >= from,
{
    let mut low: usize = 0;
    let mut high: usize = list.len();
    while low < high
        invariant
            low <= high <= list.len(),
            forall|p: int, q: int| 0 <= p < q < list.len() ==> list@[p] < list@[q],
            forall|q: int| 0 <= q < low ==> list@[q] < from,
            forall|q: int| high <= q < list.len() ==> list@[q] >= from,
        decreases high - low,
    {
        let mid: usize = low + (high - low) / 2;
        if list[mid] < from {
            low = mid + 1;
        } else {
            high = mid;
        }
    }
    low
}

} // verus!
