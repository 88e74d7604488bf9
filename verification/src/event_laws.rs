//! What the content of an event is made of.
use vstd::prelude::*;
use vstd::std_specs::cmp::PartialEqSpec;
use vstd::std_specs::convert::FromSpec;

use crate::candidates::as_candidates;
use crate::event::{event_models, DebankEvent, EventPayloadKey};

verus! {

/// Whether two events hold the same log: contract, selector, topics and data.
pub open spec fn same_log(a: DebankEvent, b: DebankEvent) -> bool {
    &&& a.contract_id == b.contract_id
    &&& a.selector@ == b.selector@
    &&& a.topics@.len() == b.topics@.len()
    &&& forall|t: int| 0 <= t < a.topics@.len() ==> (#[trigger] a.topics@[t])@ == b.topics@[t]@
    &&& a.data@ == b.data@
}

/// Whether two events have the same identifier and stand at the same place of the same trace.
pub open spec fn same_place(a: DebankEvent, b: DebankEvent) -> bool {
    &&& a.id@ == b.id@
    &&& a.parent_trace_id@ == b.parent_trace_id@
    &&& a.pos_in_parent_trace == b.pos_in_parent_trace
}

/// Two events hold the same log exactly if they have the same payload.
pub proof fn a_payload_is_the_whole_log(a: DebankEvent, b: DebankEvent)
    ensures
        same_log(a, b) <==> a@.payload() == b@.payload(),
{
    if same_log(a, b) {
        assert forall|t: int| 0 <= t < a@.topics.len() implies a@.topics[t] == b@.topics[t] by {
            assert(a.topics@[t]@ == b.topics@[t]@);
        }
        assert(a@.topics =~= b@.topics);
    }
    if a@.payload() == b@.payload() {
        assert(a@.payload().topics == b@.payload().topics);
        assert(a@.topics.len() == b@.topics.len());
        assert forall|t: int| 0 <= t < a.topics@.len() implies (#[trigger] a.topics@[t])@
            == b.topics@[t]@ by {
            assert(a@.topics[t] == b@.topics[t]);
        }
    }
}

/// The keys of two events are equal exactly if the events hold the same log, wherever they stand.
pub proof fn equal_keys_are_equal_logs(a: DebankEvent, b: DebankEvent)
    ensures
        EventPayloadKey::from_spec(&a).eq_spec(&EventPayloadKey::from_spec(&b)) <==> same_log(a, b),
{
    a_payload_is_the_whole_log(a, b);
}

/// Two events have the same content exactly if log, place and log index are the same. Under another
/// log index, an event stays what it is in everything else.
pub proof fn a_content_is_log_place_and_index(a: DebankEvent, b: DebankEvent, idx: int)
    ensures
        a@ == b@ <==> same_log(a, b) && same_place(a, b) && a.idx == b.idx,
        a@ == b@.at_index(idx) <==> same_log(a, b) && same_place(a, b) && a.idx == idx,
        a@.idx == a.idx,
        a@.parent_trace_id == a.parent_trace_id@,
        a@.pos_in_parent_trace == a.pos_in_parent_trace,
        a@.id == a.id@,
{
    a_payload_is_the_whole_log(a, b);
    if a@.payload() == b@.payload() {
        assert(a@.payload().contract_id == b@.payload().contract_id);
        assert(a@.payload().selector == b@.payload().selector);
        assert(a@.payload().topics == b@.payload().topics);
        assert(a@.payload().data == b@.payload().data);
    }
    if a@ == b@.at_index(idx) {
        assert(a@.payload() == b@.payload());
    }
}

/// The contents of a sequence are those of its events, one each and in order.
pub proof fn contents_stand_for_events(events: Seq<DebankEvent>, receipt_eligible: bool)
    ensures
        event_models(events).len() == events.len(),
        forall|i: int| 0 <= i < events.len() ==> #[trigger] event_models(events)[i] == events[i]@,
        as_candidates(event_models(events), receipt_eligible).len() == events.len(),
        forall|i: int|
            0 <= i < events.len() ==> {
                let c = #[trigger] as_candidates(event_models(events), receipt_eligible)[i];
                c.event == events[i]@ && c.receipt_eligible == receipt_eligible
            },
{
}

} // verus!
