//! Log events of a transaction, and the part of an event that identifies its payload.
use vstd::prelude::*;

use crate::primitives::{Address, Bytes};

verus! {

/// One log event as it is written to the block file.
#[derive(Debug)]
pub struct DebankEvent {
    /// Identifier of the event.
    pub id: String,
    /// Contract that emitted the log.
    pub contract_id: Address,
    /// First topic of the log.
    pub selector: String,
    /// Remaining topics of the log.
    pub topics: Vec<String>,
    /// Data of the log.
    pub data: Bytes,
    /// Trace that the event belongs to.
    pub parent_trace_id: String,
    /// Position of the event among the members of its trace.
    pub pos_in_parent_trace: usize,
    /// Log index of the event within the block.
    pub idx: usize,
}

/// The content of a [`DebankEvent`].
#[verifier::ext_equal]
pub struct EventModel {
    pub id: Seq<char>,
    pub contract_id: Address,
    pub selector: Seq<char>,
    pub topics: Seq<Seq<char>>,
    pub data: Seq<u8>,
    pub parent_trace_id: Seq<char>,
    pub pos_in_parent_trace: int,
    pub idx: int,
}

/// The content of an event payload: what the log itself says, without its place in the block.
#[verifier::ext_equal]
pub struct PayloadModel {
    pub contract_id: Address,
    pub selector: Seq<char>,
    pub topics: Seq<Seq<char>>,
    pub data: Seq<u8>,
}

impl EventModel {
    /// The payload of the event.
    pub open spec fn payload(self) -> PayloadModel {
        PayloadModel {
            contract_id: self.contract_id,
            selector: self.selector,
            topics: self.topics,
            data: self.data,
        }
    }

    /// The event under another log index.
    pub open spec fn at_index(self, idx: int) -> EventModel {
        EventModel { idx: idx, ..self }
    }
}

/// The characters of each string of `strings`.
pub open spec fn texts(strings: Seq<String>) -> Seq<Seq<char>> {
    strings.map_values(|s: String| s@)
}

impl View for DebankEvent {
    type V = EventModel;

    open spec fn view(&self) -> EventModel {
        EventModel {
            id: self.id@,
            contract_id: self.contract_id,
            selector: self.selector@,
            topics: texts(self.topics@),
            data: self.data@,
            parent_trace_id: self.parent_trace_id@,
            pos_in_parent_trace: self.pos_in_parent_trace as int,
            idx: self.idx as int,
        }
    }
}

/// The contents of a sequence of events.
pub open spec fn event_models(events: Seq<DebankEvent>) -> Seq<EventModel> {
    events.map_values(|e: DebankEvent| e@)
}

impl Clone for DebankEvent {
    fn clone(&self) -> (r: DebankEvent)
        ensures
            r@ == self@,
    {
        let r = DebankEvent {
            id: self.id.clone(),
            contract_id: self.contract_id,
            selector: self.selector.clone(),
            topics: self.topics.clone(),
            data: self.data.clone(),
            parent_trace_id: self.parent_trace_id.clone(),
            pos_in_parent_trace: self.pos_in_parent_trace,
            idx: self.idx,
        };
        assert(r.topics@ =~= self.topics@);
        assert(r.data@ =~= self.data@);
        r
    }
}

impl Default for DebankEvent {
    fn default() -> (r: DebankEvent)
        ensures
            r@ == (EventModel {
                id: Seq::empty(),
                contract_id: Address::spec_zero(),
                selector: Seq::empty(),
                topics: Seq::empty(),
                data: Seq::empty(),
                parent_trace_id: Seq::empty(),
                pos_in_parent_trace: 0,
                idx: 0,
            }),
    {
        DebankEvent {
            id: String::new(),
            contract_id: Address::zero(),
            selector: String::new(),
            topics: Vec::new(),
            data: Vec::new(),
            parent_trace_id: String::new(),
            pos_in_parent_trace: 0,
            idx: 0,
        }
    }
}

/// The payload of an event, by which an inspected log is recognised in a receipt.
#[derive(Clone, Copy, Debug, Eq)]
pub struct EventPayloadKey<'a> {
    pub contract_id: Address,
    pub selector: &'a String,
    pub topics: &'a Vec<String>,
    pub data: &'a Bytes,
}

impl<'a> View for EventPayloadKey<'a> {
    type V = PayloadModel;

    open spec fn view(&self) -> PayloadModel {
        PayloadModel {
            contract_id: self.contract_id,
            selector: self.selector@,
            topics: texts(self.topics@),
            data: self.data@,
        }
    }
}

impl<'a> From<&'a DebankEvent> for EventPayloadKey<'a> {
    fn from(event: &'a DebankEvent) -> (r: EventPayloadKey<'a>) {
        EventPayloadKey {
            contract_id: event.contract_id,
            selector: &event.selector,
            topics: &event.topics,
            data: &event.data,
        }
    }
}

impl<'a> vstd::std_specs::convert::FromSpecImpl<&'a DebankEvent> for EventPayloadKey<'a> {
    open spec fn obeys_from_spec() -> bool {
        true
    }

    open spec fn from_spec(event: &'a DebankEvent) -> EventPayloadKey<'a> {
        EventPayloadKey {
            contract_id: event.contract_id,
            selector: &event.selector,
            topics: &event.topics,
            data: &event.data,
        }
    }
}

/// Compares two lists of strings.
pub fn same_texts(a: &Vec<String>, b: &Vec<String>) -> (r: bool)
    ensures
        r == (texts(a@) == texts(b@)),
{
    if a.len() != b.len() {
        assert(texts(a@).len() != texts(b@).len());
        return false;
    }
    let mut i: usize = 0;
    while i < a.len()
        invariant
            i <= a.len(),
            a.len() == b.len(),
            forall|k: int| 0 <= k < i ==> a@[k]@ == b@[k]@,
        decreases a.len() - i,
    {
        if a[i] != b[i] {
            assert(texts(a@)[i as int] != texts(b@)[i as int]);
            return false;
        }
        i += 1;
    }
    assert(texts(a@) =~= texts(b@));
    true
}

/// Compares two byte strings.
pub fn same_data(a: &Vec<u8>, b: &Vec<u8>) -> (r: bool)
    ensures
        r == (a@ == b@),
{
    if a.len() != b.len() {
        return false;
    }
    let mut i: usize = 0;
    while i < a.len()
        invariant
            i <= a.len(),
            a.len() == b.len(),
            forall|k: int| 0 <= k < i ==> a@[k] == b@[k],
        decreases a.len() - i,
    {
        if a[i] != b[i] {
            return false;
        }
        i += 1;
    }
    assert(a@ =~= b@);
    true
}

impl<'a> PartialEq for EventPayloadKey<'a> {
    fn eq(&self, other: &Self) -> (r: bool) {
        self.contract_id == other.contract_id && *self.selector == *other.selector && same_texts(
            self.topics,
            other.topics,
        ) && same_data(self.data, other.data)
    }
}

impl<'a> vstd::std_specs::cmp::PartialEqSpecImpl for EventPayloadKey<'a> {
    open spec fn obeys_eq_spec() -> bool {
        true
    }

    open spec fn eq_spec(&self, other: &Self) -> bool {
        self@ == other@
    }
}

/// Gives the event the next log index of the block and consumes that index.
pub fn with_event_index(event: DebankEvent, next_event_index: &mut usize) -> (r: DebankEvent)
    requires
        *old(next_event_index) < usize::MAX,
    ensures
        r == (DebankEvent { idx: *old(next_event_index), ..event }),
        r@ == event@.at_index(*old(next_event_index) as int),
        *final(next_event_index) == *old(next_event_index) + 1,
{
    let mut event = event;
    event.idx = *next_event_index;
    *next_event_index = *next_event_index + 1;
    event
}

/// Gives the event the next log index of the block without consuming it.
///
/// Inspector-only logs are not in the receipt, so they take the index of the next receipt log.
/// Receipt logs therefore keep their log index.
pub fn with_pending_event_index(event: DebankEvent, next_event_index: usize) -> (r: DebankEvent)
    ensures
        r == (DebankEvent { idx: next_event_index, ..event }),
        r@ == event@.at_index(next_event_index as int),
{
    let mut event = event;
    event.idx = next_event_index;
    event
}

} // verus!
