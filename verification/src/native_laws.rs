//! What the inspector of native frames records, said of the journal and the storage actions.
use vstd::prelude::*;

use crate::native::{
    journal_writes, no_writes, CallInputs, CallScheme, CreateInputs, CreateScheme, JournalEntry,
    NativeModel,
};
use crate::primitives::{address_of_its_bytes, Address};

verus! {

/// The accounts written to are those of the storage changes that the journal holds from `start`
/// on.
proof fn lemma_journal_writes(journal: Seq<JournalEntry>, start: int, address: Address)
    requires
        0 <= start,
    ensures
        journal_writes(journal, start).contains(address) <==> exists|i: int|
            start <= i < journal.len() && #[trigger] journal[i] == (JournalEntry::StorageChanged {
                address,
            }),
        journal_writes(journal, start).len() > 0 <==> exists|i: int|
            start <= i < journal.len() && (#[trigger] journal[i]) is StorageChanged,
    decreases journal.len(),
{
    if journal.len() > start {
        let front = journal.drop_last();
        let last = journal.len() - 1;
        let before = journal_writes(front, start);
        let now = journal_writes(journal, start);
        lemma_journal_writes(front, start, address);
        assert(forall|i: int| 0 <= i < front.len() ==> (#[trigger] front[i]) == journal[i]);
        let here = journal[last] == (JournalEntry::StorageChanged { address });
        assert(now.contains(address) <==> before.contains(address) || here) by {
            if before.contains(address) {
                let k = before.index_of(address);
                assert(now[k] == address);
            }
            if here {
                assert(now[before.len() as int] == address);
            }
            if now.contains(address) && !here {
                let k = now.index_of(address);
                assert(k < before.len() ==> before[k] == address);
            }
        }
        if before.contains(address) {
            let i = choose|i: int|
                start <= i < front.len() && #[trigger] front[i] == (JournalEntry::StorageChanged {
                    address,
                });
            assert(journal[i] == front[i]);
        }
        if exists|i: int|
            start <= i < journal.len() && #[trigger] journal[i] == (JournalEntry::StorageChanged {
                address,
            }) {
            let i = choose|i: int|
                start <= i < journal.len() && #[trigger] journal[i] == (
                JournalEntry::StorageChanged { address });
            if i < last {
                assert(front[i] == journal[i]);
            }
        }
        if before.len() > 0 {
            let i = choose|i: int|
                start <= i < front.len() && (#[trigger] front[i]) is StorageChanged;
            assert(journal[i] is StorageChanged);
        }
        if exists|i: int| start <= i < journal.len() && (#[trigger] journal[i]) is StorageChanged {
            let i = choose|i: int|
                start <= i < journal.len() && (#[trigger] journal[i]) is StorageChanged;
            if i < last {
                assert(front[i] is StorageChanged);
            }
        }
    }
}

/// A frame that a precompile served has written to its own storage exactly if the journal holds,
/// from its start on, a storage change of its account, or its account is among the storage actions;
/// and to any storage exactly if there is such a change or action at all. A frame that no
/// precompile served has written nothing. Finishing a frame closes it and changes no other record.
/// A call is finished as its outcome says.
pub proof fn a_finished_frame_says_what_was_written(
    model: NativeModel,
    journal: Seq<JournalEntry>,
    action_writes: Seq<Address>,
    is_precompile: bool,
)
    requires
        model.wf(),
    ensures
        ({
            let after = model.finished(journal, action_writes, is_precompile);
            let open = model.frames.len() as int;
            &&& after == model.call_finished(journal, action_writes, is_precompile)
            &&& open == 0 ==> after.frames == model.frames && after.changes == model.changes
            &&& open > 0 ==> {
                let frame = model.frames[open - 1];
                let at = frame.change_index as int;
                let start = frame.journal_start as int;
                let address = model.changes[at].0;
                let writes = after.changes[at].1;
                &&& after.frames.len() == open - 1
                &&& forall|i: int|
                    0 <= i < open - 1 ==> #[trigger] after.frames[i] == model.frames[i]
                &&& after.changes.len() == model.changes.len()
                &&& forall|i: int|
                    0 <= i < model.changes.len() && i != at ==> #[trigger] after.changes[i]
                        == model.changes[i]
                &&& after.changes[at].0 == address
                &&& is_precompile ==> {
                    &&& writes.own <==> (exists|i: int|
                        start <= i < journal.len() && #[trigger] journal[i] == (
                        JournalEntry::StorageChanged { address })) || exists|i: int|
                        0 <= i < action_writes.len() && #[trigger] action_writes[i] == address
                    &&& writes.any <==> (exists|i: int|
                        start <= i < journal.len() && (#[trigger] journal[i]) is StorageChanged)
                        || action_writes.len() > 0
                }
                &&& !is_precompile ==> !writes.own && !writes.any
            }
        }),
{
    if model.frames.len() > 0 {
        let frame = model.frames.last();
        let at = frame.change_index as int;
        let address = model.changes[at].0;
        assert(model.frames[model.frames.len() - 1] == frame);
        assert(model.changes[at].1 == no_writes());
        let journaled = journal_writes(journal, frame.journal_start as int);
        let written = journaled + action_writes;
        lemma_journal_writes(journal, frame.journal_start as int, address);
        assert(written.contains(address) <==> journaled.contains(address)
            || action_writes.contains(address)) by {
            if journaled.contains(address) {
                assert(written[journaled.index_of(address)] == address);
            }
            if action_writes.contains(address) {
                assert(written[journaled.len() + action_writes.index_of(address)] == address);
            }
            if written.contains(address) {
                let i = written.index_of(address);
                if i < journaled.len() {
                    assert(journaled[i] == address);
                } else {
                    assert(action_writes[i - journaled.len()] == address);
                }
            }
        }
    }
}

/// A frame that starts gets a record behind all others, under its account, that says nothing yet,
/// and remembers where journal and storage actions stood. Nothing else changes. An inspector starts
/// out with neither frames nor records.
pub proof fn a_started_frame_gets_an_empty_record(
    model: NativeModel,
    address: Address,
    journal_len: usize,
    action_cursor: usize,
)
    requires
        model.changes.len() <= usize::MAX,
    ensures
        ({
            let after = model.started(address, journal_len, action_cursor);
            let open = model.frames.len() as int;
            let n = model.changes.len() as int;
            &&& after.frames.len() == open + 1
            &&& forall|i: int| 0 <= i < open ==> #[trigger] after.frames[i] == model.frames[i]
            &&& after.frames[open].change_index == n
            &&& after.frames[open].journal_start == journal_len
            &&& after.frames[open].action_cursor == action_cursor
            &&& after.changes.len() == n + 1
            &&& forall|i: int| 0 <= i < n ==> #[trigger] after.changes[i] == model.changes[i]
            &&& after.changes[n].0 == address
            &&& !after.changes[n].1.own
            &&& !after.changes[n].1.any
        }),
        NativeModel::empty().frames.len() == 0,
        NativeModel::empty().changes.len() == 0,
{
}

/// The storage actions of a frame are counted from where they stood when it started, also once the
/// frames that started inside it have finished. With no frame open there is nothing to count from.
pub proof fn actions_are_counted_from_the_innermost_frame(
    model: NativeModel,
    address: Address,
    journal_len: usize,
    action_cursor: usize,
    inner: Address,
    inner_journal_len: usize,
    inner_action_cursor: usize,
    journal: Seq<JournalEntry>,
    action_writes: Seq<Address>,
    is_precompile: bool,
)
    requires
        model.changes.len() < usize::MAX,
    ensures
        NativeModel::empty().innermost_cursor() is None,
        ({
            let outer = model.started(address, journal_len, action_cursor);
            let both = outer.started(inner, inner_journal_len, inner_action_cursor);
            let back = both.finished(journal, action_writes, is_precompile);
            &&& outer.innermost_cursor() == Some(action_cursor)
            &&& both.innermost_cursor() == Some(inner_action_cursor)
            &&& back.innermost_cursor() == Some(action_cursor)
        }),
        model.frames.len() == 0 ==> model.started(address, journal_len, action_cursor).finished(
            journal,
            action_writes,
            is_precompile,
        ).innermost_cursor() is None,
{
}

/// A call gets one record, behind all others, that says nothing yet: under the target of the call,
/// but for a call that keeps the storage of its caller under the account whose code runs. Its frame
/// remembers where journal and storage actions stood.
pub proof fn a_call_goes_under_the_called_account(
    model: NativeModel,
    inputs: CallInputs,
    journal_len: usize,
    action_cursor: usize,
)
    requires
        model.changes.len() <= usize::MAX,
    ensures
        ({
            let after = model.called(inputs, journal_len, action_cursor);
            let open = model.frames.len() as int;
            let n = model.changes.len() as int;
            let keeps_storage = inputs.scheme == CallScheme::CallCode || inputs.scheme
                == CallScheme::DelegateCall;
            &&& after.frames.len() == open + 1
            &&& forall|i: int| 0 <= i < open ==> #[trigger] after.frames[i] == model.frames[i]
            &&& after.frames[open].change_index == n
            &&& after.frames[open].journal_start == journal_len
            &&& after.frames[open].action_cursor == action_cursor
            &&& after.changes.len() == n + 1
            &&& forall|i: int| 0 <= i < n ==> #[trigger] after.changes[i] == model.changes[i]
            &&& !keeps_storage ==> after.changes[n].0 == inputs.target_address
            &&& keeps_storage ==> after.changes[n].0 == inputs.bytecode_address
            &&& !after.changes[n].1.own
            &&& !after.changes[n].1.any
        }),
{
}

/// A contract creation gets one record, behind all others, that says nothing yet, under the address
/// that is created; without the nonce of its creator nothing changes. When it finishes, its frame
/// closes and all records stay as they are, whatever was written.
pub proof fn a_creation_goes_under_the_created_account(
    model: NativeModel,
    inputs: CreateInputs,
    nonce: Option<u64>,
    journal_len: usize,
    action_cursor: usize,
    journal: Seq<JournalEntry>,
    action_writes: Seq<Address>,
    created: Address,
)
    requires
        model.changes.len() <= usize::MAX,
        nonce is Some ==> created@ == inputs.created(nonce->0),
    ensures
        ({
            let after = model.creating(inputs, nonce, journal_len, action_cursor);
            let open = model.frames.len() as int;
            let n = model.changes.len() as int;
            &&& nonce is None ==> after == model
            &&& nonce is Some ==> {
                &&& after.frames.len() == open + 1
                &&& forall|i: int| 0 <= i < open ==> #[trigger] after.frames[i] == model.frames[i]
                &&& after.frames[open].change_index == n
                &&& after.frames[open].journal_start == journal_len
                &&& after.frames[open].action_cursor == action_cursor
                &&& after.changes.len() == n + 1
                &&& forall|i: int| 0 <= i < n ==> #[trigger] after.changes[i] == model.changes[i]
                &&& after.changes[n].0 == created
                &&& !after.changes[n].1.own
                &&& !after.changes[n].1.any
            }
        }),
        ({
            let after = model.creation_finished(journal, action_writes);
            let open = model.frames.len() as int;
            &&& after.changes == model.changes
            &&& open == 0 ==> after.frames == model.frames
            &&& open > 0 ==> {
                &&& after.frames.len() == open - 1
                &&& forall|i: int|
                    0 <= i < open - 1 ==> #[trigger] after.frames[i] == model.frames[i]
            }
        }),
{
    if nonce is Some {
        address_of_its_bytes(created);
    }
}

/// The address of a created contract depends on the nonce of its creator only for a plain creation,
/// and is the given one where one is given. A creation by salt depends on creator, salt and init
/// code alone.
pub proof fn only_a_plain_creation_depends_on_the_nonce(
    inputs: CreateInputs,
    other: CreateInputs,
    nonce: u64,
    other_nonce: u64,
)
    ensures
        inputs.scheme matches CreateScheme::Custom { address } ==> inputs.created(nonce)
            == address@,
        inputs.scheme is Create2 && other.scheme == inputs.scheme && other.caller == inputs.caller
            && other.init_code@ == inputs.init_code@ ==> other.created(other_nonce)
            == inputs.created(nonce),
        inputs.scheme is Create && other.scheme is Create && other.caller == inputs.caller
            ==> other.created(nonce) == inputs.created(nonce),
{
}

} // verus!
