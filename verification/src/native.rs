//! Storage writes performed inside native precompile frames.
//!
//! Native precompiles write through the journal directly, so they execute no SSTORE opcode that a
//! tracing inspector could attach to a call trace. Call records are kept in the insertion order of
//! the tracing arena and merged into the trace after execution.
use vstd::prelude::*;

use crate::outside::created_address;
use crate::primitives::{address_of, address_of_its_bytes, Address, Bytes, U256};

verus! {

/// Which storage a native frame wrote to.
#[derive(Clone, Copy, Debug, PartialEq, Eq, Structural)]
pub struct NativeStorageWrites {
    /// The frame wrote to the storage of its own account.
    pub own: bool,
    /// The frame wrote to some storage.
    pub any: bool,
}

impl Default for NativeStorageWrites {
    fn default() -> (r: NativeStorageWrites)
        ensures
            r == no_writes(),
    {
        NativeStorageWrites { own: false, any: false }
    }
}

/// No write at all.
pub open spec fn no_writes() -> NativeStorageWrites {
    NativeStorageWrites { own: false, any: false }
}

/// An entry of the EVM journal, as far as storage writes are concerned.
#[derive(Clone, Copy, Debug)]
pub enum JournalEntry {
    /// A storage slot of the account was written.
    StorageChanged { address: Address },
    /// Anything else.
    Other,
}

/// How a call reaches its code.
#[derive(Clone, Copy, Debug, PartialEq, Eq, Structural)]
pub enum CallScheme {
    Call,
    CallCode,
    DelegateCall,
    StaticCall,
}

/// How the address of a new contract is chosen.
#[derive(Clone, Copy, Debug)]
pub enum CreateScheme {
    /// From the caller and its nonce.
    Create,
    /// From the caller, a salt and the init code.
    Create2 { salt: U256 },
    /// As given.
    Custom { address: Address },
}

/// A call that is about to run.
#[derive(Clone, Copy, Debug)]
pub struct CallInputs {
    pub scheme: CallScheme,
    /// Account whose code runs.
    pub bytecode_address: Address,
    /// Account whose storage the call works on.
    pub target_address: Address,
}

/// A contract creation that is about to run.
#[derive(Debug)]
pub struct CreateInputs {
    pub caller: Address,
    pub scheme: CreateScheme,
    pub init_code: Bytes,
}

/// The account that a call frame is recorded under: the account whose code runs for calls that
/// keep the caller's storage, else the target.
pub open spec fn call_frame_address(inputs: CallInputs) -> Address {
    match inputs.scheme {
        CallScheme::DelegateCall | CallScheme::CallCode => inputs.bytecode_address,
        _ => inputs.target_address,
    }
}

/// A frame that has started and not yet finished.
#[derive(Clone, Copy, Debug)]
pub struct NativeCallFrame {
    /// The record of the frame.
    pub change_index: usize,
    /// Length of the journal when the frame started.
    pub journal_start: usize,
    /// Number of storage actions when the frame started.
    pub action_cursor: usize,
}

/// The content of a [`NativeStorageChangeInspector`].
#[verifier::ext_equal]
pub struct NativeModel {
    /// The open frames, the innermost last.
    pub frames: Seq<NativeCallFrame>,
    /// One record per frame that ever started, in the order of their starts.
    pub changes: Seq<(Address, NativeStorageWrites)>,
}

/// The accounts written to by the journal entries from `start` on. A journal that has been
/// reverted to before `start` holds none.
pub open spec fn journal_writes(journal: Seq<JournalEntry>, start: int) -> Seq<Address>
    decreases journal.len(),
{
    if journal.len() == 0 || journal.len() <= start {
        Seq::empty()
    } else {
        let before = journal_writes(journal.drop_last(), start);
        match journal.last() {
            JournalEntry::StorageChanged { address } => before.push(address),
            JournalEntry::Other => before,
        }
    }
}

/// What a frame of account `own` wrote, given what it is known to have written and the accounts
/// of some more writes.
pub open spec fn writes_with(
    known: NativeStorageWrites,
    own: Address,
    written: Seq<Address>,
) -> NativeStorageWrites {
    NativeStorageWrites {
        own: known.own || written.contains(own),
        any: known.any || written.len() > 0,
    }
}

impl NativeModel {
    /// Nothing started yet.
    pub open spec fn empty() -> NativeModel {
        NativeModel { frames: Seq::empty(), changes: Seq::empty() }
    }

    /// Every open frame has its record, which says nothing yet, and inner frames have later records
    /// than outer ones. A write to a frame's own storage is a write.
    pub open spec fn wf(self) -> bool {
        &&& forall|i: int|
            0 <= i < self.frames.len() ==> (#[trigger] self.frames[i]).change_index
                < self.changes.len()
        &&& forall|i: int, j: int|
            0 <= i < j < self.frames.len() ==> (#[trigger] self.frames[i]).change_index < (
            #[trigger] self.frames[j]).change_index
        &&& forall|i: int|
            0 <= i < self.frames.len() ==> self.changes[(
            #[trigger] self.frames[i]).change_index as int].1 == no_writes()
        &&& forall|i: int|
            0 <= i < self.changes.len() ==> ((#[trigger] self.changes[i]).1.own
                ==> self.changes[i].1.any)
    }

    /// The accounts of all records.
    pub open spec fn addresses(self) -> Seq<Address> {
        self.changes.map_values(|c: (Address, NativeStorageWrites)| c.0)
    }

    /// A frame of `address` starts.
    pub open spec fn started(
        self,
        address: Address,
        journal_len: usize,
        action_cursor: usize,
    ) -> NativeModel {
        NativeModel {
            frames: self.frames.push(
                NativeCallFrame {
                    change_index: self.changes.len() as usize,
                    journal_start: journal_len,
                    action_cursor,
                },
            ),
            changes: self.changes.push((address, no_writes())),
        }
    }

    /// A call starts.
    pub open spec fn called(
        self,
        inputs: CallInputs,
        journal_len: usize,
        action_cursor: usize,
    ) -> NativeModel {
        self.started(call_frame_address(inputs), journal_len, action_cursor)
    }

    /// A contract creation starts; without the nonce of the creator, nothing does.
    pub open spec fn creating(
        self,
        inputs: CreateInputs,
        nonce: Option<u64>,
        journal_len: usize,
        action_cursor: usize,
    ) -> NativeModel {
        match nonce {
            Some(nonce) => self.started(
                address_of(inputs.created(nonce)),
                journal_len,
                action_cursor,
            ),
            None => self,
        }
    }

    /// A call finishes: its outcome says whether a precompile served it.
    pub open spec fn call_finished(
        self,
        journal: Seq<JournalEntry>,
        action_writes: Seq<Address>,
        was_precompile_called: bool,
    ) -> NativeModel {
        self.finished(journal, action_writes, was_precompile_called)
    }

    /// Number of storage actions at the start of the innermost open frame.
    pub open spec fn innermost_cursor(self) -> Option<usize> {
        if self.frames.len() == 0 {
            None
        } else {
            Some(self.frames.last().action_cursor)
        }
    }

    /// A contract creation finishes: no precompile serves it.
    pub open spec fn creation_finished(
        self,
        journal: Seq<JournalEntry>,
        action_writes: Seq<Address>,
    ) -> NativeModel {
        self.finished(journal, action_writes, false)
    }

    /// The innermost frame finishes. If a precompile served it, the storage writes since its start
    /// are attributed to it: those that the journal still holds and those recorded as actions.
    pub open spec fn finished(
        self,
        journal: Seq<JournalEntry>,
        action_writes: Seq<Address>,
        is_precompile: bool,
    ) -> NativeModel {
        if self.frames.len() == 0 {
            self
        } else {
            let frame = self.frames.last();
            let at = frame.change_index as int;
            let (address, known) = self.changes[at];
            let written = journal_writes(journal, frame.journal_start as int) + action_writes;
            NativeModel {
                frames: self.frames.drop_last(),
                changes: if is_precompile {
                    self.changes.update(at, (address, writes_with(known, address, written)))
                } else {
                    self.changes
                },
            }
        }
    }
}

/// Records the storage writes performed inside native precompile frames.
#[derive(Debug)]
pub struct NativeStorageChangeInspector {
    frames: Vec<NativeCallFrame>,
    changes: Vec<(Address, NativeStorageWrites)>,
}

impl View for NativeStorageChangeInspector {
    type V = NativeModel;

    closed spec fn view(&self) -> NativeModel {
        NativeModel { frames: self.frames@, changes: self.changes@ }
    }
}

impl Default for NativeStorageChangeInspector {
    fn default() -> (r: NativeStorageChangeInspector)
        ensures
            r@ == NativeModel::empty(),
            r@.wf(),
    {
        NativeStorageChangeInspector::new()
    }
}

impl NativeStorageChangeInspector {
    /// An inspector that has seen no frame.
    pub fn new() -> (r: NativeStorageChangeInspector)
        ensures
            r@ == NativeModel::empty(),
            r@.wf(),
    {
        NativeStorageChangeInspector { frames: Vec::new(), changes: Vec::new() }
    }

    /// Number of storage actions at the start of the innermost open frame. The writes recorded as
    /// actions since then are what [`Self::finish_frame`] takes.
    pub fn action_cursor(&self) -> (r: Option<usize>)
        ensures
            r == self@.innermost_cursor(),
    {
        if self.frames.len() == 0 {
            None
        } else {
            Some(self.frames[self.frames.len() - 1].action_cursor)
        }
    }

    /// Starts a frame of `address`, with a journal of `journal_len` entries and `action_cursor`
    /// storage actions recorded so far.
    pub fn start_frame(&mut self, address: Address, journal_len: usize, action_cursor: usize)
        requires
            old(self)@.wf(),
        ensures
            final(self)@ == old(self)@.started(address, journal_len, action_cursor),
            final(self)@.wf(),
    {
        let ghost model = self@;
        let change_index = self.changes.len();
        self.changes.push((address, NativeStorageWrites::default()));
        self.frames.push(NativeCallFrame { change_index, journal_start: journal_len, action_cursor });
        proof {
            let now = self@;
            assert(forall|i: int|
                0 <= i < model.frames.len() ==> #[trigger] now.frames[i] == model.frames[i]);
            assert(forall|i: int|
                0 <= i < model.changes.len() ==> #[trigger] now.changes[i] == model.changes[i]);
        }
    }

    /// Finishes the innermost frame. `action_writes` are the accounts of the storage writes
    /// recorded as actions since the frame started.
    ///
    /// Native precompiles only accept direct calls, so the frame address is the account whose
    /// storage the precompile owns. Storage actions survive a journal revert, so writes of a
    /// failed call are still attributed, like an SSTORE executed before a revert.
    pub fn finish_frame(
        &mut self,
        journal: &[JournalEntry],
        action_writes: &[Address],
        is_precompile: bool,
    )
        requires
            old(self)@.wf(),
        ensures
            final(self)@ == old(self)@.finished(journal@, action_writes@, is_precompile),
            final(self)@.wf(),
    {
        let ghost model = self@;
        let frame = match self.frames.pop() {
            Some(frame) => frame,
            None => {
                return;
            },
        };
        assert(self.frames@ =~= model.frames.drop_last());
        if !is_precompile {
            return;
        }
        let (address, known) = self.changes[frame.change_index];
        let (own_journaled, any_journaled) = writes_of_journal(
            journal,
            frame.journal_start,
            &address,
        );
        let (own_acted, any_acted) = writes_of_actions(action_writes, &address);
        let writes = NativeStorageWrites {
            own: known.own || own_journaled || own_acted,
            any: known.any || any_journaled || any_acted,
        };
        proof {
            let journaled = journal_writes(journal@, frame.journal_start as int);
            let written = journaled + action_writes@;
            if journaled.contains(address) {
                let i = journaled.index_of(address);
                assert(written[i] == address);
            }
            if action_writes@.contains(address) {
                let i = action_writes@.index_of(address);
                assert(written[journaled.len() + i] == address);
            }
            if written.contains(address) {
                let i = written.index_of(address);
                if i < journaled.len() {
                    assert(journaled[i] == address);
                } else {
                    assert(action_writes@[i - journaled.len()] == address);
                }
            }
            assert(writes == writes_with(known, address, written));
        }
        self.changes.set(frame.change_index, (address, writes));
    }

    /// The records of all frames, in the order of their starts.
    pub fn into_changes(self) -> (r: Vec<(Address, NativeStorageWrites)>)
        ensures
            r@ == self@.changes,
    {
        self.changes
    }

    /// A call is about to run.
    pub fn call(&mut self, inputs: &CallInputs, journal_len: usize, action_cursor: usize)
        requires
            old(self)@.wf(),
        ensures
            final(self)@ == old(self)@.called(*inputs, journal_len, action_cursor),
            final(self)@.wf(),
    {
        let address = match inputs.scheme {
            CallScheme::DelegateCall | CallScheme::CallCode => inputs.bytecode_address,
            _ => inputs.target_address,
        };
        self.start_frame(address, journal_len, action_cursor);
    }

    /// A call has run. Whether a precompile served it is what the outcome of the call says,
    /// precompiles registered through a lookup among them.
    pub fn call_end(
        &mut self,
        journal: &[JournalEntry],
        action_writes: &[Address],
        was_precompile_called: bool,
    )
        requires
            old(self)@.wf(),
        ensures
            final(self)@ == old(self)@.call_finished(
                journal@,
                action_writes@,
                was_precompile_called,
            ),
            final(self)@.wf(),
    {
        self.finish_frame(journal, action_writes, was_precompile_called);
    }

    /// A contract creation is about to run. `nonce` is the nonce of the caller; without it, because
    /// the caller could not be loaded, no frame starts.
    pub fn create(
        &mut self,
        inputs: &CreateInputs,
        nonce: Option<u64>,
        journal_len: usize,
        action_cursor: usize,
    )
        requires
            old(self)@.wf(),
        ensures
            final(self)@ == old(self)@.creating(*inputs, nonce, journal_len, action_cursor),
            nonce is Some ==> address_of(inputs.created(nonce->0))@ == inputs.created(nonce->0),
            final(self)@.wf(),
    {
        if let Some(nonce) = nonce {
            let address = created_address(inputs, nonce);
            proof {
                address_of_its_bytes(address);
            }
            self.start_frame(address, journal_len, action_cursor);
        }
    }

    /// A contract creation has run.
    pub fn create_end(&mut self, journal: &[JournalEntry], action_writes: &[Address])
        requires
            old(self)@.wf(),
        ensures
            final(self)@ == old(self)@.creation_finished(journal@, action_writes@),
            final(self)@.wf(),
    {
        self.finish_frame(journal, action_writes, false);
    }
}

/// Whether the journal entries from `start` on write to `address`, and whether to any account.
fn writes_of_journal(journal: &[JournalEntry], start: usize, address: &Address) -> (r: (bool, bool))
    ensures
        r.0 == journal_writes(journal@, start as int).contains(*address),
        r.1 == (journal_writes(journal@, start as int).len() > 0),
{
    let mut own = false;
    let mut any = false;
    if journal.len() <= start {
        return (own, any);
    }
    let mut i: usize = start;
    assert(journal@.take(i as int).len() <= start);
    while i < journal.len()
        invariant
            start <= i <= journal.len(),
            own == journal_writes(journal@.take(i as int), start as int).contains(*address),
            any == (journal_writes(journal@.take(i as int), start as int).len() > 0),
        decreases journal.len() - i,
    {
        let ghost before = journal_writes(journal@.take(i as int), start as int);
        assert(journal@.take(i + 1).drop_last() =~= journal@.take(i as int));
        assert(journal@.take(i + 1).last() == journal@[i as int]);
        if let JournalEntry::StorageChanged { address: written } = journal[i] {
            any = true;
            let same = written == *address;
            proof {
                let now = before.push(written);
                if own {
                    let k = before.index_of(*address);
                    assert(now[k] == *address);
                }
                if same {
                    assert(now[before.len() as int] == *address);
                }
                if now.contains(*address) {
                    let k = now.index_of(*address);
                    if k < before.len() {
                        assert(before[k] == *address);
                    }
                }
            }
            own = own || same;
        }
        i += 1;
    }
    assert(journal@.take(journal@.len() as int) =~= journal@);
    (own, any)
}

/// Whether the writes go to `address`, and whether there are any.
fn writes_of_actions(written: &[Address], address: &Address) -> (r: (bool, bool))
    ensures
        r.0 == written@.contains(*address),
        r.1 == (written@.len() > 0),
{
    let mut i: usize = 0;
    while i < written.len()
        invariant
            i <= written.len(),
            forall|k: int| 0 <= k < i ==> written@[k] != *address,
        decreases written.len() - i,
    {
        if written[i] == *address {
            return (true, true);
        }
        i += 1;
    }
    (false, written.len() > 0)
}

/// Each call or create frame adds exactly one record, under its account, behind all earlier ones;
/// finishing a frame adds or moves none. So the records follow the order of the tracing arena.
pub proof fn records_follow_frame_starts(
    model: NativeModel,
    address: Address,
    journal_len: usize,
    action_cursor: usize,
    journal: Seq<JournalEntry>,
    action_writes: Seq<Address>,
    is_precompile: bool,
)
    requires
        model.wf(),
    ensures
        model.started(address, journal_len, action_cursor).addresses() == model.addresses().push(
            address,
        ),
        model.finished(journal, action_writes, is_precompile).addresses() == model.addresses(),
{
    assert(model.started(address, journal_len, action_cursor).addresses()
        =~= model.addresses().push(address));
    assert(model.finished(journal, action_writes, is_precompile).addresses()
        =~= model.addresses());
}

/// A frame that starts and finishes leaves the open frames and all earlier records as they were,
/// and its own record says what it wrote: nothing unless a precompile served it; else the writes
/// that the journal holds behind its start and those recorded as actions.
pub proof fn finished_frame_is_recorded_alone(
    model: NativeModel,
    address: Address,
    journal_len: usize,
    action_cursor: usize,
    journal: Seq<JournalEntry>,
    action_writes: Seq<Address>,
    is_precompile: bool,
)
    requires
        model.wf(),
        model.changes.len() <= usize::MAX,
    ensures
        ({
            let after = model.started(address, journal_len, action_cursor).finished(
                journal,
                action_writes,
                is_precompile,
            );
            let written = journal_writes(journal, journal_len as int) + action_writes;
            &&& after.frames == model.frames
            &&& after.changes == model.changes.push(
                (
                    address,
                    if is_precompile {
                        writes_with(no_writes(), address, written)
                    } else {
                        no_writes()
                    },
                ),
            )
        }),
{
    let started = model.started(address, journal_len, action_cursor);
    let after = started.finished(journal, action_writes, is_precompile);
    assert(after.frames =~= model.frames);
    let written = journal_writes(journal, journal_len as int) + action_writes;
    assert(started.frames.last().change_index == model.changes.len());
    assert(after.changes =~= model.changes.push(
        (
            address,
            if is_precompile {
                writes_with(no_writes(), address, written)
            } else {
                no_writes()
            },
        ),
    ));
}

/// Writes of a failed precompile call are still attributed: with the journal reverted to the start
/// of the frame or before it, a write recorded as an action marks the record all the same.
pub proof fn actions_survive_a_journal_revert(
    model: NativeModel,
    journal: Seq<JournalEntry>,
    action_writes: Seq<Address>,
)
    requires
        model.wf(),
        model.frames.len() > 0,
        journal.len() <= model.frames.last().journal_start,
        action_writes.len() > 0,
    ensures
        ({
            let at = model.frames.last().change_index as int;
            let record = model.finished(journal, action_writes, true).changes[at];
            &&& record.0 == model.changes[at].0
            &&& record.1.any
            &&& record.1.own == action_writes.contains(record.0)
        }),
{
    let at = model.frames.last().change_index as int;
    let written = journal_writes(journal, model.frames.last().journal_start as int)
        + action_writes;
    assert(written =~= action_writes);
}

} // verus!
