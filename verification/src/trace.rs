//! Call traces of a transaction.
use vstd::prelude::*;

verus! {

/// One call of a transaction as it is written to the block file.
///
/// `body` is what the block file says of the call itself. It is carried along unread.
#[derive(Debug)]
pub struct DebankTrace<B> {
    /// Identifier of the trace.
    pub id: String,
    /// Path from the root call to this call; empty for the root call.
    pub trace_address: Vec<usize>,
    /// Number of calls made by this call.
    pub subtraces: usize,
    /// Whether the call wrote to the storage of its own account.
    pub self_storage_change: bool,
    /// Whether the call wrote to any storage.
    pub storage_change: bool,
    /// The call itself.
    pub body: B,
}

/// What placing a log under a root trace depends on.
#[verifier::ext_equal]
pub struct RootPlace {
    /// Identifier of the trace.
    pub id: Seq<char>,
    /// Number of calls made by the root call.
    pub subtraces: int,
}

/// The place under a root trace; without one, logs go under an empty identifier.
pub open spec fn root_place<B>(root_trace: Option<&DebankTrace<B>>) -> RootPlace {
    match root_trace {
        Some(trace) => trace.place(),
        None => no_root(),
    }
}

/// The place that stands in where there is no root trace.
pub open spec fn no_root() -> RootPlace {
    RootPlace { id: Seq::empty(), subtraces: 0 }
}

impl<B> DebankTrace<B> {
    /// The place under this trace.
    pub open spec fn place(self) -> RootPlace {
        RootPlace { id: self.id@, subtraces: self.subtraces as int }
    }

    /// Whether this is the trace of the root call.
    pub open spec fn is_root(self) -> bool {
        self.trace_address@.len() == 0
    }
}

/// Whether one of the traces is that of the root call.
pub open spec fn has_root<B>(traces: Seq<DebankTrace<B>>) -> bool {
    exists|i: int| 0 <= i < traces.len() && (#[trigger] traces[i]).is_root()
}

/// Whether the root call was put among the failed calls.
pub fn root_trace_misclassified<B>(error_traces: &[DebankTrace<B>]) -> (r: bool)
    ensures
        r == has_root(error_traces@),
{
    let mut i: usize = 0;
    while i < error_traces.len()
        invariant
            i <= error_traces.len(),
            forall|k: int| 0 <= k < i ==> !(#[trigger] error_traces@[k]).is_root(),
        decreases error_traces.len() - i,
    {
        if error_traces[i].trace_address.is_empty() {
            assert(error_traces@[i as int].is_root());
            return true;
        }
        i += 1;
    }
    false
}

/// The first root trace of a sequence.
pub open spec fn first_root<B>(traces: Seq<DebankTrace<B>>) -> Option<DebankTrace<B>>
    decreases traces.len(),
{
    if traces.len() == 0 {
        None
    } else if traces[0].is_root() {
        Some(traces[0])
    } else {
        first_root(traces.drop_first())
    }
}

/// The place under the first root trace of a sequence.
pub open spec fn first_root_place<B>(traces: Seq<DebankTrace<B>>) -> RootPlace {
    match first_root(traces) {
        Some(trace) => trace.place(),
        None => no_root(),
    }
}

proof fn lemma_first_root_found<B>(traces: Seq<DebankTrace<B>>, at: int)
    requires
        0 <= at < traces.len(),
        traces[at].is_root(),
        forall|k: int| 0 <= k < at ==> !(#[trigger] traces[k]).is_root(),
    ensures
        first_root(traces) == Some(traces[at]),
    decreases traces.len(),
{
    if at > 0 {
        assert(!traces[0].is_root());
        let rest = traces.drop_first();
        assert(forall|k: int| 0 <= k < at - 1 ==> (#[trigger] rest[k]) == traces[k + 1]);
        lemma_first_root_found(rest, at - 1);
    }
}

proof fn lemma_first_root_none<B>(traces: Seq<DebankTrace<B>>)
    requires
        forall|k: int| 0 <= k < traces.len() ==> !(#[trigger] traces[k]).is_root(),
    ensures
        first_root(traces) is None,
    decreases traces.len(),
{
    if traces.len() > 0 {
        assert(!traces[0].is_root());
        let rest = traces.drop_first();
        assert(forall|k: int| 0 <= k < rest.len() ==> (#[trigger] rest[k]) == traces[k + 1]);
        lemma_first_root_none(rest);
    }
}

/// Finds the root trace of a transaction, first among the successful calls, then among the failed
/// ones.
pub fn find_root_trace<'a, B>(
    traces: &'a Vec<DebankTrace<B>>,
    error_traces: &'a Vec<DebankTrace<B>>,
) -> (r: Option<&'a DebankTrace<B>>)
    ensures
        match r {
            Some(root) => first_root(traces@ + error_traces@) == Some(*root),
            None => first_root(traces@ + error_traces@) is None,
        },
{
    let ghost all = traces@ + error_traces@;
    let mut i: usize = 0;
    while i < traces.len()
        invariant
            i <= traces.len(),
            all == traces@ + error_traces@,
            forall|k: int| 0 <= k < i ==> !(#[trigger] all[k]).is_root(),
        decreases traces.len() - i,
    {
        assert(all[i as int] == traces@[i as int]);
        if traces[i].trace_address.is_empty() {
            proof {
                lemma_first_root_found(all, i as int);
            }
            return Some(&traces[i]);
        }
        i += 1;
    }
    let mut j: usize = 0;
    while j < error_traces.len()
        invariant
            j <= error_traces.len(),
            all == traces@ + error_traces@,
            forall|k: int| 0 <= k < traces.len() + j ==> !(#[trigger] all[k]).is_root(),
        decreases error_traces.len() - j,
    {
        assert(all[traces.len() + j] == error_traces@[j as int]);
        if error_traces[j].trace_address.is_empty() {
            proof {
                lemma_first_root_found(all, traces.len() + j);
            }
            return Some(&error_traces[j]);
        }
        j += 1;
    }
    proof {
        lemma_first_root_none(all);
    }
    None
}

} // verus!
