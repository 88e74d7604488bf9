//! Aligns the records of native frames with the nodes of the tracing arena.
use vstd::prelude::*;

use crate::native::{no_writes, NativeStorageWrites};
use crate::primitives::{Address, Bytes, U256};

verus! {

/// What the tracing arena says of one call.
#[derive(Debug)]
pub struct CallTrace {
    /// Depth of the call; zero for the root.
    pub depth: usize,
    /// Whether the call succeeded.
    pub success: bool,
    /// Callee, or address of the created contract.
    pub address: Address,
    /// Call data, or init code.
    pub data: Bytes,
    /// Value sent with the call.
    pub value: U256,
    /// Result code that the call ended with, once it has ended.
    pub status: Option<u8>,
}

/// One node of the tracing arena.
#[derive(Debug)]
pub struct CallTraceNode {
    /// Index of the calling node.
    pub parent: Option<usize>,
    /// The call.
    pub trace: CallTrace,
}

/// The recorded calls of a transaction, in the order of their starts.
#[derive(Debug)]
pub struct CallTraceArena {
    pub nodes: Vec<CallTraceNode>,
}

/// Whether the records stand for the nodes, one each and in order.
pub open spec fn records_match(
    nodes: Seq<CallTraceNode>,
    changes: Seq<(Address, NativeStorageWrites)>,
) -> bool {
    &&& nodes.len() == changes.len()
    &&& forall|i: int|
        0 <= i < nodes.len() ==> (#[trigger] nodes[i]).trace.address == (#[trigger] changes[i]).0
}

/// Whether a node is a root that no call ever filled.
pub open spec fn is_synthetic_root(node: CallTraceNode) -> bool {
    &&& node.parent is None
    &&& node.trace.depth == 0
    &&& node.trace.address == Address::spec_zero()
    &&& node.trace.data@.len() == 0
    &&& node.trace.value == U256::spec_zero()
    &&& node.trace.status is None
}

/// Whether the nodes are a synthetic root followed by the nodes that the records stand for.
pub open spec fn records_match_below_root(
    nodes: Seq<CallTraceNode>,
    changes: Seq<(Address, NativeStorageWrites)>,
) -> bool {
    &&& nodes.len() > 0
    &&& is_synthetic_root(nodes[0])
    &&& records_match(nodes.skip(1), changes)
}

/// The nodes with the success of the root set.
pub open spec fn with_root_success(nodes: Seq<CallTraceNode>, success: bool) -> Seq<CallTraceNode> {
    nodes.update(
        0,
        CallTraceNode { trace: CallTrace { success, ..nodes[0].trace }, ..nodes[0] },
    )
}

/// Whether the records stand for the nodes from `skip` on, one each and in order.
fn addresses_match(
    nodes: &Vec<CallTraceNode>,
    skip: usize,
    changes: &Vec<(Address, NativeStorageWrites)>,
) -> (r: bool)
    requires
        skip <= nodes.len(),
    ensures
        r == records_match(nodes@.skip(skip as int), changes@),
{
    let ghost rest = nodes@.skip(skip as int);
    if nodes.len() - skip != changes.len() {
        return false;
    }
    let mut i: usize = 0;
    while i < changes.len()
        invariant
            i <= changes.len(),
            rest == nodes@.skip(skip as int),
            nodes.len() - skip == changes.len(),
            forall|k: int|
                0 <= k < i ==> (#[trigger] rest[k]).trace.address == (#[trigger] changes@[k]).0,
        decreases changes.len() - i,
    {
        assert(rest[i as int] == nodes@[skip + i]);
        if nodes[skip + i].trace.address != changes[i].0 {
            return false;
        }
        i += 1;
    }
    true
}

/// What alignment yields: the records, if they stand for the nodes; the records behind one for the
/// root, which then has the success of the transaction, if they stand for the nodes below a
/// synthetic root; else nothing.
pub open spec fn is_alignment(
    nodes: Seq<CallTraceNode>,
    changes: Seq<(Address, NativeStorageWrites)>,
    tx_success: bool,
    aligned: Option<Seq<(Address, NativeStorageWrites)>>,
    after: Seq<CallTraceNode>,
) -> bool {
    if records_match(nodes, changes) {
        &&& aligned == Some(changes)
        &&& after == nodes
    } else if records_match_below_root(nodes, changes) {
        &&& aligned == Some(seq![(Address::spec_zero(), no_writes())] + changes)
        &&& after == with_root_success(nodes, tx_success)
    } else {
        &&& aligned is None
        &&& after == nodes
    }
}

/// Aligns native inspector calls with tracing arena nodes.
///
/// Standard transactions enter the EVM at journal depth zero, so the first inspector call fills
/// arena node zero and both inspectors have the same number of records. Account-abstraction
/// transactions execute their calls at depth one under a synthetic transaction root. The tracing
/// inspector keeps its preallocated node zero for that root, but no call is inspected for it. The
/// only accepted offset is therefore one verified synthetic root followed by an exact address
/// match for every real call or create frame.
///
/// A synthetic root is given the success of the transaction.
pub fn align_native_storage_changes(
    arena: &mut CallTraceArena,
    native_changes: Vec<(Address, NativeStorageWrites)>,
    tx_success: bool,
) -> (r: Option<Vec<(Address, NativeStorageWrites)>>)
    ensures
        is_alignment(
            old(arena).nodes@,
            native_changes@,
            tx_success,
            match r {
                Some(aligned) => Some(aligned@),
                None => None,
            },
            final(arena).nodes@,
        ),
{
    let ghost nodes = arena.nodes@;
    assert(nodes.skip(0) =~= nodes);
    if addresses_match(&arena.nodes, 0, &native_changes) {
        return Some(native_changes);
    }
    if arena.nodes.len() == 0 {
        return None;
    }
    let root = &arena.nodes[0];
    let synthetic = root.parent.is_none() && root.trace.depth == 0 && root.trace.address.is_zero()
        && root.trace.data.is_empty() && root.trace.value.is_zero() && root.trace.status.is_none();
    if !(synthetic && addresses_match(&arena.nodes, 1, &native_changes)) {
        return None;
    }
    arena.nodes[0].trace.success = tx_success;
    assert(arena.nodes@ =~= with_root_success(nodes, tx_success));
    let ghost changes = native_changes@;
    let mut native_changes = native_changes;
    let mut aligned: Vec<(Address, NativeStorageWrites)> = Vec::new();
    aligned.push((Address::zero(), NativeStorageWrites::default()));
    aligned.append(&mut native_changes);
    assert(aligned@ =~= seq![(Address::spec_zero(), no_writes())] + changes);
    Some(aligned)
}

/// Whether the bytes are all zero.
pub open spec fn is_blank(bytes: Seq<u8>) -> bool {
    forall|i: int| 0 <= i < bytes.len() ==> #[trigger] bytes[i] == 0
}

/// What alignment does, said of nodes and records. It succeeds exactly if there is one record per
/// node, under its address, in order; or one per node but the first, and the first is a root at
/// depth zero that no call filled: without parent, address, data, value and status. It hands out
/// the records as they came, in the second case behind one for the root that says nothing. No node
/// changes but that root, and of it nothing but its success, which becomes that of the transaction.
pub proof fn alignment_is_by_address_and_blank_root(
    nodes: Seq<CallTraceNode>,
    changes: Seq<(Address, NativeStorageWrites)>,
    tx_success: bool,
    aligned: Option<Seq<(Address, NativeStorageWrites)>>,
    after: Seq<CallTraceNode>,
)
    requires
        is_alignment(nodes, changes, tx_success, aligned, after),
    ensures
        ({
            let one_each = nodes.len() == changes.len() && forall|i: int|
                #![trigger nodes[i]]
                0 <= i < nodes.len() ==> nodes[i].trace.address == changes[i].0;
            let below_root = {
                &&& nodes.len() == changes.len() + 1
                &&& nodes[0].parent is None
                &&& nodes[0].trace.depth == 0
                &&& is_blank(nodes[0].trace.address@)
                &&& nodes[0].trace.data@.len() == 0
                &&& is_blank(nodes[0].trace.value@)
                &&& nodes[0].trace.status is None
                &&& forall|i: int|
                    #![trigger changes[i]]
                    0 <= i < changes.len() ==> nodes[i + 1].trace.address == changes[i].0
            };
            &&& aligned is Some <==> one_each || below_root
            &&& one_each ==> aligned->0 == changes && after == nodes
            &&& below_root ==> {
                &&& aligned->0.len() == changes.len() + 1
                &&& is_blank(aligned->0[0].0@)
                &&& !aligned->0[0].1.own
                &&& !aligned->0[0].1.any
                &&& forall|i: int|
                    #![trigger changes[i]]
                    0 <= i < changes.len() ==> aligned->0[i + 1] == changes[i]
                &&& after[0].trace.success == tx_success
                &&& after[0].parent == nodes[0].parent
                &&& after[0].trace.depth == nodes[0].trace.depth
                &&& after[0].trace.address == nodes[0].trace.address
                &&& after[0].trace.data == nodes[0].trace.data
                &&& after[0].trace.value == nodes[0].trace.value
                &&& after[0].trace.status == nodes[0].trace.status
            }
            &&& aligned is None ==> after == nodes
            &&& after.len() == nodes.len()
            &&& forall|i: int| 0 < i < nodes.len() ==> #[trigger] after[i] == nodes[i]
        }),
{
    let tail = nodes.skip(1);
    if nodes.len() > 0 {
        let root = nodes[0];
        let no_address = Address::spec_zero();
        let no_value = U256::spec_zero();
        assert(is_blank(no_address@)) by {
            assert forall|i: int| 0 <= i < no_address@.len() implies #[trigger] no_address@[i]
                == 0 by {}
        }
        assert(is_blank(no_value@)) by {
            assert forall|i: int| 0 <= i < no_value@.len() implies #[trigger] no_value@[i] == 0 by {}
        }
        if is_blank(root.trace.address@) {
            assert forall|i: int| 0 <= i < 20 implies root.trace.address.0[i]
                == no_address.0[i] by {
                assert(root.trace.address@[i] == 0);
                assert(no_address@[i] == 0);
            }
            assert(root.trace.address.0 =~= no_address.0);
        }
        if is_blank(root.trace.value@) {
            assert forall|i: int| 0 <= i < 32 implies root.trace.value.0[i] == no_value.0[i] by {
                assert(root.trace.value@[i] == 0);
                assert(no_value@[i] == 0);
            }
            assert(root.trace.value.0 =~= no_value.0);
        }
        assert forall|i: int| 0 <= i < tail.len() implies (#[trigger] tail[i]) == nodes[i + 1] by {}
        if nodes.len() == changes.len() + 1 && forall|i: int|
            #![trigger changes[i]]
            0 <= i < changes.len() ==> nodes[i + 1].trace.address == changes[i].0 {
            assert(records_match(tail, changes));
        }
        if records_match(tail, changes) {
            assert forall|i: int|
                #![trigger changes[i]]
                0 <= i < changes.len() implies nodes[i + 1].trace.address == changes[i].0 by {
                assert(tail[i] == nodes[i + 1]);
            }
        }
    }
    if nodes.len() == changes.len() && forall|i: int|
        #![trigger nodes[i]]
        0 <= i < nodes.len() ==> nodes[i].trace.address == changes[i].0 {
        assert(records_match(nodes, changes));
    }
    if records_match(nodes, changes) {
        assert forall|i: int|
            #![trigger nodes[i]]
            0 <= i < nodes.len() implies nodes[i].trace.address == changes[i].0 by {
            assert(changes[i] == changes[i]);
        }
    }
}

/// What alignment returns has one record per arena node, under the address of that node. Only a
/// verified synthetic root comes without a record of its own; it then has the zero address, no
/// writes, and the success of the transaction. No node changes otherwise.
pub proof fn aligned_records_stand_for_nodes(
    nodes: Seq<CallTraceNode>,
    changes: Seq<(Address, NativeStorageWrites)>,
    tx_success: bool,
)
    requires
        records_match_below_root(nodes, changes),
    ensures
        records_match(nodes, seq![(Address::spec_zero(), no_writes())] + changes),
        with_root_success(nodes, tx_success)[0].trace.success == tx_success,
        with_root_success(nodes, tx_success).skip(1) == nodes.skip(1),
        !records_match(nodes, changes),
{
    let aligned = seq![(Address::spec_zero(), no_writes())] + changes;
    assert forall|i: int| 0 <= i < nodes.len() implies (#[trigger] nodes[i]).trace.address == (
    #[trigger] aligned[i]).0 by {
        if i > 0 {
            assert(nodes.skip(1)[i - 1] == nodes[i]);
            assert(aligned[i] == changes[i - 1]);
        }
    }
    assert(with_root_success(nodes, tx_success).skip(1) =~= nodes.skip(1));
}

} // verus!
