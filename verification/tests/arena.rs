use debank_trace_block::arena::{
    align_native_storage_changes, CallTrace, CallTraceArena, CallTraceNode,
};
use debank_trace_block::native::NativeStorageWrites;
use debank_trace_block::primitives::{Address, U256};
use revm_inspectors::tracing::types::TraceMemberOrder;

const OWN_WRITE: NativeStorageWrites = NativeStorageWrites { own: true, any: true };

fn repeat_byte(byte: u8) -> Address {
    Address([byte; 20])
}

/// What is read of the calls that the tracing inspector records.
fn recorded(arena: &revm_inspectors::tracing::CallTraceArena) -> CallTraceArena {
    let nodes = arena
        .nodes()
        .iter()
        .map(|node| CallTraceNode {
            parent: node.parent,
            trace: CallTrace {
                depth: node.trace.depth,
                success: node.trace.success,
                address: Address(node.trace.address.into_array()),
                data: node.trace.data.to_vec(),
                value: U256(node.trace.value.to_be_bytes()),
                status: node.trace.status.map(|status| status as u8),
            },
        })
        .collect();
    CallTraceArena { nodes }
}

#[test]
fn native_changes_align_with_verified_aa_synthetic_root() {
    let precompile = repeat_byte(0x22);
    let mut arena = revm_inspectors::tracing::CallTraceArena::default();
    arena.nodes_mut()[0].children = vec![1];
    arena.nodes_mut()[0].ordering = vec![TraceMemberOrder::Call(0)];
    arena
        .nodes_mut()
        .push(revm_inspectors::tracing::types::CallTraceNode {
            parent: Some(0),
            idx: 1,
            trace: revm_inspectors::tracing::types::CallTrace {
                depth: 1,
                address: alloy_primitives::Address::repeat_byte(0x22),
                ..Default::default()
            },
            ..Default::default()
        });

    let mut invalid_arena = arena.clone();
    invalid_arena.nodes_mut()[0].trace.address = alloy_primitives::Address::repeat_byte(0x11);
    let mut invalid_arena = recorded(&invalid_arena);
    assert!(
        align_native_storage_changes(&mut invalid_arena, vec![(precompile, OWN_WRITE)], true)
            .is_none()
    );

    let mut arena = recorded(&arena);
    let aligned =
        align_native_storage_changes(&mut arena, vec![(precompile, OWN_WRITE)], true).unwrap();
    assert!(arena.nodes[0].trace.success);
    assert_eq!(
        aligned,
        vec![
            (Address::zero(), NativeStorageWrites::default()),
            (precompile, OWN_WRITE)
        ]
    );
}

fn node(parent: Option<usize>, depth: usize, address: Address) -> CallTraceNode {
    CallTraceNode {
        parent,
        trace: CallTrace {
            depth,
            success: false,
            address,
            data: vec![],
            value: U256::zero(),
            status: None,
        },
    }
}

#[test]
fn records_of_equal_number_align_one_to_one() {
    let a = repeat_byte(1);
    let b = repeat_byte(2);
    let changes = vec![(a, OWN_WRITE), (b, NativeStorageWrites::default())];
    let mut arena = CallTraceArena { nodes: vec![node(None, 0, a), node(Some(0), 1, b)] };

    let aligned = align_native_storage_changes(&mut arena, changes.clone(), true).unwrap();

    assert_eq!(aligned, changes);
    assert!(!arena.nodes[0].trace.success);

    let mut swapped = CallTraceArena { nodes: vec![node(None, 0, b), node(Some(0), 1, a)] };
    assert!(align_native_storage_changes(&mut swapped, changes, true).is_none());
}

#[test]
fn a_synthetic_root_gets_the_success_of_a_failed_transaction() {
    let a = repeat_byte(1);
    let mut arena = CallTraceArena {
        nodes: vec![node(None, 0, Address::zero()), node(Some(0), 1, a)],
    };
    arena.nodes[0].trace.success = true;
    arena.nodes[1].trace.success = true;

    let aligned = align_native_storage_changes(&mut arena, vec![(a, OWN_WRITE)], false).unwrap();

    assert_eq!(aligned[0], (Address::zero(), NativeStorageWrites::default()));
    assert_eq!(aligned.len(), arena.nodes.len());
    assert!(!arena.nodes[0].trace.success);
    assert!(arena.nodes[1].trace.success);
}

#[test]
fn a_root_that_a_call_filled_is_no_synthetic_root() {
    let a = repeat_byte(1);
    let attempt = |root: CallTraceNode| {
        let mut arena = CallTraceArena { nodes: vec![root, node(Some(0), 1, a)] };
        align_native_storage_changes(&mut arena, vec![(a, OWN_WRITE)], true).is_some()
    };
    let blank = || node(None, 0, Address::zero());

    assert!(attempt(blank()));
    assert!(!attempt(node(Some(1), 0, Address::zero())));
    assert!(!attempt(node(None, 1, Address::zero())));
    let mut root = blank();
    root.trace.data = vec![0];
    assert!(!attempt(root));
    let mut root = blank();
    let mut one = [0; 32];
    one[31] = 1;
    root.trace.value = U256(one);
    assert!(!attempt(root));
    let mut root = blank();
    root.trace.status = Some(1);
    assert!(!attempt(root));
}

#[test]
fn other_numbers_of_records_do_not_align() {
    let a = repeat_byte(1);
    let mut arena = CallTraceArena { nodes: vec![node(None, 0, Address::zero())] };
    let two = vec![(a, OWN_WRITE), (a, OWN_WRITE)];
    assert!(align_native_storage_changes(&mut arena, two, true).is_none());

    let mut none = CallTraceArena { nodes: vec![] };
    assert!(align_native_storage_changes(&mut none, vec![(a, OWN_WRITE)], true).is_none());
    assert_eq!(align_native_storage_changes(&mut none, vec![], true), Some(vec![]));
}
