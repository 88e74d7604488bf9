//! The handle through which blocks are traced, and the settings of the tracing inspector.
use vstd::prelude::*;

use crate::primitives::Address;

verus! {

/// Traces blocks through the node interface `eth_api`.
pub struct DebankTraceBlock<Eth> {
    eth_api: Eth,
}

impl<Eth: Clone> Clone for DebankTraceBlock<Eth> {
    fn clone(&self) -> (r: DebankTraceBlock<Eth>)
        ensures
            cloned(self.api(), r.api()),
    {
        DebankTraceBlock { eth_api: self.eth_api.clone() }
    }
}

impl<Eth> DebankTraceBlock<Eth> {
    /// The node interface that blocks are traced through.
    pub closed spec fn api(self) -> Eth {
        self.eth_api
    }

    /// Traces blocks through `eth_api`.
    pub fn new(eth_api: Eth) -> (r: DebankTraceBlock<Eth>)
        ensures
            r.api() == eth_api,
    {
        DebankTraceBlock { eth_api }
    }

    /// The node interface that blocks are traced through.
    pub fn eth_api(&self) -> (r: &Eth)
        ensures
            *r == self.api(),
    {
        &self.eth_api
    }
}

/// What the tracing inspector records beyond its preset for call traces.
#[derive(Clone, Copy, Debug, PartialEq, Eq, Structural)]
pub struct InspectorSettings {
    /// Executed opcodes.
    pub steps: bool,
    /// Logs.
    pub logs: bool,
    /// Whether calls to precompiles are left out.
    pub exclude_precompile_calls: bool,
    /// The only opcode whose execution is recorded.
    pub recorded_opcode: u8,
}

/// The opcode that writes to storage.
pub const SSTORE: u8 = 0x55;

/// The settings of the tracing inspector: it records storage writes, logs, and every call, those
/// to precompiles among them, so that its nodes and the records of native frames correspond.
pub fn debank_inspector_settings() -> (r: InspectorSettings)
    ensures
        r == (InspectorSettings {
            steps: true,
            logs: true,
            exclude_precompile_calls: false,
            recorded_opcode: SSTORE,
        }),
{
    InspectorSettings {
        steps: true,
        logs: true,
        exclude_precompile_calls: false,
        recorded_opcode: SSTORE,
    }
}

/// An account that the replay changed.
#[derive(Clone, Copy, Debug)]
pub struct ChangedAccount {
    pub address: Address,
    /// The account was destroyed during the block.
    pub was_destroyed: bool,
    /// The account existed before the block.
    pub existed_before: bool,
}

/// The accounts that existed before the block and were destroyed in it.
pub open spec fn destroyed(accounts: Seq<ChangedAccount>) -> Seq<Address>
    decreases accounts.len(),
{
    if accounts.len() == 0 {
        Seq::empty()
    } else {
        let before = destroyed(accounts.drop_last());
        if accounts.last().was_destroyed && accounts.last().existed_before {
            before.push(accounts.last().address)
        } else {
            before
        }
    }
}

/// Picks the accounts that existed before the block and were destroyed in it.
pub fn destroyed_addresses(accounts: &[ChangedAccount]) -> (r: Vec<Address>)
    ensures
        r@ == destroyed(accounts@),
{
    let mut addresses: Vec<Address> = Vec::new();
    let mut i: usize = 0;
    assert(accounts@.take(0) =~= Seq::<ChangedAccount>::empty());
    while i < accounts.len()
        invariant
            i <= accounts.len(),
            addresses@ == destroyed(accounts@.take(i as int)),
        decreases accounts.len() - i,
    {
        assert(accounts@.take(i + 1).drop_last() =~= accounts@.take(i as int));
        if accounts[i].was_destroyed && accounts[i].existed_before {
            addresses.push(accounts[i].address);
        }
        i += 1;
    }
    assert(accounts@.take(accounts@.len() as int) =~= accounts@);
    addresses
}

} // verus!
