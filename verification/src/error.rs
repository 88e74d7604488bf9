//! Why a block cannot be traced.
use vstd::prelude::*;

use crate::block::BlockId;
use crate::primitives::B256;
use crate::text::{bytes_to_hex, decimal_text, hex_text, push_decimal};

verus! {

/// What tells two state diffs apart.
#[derive(Clone, Copy, Debug)]
pub struct StateDiffDigest {
    /// Hash of the encoded diff.
    pub hash: B256,
    pub new_accounts: usize,
    pub deleted_accounts: usize,
    pub storage_diffs: usize,
    pub new_codes: usize,
}

/// Why a block cannot be traced.
#[derive(Debug)]
pub enum TraceError {
    /// The block, its receipts or its parent are not known. `block_id` is the block as the request
    /// named it, whichever of the three is missing.
    HeaderNotFound { block_id: BlockId },
    /// The block has not one receipt per transaction.
    ReceiptCountMismatch { block: u64, receipts: usize, transactions: usize },
    /// The records of native frames do not fit the traced calls.
    NativeInspectorMismatch { transaction: B256, trace_nodes: usize, native_frames: usize },
    /// Replaying a transaction left no receipt.
    MissingReplayedReceipt { transaction: B256 },
    /// Replaying the block used another amount of gas than its header says.
    GasMismatch { block: u64, replayed_gas: u64, header_gas: u64 },
    /// Replaying the block gave other receipts than its header says.
    ReceiptsRootMismatch { block: u64, replayed_root: B256, header_root: B256 },
    /// The state diff could not be read from the database.
    CanonicalStateDiff { block: u64, cause: String },
    /// Replaying the block changed the state in another way than the database says.
    StateDiffMismatch { block: u64, replayed: StateDiffDigest, canonical: StateDiffDigest },
}

/// A state diff in an error message.
pub open spec fn digest_text(digest: StateDiffDigest) -> Seq<char> {
    hex_text(digest.hash@) + " (accounts "@ + decimal_text(digest.new_accounts as nat)
        + ", deleted "@ + decimal_text(digest.deleted_accounts as nat) + ", storage "@
        + decimal_text(digest.storage_diffs as nat) + ", codes "@ + decimal_text(
        digest.new_codes as nat,
    ) + ")"@
}

impl TraceError {
    /// The message of an error that is reported as a failed execution.
    pub open spec fn text(self) -> Option<Seq<char>> {
        match self {
            TraceError::HeaderNotFound { .. } => None,
            TraceError::ReceiptCountMismatch { block, receipts, transactions } => Some(
                "trace_debankBlock receipt count mismatch for block "@ + decimal_text(block as nat)
                    + ": receipts "@ + decimal_text(receipts as nat) + ", transactions "@
                    + decimal_text(transactions as nat),
            ),
            TraceError::NativeInspectorMismatch { transaction, trace_nodes, native_frames } => Some(
                "trace_debankBlock native inspector mismatch for transaction "@ + hex_text(
                    transaction@,
                ) + ": trace nodes "@ + decimal_text(trace_nodes as nat) + ", native frames "@
                    + decimal_text(native_frames as nat),
            ),
            TraceError::MissingReplayedReceipt { transaction } => Some(
                "trace_debankBlock missing replayed receipt for transaction "@ + hex_text(
                    transaction@,
                ),
            ),
            TraceError::GasMismatch { block, replayed_gas, header_gas } => Some(
                "trace_debankBlock gas mismatch for block "@ + decimal_text(block as nat)
                    + ": replayed "@ + decimal_text(replayed_gas as nat) + ", header "@
                    + decimal_text(header_gas as nat),
            ),
            TraceError::ReceiptsRootMismatch { block, replayed_root, header_root } => Some(
                "trace_debankBlock receipts root mismatch for block "@ + decimal_text(block as nat)
                    + ": replayed "@ + hex_text(replayed_root@) + ", header "@ + hex_text(header_root@),
            ),
            TraceError::CanonicalStateDiff { block, cause } => Some(
                "trace_debankBlock failed to build canonical state diff for block "@
                    + decimal_text(block as nat) + ": "@ + cause@,
            ),
            TraceError::StateDiffMismatch { block, replayed, canonical } => Some(
                "trace_debankBlock state diff mismatch for block "@ + decimal_text(block as nat)
                    + ": replayed "@ + digest_text(replayed) + ", canonical "@ + digest_text(
                    canonical,
                ),
            ),
        }
    }

    /// The message of an error that is reported as a failed execution.
    pub fn message(&self) -> (r: Option<String>)
        ensures
            match r {
                Some(message) => self.text() == Some(message@),
                None => self.text() is None,
            },
    {
        match self {
            TraceError::HeaderNotFound { .. } => None,
            TraceError::ReceiptCountMismatch { block, receipts, transactions } => {
                let mut m = String::from_str("trace_debankBlock receipt count mismatch for block ");
                push_decimal(&mut m, *block);
                m.append(": receipts ");
                push_decimal(&mut m, *receipts as u64);
                m.append(", transactions ");
                push_decimal(&mut m, *transactions as u64);
                Some(m)
            },
            TraceError::NativeInspectorMismatch { transaction, trace_nodes, native_frames } => {
                let mut m = String::from_str(
                    "trace_debankBlock native inspector mismatch for transaction ",
                );
                push_hash(&mut m, transaction);
                m.append(": trace nodes ");
                push_decimal(&mut m, *trace_nodes as u64);
                m.append(", native frames ");
                push_decimal(&mut m, *native_frames as u64);
                Some(m)
            },
            TraceError::MissingReplayedReceipt { transaction } => {
                let mut m = String::from_str(
                    "trace_debankBlock missing replayed receipt for transaction ",
                );
                push_hash(&mut m, transaction);
                Some(m)
            },
            TraceError::GasMismatch { block, replayed_gas, header_gas } => {
                let mut m = String::from_str("trace_debankBlock gas mismatch for block ");
                push_decimal(&mut m, *block);
                m.append(": replayed ");
                push_decimal(&mut m, *replayed_gas);
                m.append(", header ");
                push_decimal(&mut m, *header_gas);
                Some(m)
            },
            TraceError::ReceiptsRootMismatch { block, replayed_root, header_root } => {
                let mut m = String::from_str("trace_debankBlock receipts root mismatch for block ");
                push_decimal(&mut m, *block);
                m.append(": replayed ");
                push_hash(&mut m, replayed_root);
                m.append(", header ");
                push_hash(&mut m, header_root);
                Some(m)
            },
            TraceError::CanonicalStateDiff { block, cause } => {
                let mut m = String::from_str(
                    "trace_debankBlock failed to build canonical state diff for block ",
                );
                push_decimal(&mut m, *block);
                m.append(": ");
                m.append(cause.as_str());
                Some(m)
            },
            TraceError::StateDiffMismatch { block, replayed, canonical } => {
                let mut m = String::from_str("trace_debankBlock state diff mismatch for block ");
                push_decimal(&mut m, *block);
                m.append(": replayed ");
                push_digest(&mut m, replayed);
                m.append(", canonical ");
                push_digest(&mut m, canonical);
                Some(m)
            },
        }
    }
}

/// Appends a hash to a text.
fn push_hash(text: &mut String, hash: &B256)
    ensures
        final(text)@ == old(text)@ + hex_text(hash@),
{
    let hex = bytes_to_hex(hash.0.as_slice());
    text.append(hex.as_str());
}

/// Appends a state diff to a text.
fn push_digest(text: &mut String, digest: &StateDiffDigest)
    ensures
        final(text)@ == old(text)@ + digest_text(*digest),
{
    push_hash(text, &digest.hash);
    text.append(" (accounts ");
    push_decimal(text, digest.new_accounts as u64);
    text.append(", deleted ");
    push_decimal(text, digest.deleted_accounts as u64);
    text.append(", storage ");
    push_decimal(text, digest.storage_diffs as u64);
    text.append(", codes ");
    push_decimal(text, digest.new_codes as u64);
    text.append(")");
    assert(text@ =~= old(text)@ + digest_text(*digest));
}

} // verus!
