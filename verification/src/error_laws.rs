//! What the messages of errors say.
use vstd::prelude::*;

use crate::error::{digest_text, StateDiffDigest, TraceError};
use crate::text::{decimal_text, hex_text};

verus! {

/// A state diff is described by its hash and, in this order, its counts of accounts, deleted
/// accounts, storage changes and codes.
pub proof fn a_digest_names_hash_and_counts(digest: StateDiffDigest)
    ensures
        digest_text(digest) == hex_text(digest.hash@) + " (accounts "@ + decimal_text(
            digest.new_accounts as nat,
        ) + ", deleted "@ + decimal_text(digest.deleted_accounts as nat) + ", storage "@
            + decimal_text(digest.storage_diffs as nat) + ", codes "@ + decimal_text(
            digest.new_codes as nat,
        ) + ")"@,
{
}

/// A missing header has no message. Every other error names the block or the transaction, and then
/// what was found, before what was expected.
pub proof fn messages_name_block_or_transaction_and_both_sides(error: TraceError)
    ensures
        error is HeaderNotFound <==> error.text() is None,
        error matches TraceError::ReceiptCountMismatch { block, receipts, transactions }
            ==> error.text()->0 == "trace_debankBlock receipt count mismatch for block "@
            + decimal_text(block as nat) + ": receipts "@ + decimal_text(receipts as nat)
            + ", transactions "@ + decimal_text(transactions as nat),
        error matches TraceError::NativeInspectorMismatch {
            transaction,
            trace_nodes,
            native_frames,
        } ==> error.text()->0 == "trace_debankBlock native inspector mismatch for transaction "@
            + hex_text(transaction@) + ": trace nodes "@ + decimal_text(trace_nodes as nat)
            + ", native frames "@ + decimal_text(native_frames as nat),
        error matches TraceError::MissingReplayedReceipt { transaction } ==> error.text()->0
            == "trace_debankBlock missing replayed receipt for transaction "@ + hex_text(
            transaction@,
        ),
        error matches TraceError::GasMismatch { block, replayed_gas, header_gas }
            ==> error.text()->0 == "trace_debankBlock gas mismatch for block "@ + decimal_text(
            block as nat,
        ) + ": replayed "@ + decimal_text(replayed_gas as nat) + ", header "@ + decimal_text(
            header_gas as nat,
        ),
        error matches TraceError::ReceiptsRootMismatch { block, replayed_root, header_root }
            ==> error.text()->0 == "trace_debankBlock receipts root mismatch for block "@
            + decimal_text(block as nat) + ": replayed "@ + hex_text(replayed_root@)
            + ", header "@ + hex_text(header_root@),
        error matches TraceError::CanonicalStateDiff { block, cause } ==> error.text()->0
            == "trace_debankBlock failed to build canonical state diff for block "@ + decimal_text(
            block as nat,
        ) + ": "@ + cause@,
        error matches TraceError::StateDiffMismatch { block, replayed, canonical }
            ==> error.text()->0 == "trace_debankBlock state diff mismatch for block "@
            + decimal_text(block as nat) + ": replayed "@ + digest_text(replayed)
            + ", canonical "@ + digest_text(canonical),
{
}

} // verus!
