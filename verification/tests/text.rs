use debank_trace_block::block::{BlockId, BlockNumberOrTag};
use debank_trace_block::error::{StateDiffDigest, TraceError};
use debank_trace_block::primitives::B256;
use debank_trace_block::text::{bytes_to_hex, parse_hex_u64, push_decimal};

#[test]
fn numbers_are_read_in_base_16() {
    assert_eq!(parse_hex_u64("0x1f"), Some(31));
    assert_eq!(parse_hex_u64("1F"), Some(31));
    assert_eq!(parse_hex_u64("0x0x10"), Some(16));
    assert_eq!(parse_hex_u64("+a"), Some(10));
    assert_eq!(parse_hex_u64("0x+a"), Some(10));
    assert_eq!(parse_hex_u64("00000000000000000000001"), Some(1));
    assert_eq!(parse_hex_u64("0xffffffffffffffff"), Some(u64::MAX));
    assert_eq!(parse_hex_u64("0x10000000000000000"), None);
    assert_eq!(parse_hex_u64(""), None);
    assert_eq!(parse_hex_u64("0x"), None);
    assert_eq!(parse_hex_u64("+"), None);
    assert_eq!(parse_hex_u64("-1"), None);
    assert_eq!(parse_hex_u64("++1"), None);
    assert_eq!(parse_hex_u64("0X1"), None);
    assert_eq!(parse_hex_u64("1g"), None);
    assert_eq!(parse_hex_u64(" 1"), None);
    assert_eq!(parse_hex_u64("\u{ff11}"), None);
}

#[test]
fn reading_numbers_agrees_with_the_standard_library() {
    for s in ["0x1f", "0x", "+1", "0x+f", "g", "ffffffffffffffffff", "0x0x1", "-0", "A0"] {
        assert_eq!(
            parse_hex_u64(s),
            u64::from_str_radix(s.trim_start_matches("0x"), 16).ok()
        );
    }
}

#[test]
fn bytes_are_written_as_hex() {
    assert_eq!(bytes_to_hex(&[]), "0x");
    assert_eq!(bytes_to_hex(&[0x00, 0x0a, 0xf9]), "0x000af9");
    let hash = alloy_primitives::B256::from([0x5c; 32]);
    assert_eq!(bytes_to_hex(&hash.0), hash.to_string());
}

#[test]
fn integers_are_written_in_base_10() {
    for n in [0, 7, 10, 99, 100, 18_446_744_073_709_551_615] {
        let mut text = String::from("n = ");
        push_decimal(&mut text, n);
        assert_eq!(text, format!("n = {n}"));
    }
}

const HASH: B256 = B256([0x0c; 32]);

fn hash_text() -> String {
    format!("0x{}", "0c".repeat(32))
}

#[test]
fn a_missing_header_has_no_message_of_its_own() {
    let block_id = BlockId::Number(BlockNumberOrTag::Latest);
    assert_eq!(TraceError::HeaderNotFound { block_id }.message(), None);
}

#[test]
fn messages_name_what_differs() {
    let count = TraceError::ReceiptCountMismatch { block: 12, receipts: 3, transactions: 4 };
    assert_eq!(
        count.message().unwrap(),
        "trace_debankBlock receipt count mismatch for block 12: receipts 3, transactions 4"
    );
    let native = TraceError::NativeInspectorMismatch {
        transaction: HASH,
        trace_nodes: 2,
        native_frames: 0,
    };
    assert_eq!(
        native.message().unwrap(),
        format!(
            "trace_debankBlock native inspector mismatch for transaction {}: trace nodes 2, native frames 0",
            hash_text()
        )
    );
    let missing = TraceError::MissingReplayedReceipt { transaction: HASH };
    assert_eq!(
        missing.message().unwrap(),
        format!(
            "trace_debankBlock missing replayed receipt for transaction {}",
            hash_text()
        )
    );
    let gas = TraceError::GasMismatch { block: 1, replayed_gas: 21_000, header_gas: 42_000 };
    assert_eq!(
        gas.message().unwrap(),
        "trace_debankBlock gas mismatch for block 1: replayed 21000, header 42000"
    );
    let root = TraceError::ReceiptsRootMismatch {
        block: 1,
        replayed_root: HASH,
        header_root: B256::zero(),
    };
    assert_eq!(
        root.message().unwrap(),
        format!(
            "trace_debankBlock receipts root mismatch for block 1: replayed {}, header 0x{}",
            hash_text(),
            "00".repeat(32)
        )
    );
    let canonical = TraceError::CanonicalStateDiff { block: 5, cause: "no data".to_string() };
    assert_eq!(
        canonical.message().unwrap(),
        "trace_debankBlock failed to build canonical state diff for block 5: no data"
    );
}

#[test]
fn a_state_diff_mismatch_describes_both_diffs() {
    let replayed = StateDiffDigest {
        hash: HASH,
        new_accounts: 1,
        deleted_accounts: 2,
        storage_diffs: 3,
        new_codes: 4,
    };
    let canonical = StateDiffDigest { new_accounts: 10, ..replayed };
    let error = TraceError::StateDiffMismatch { block: 77, replayed, canonical };
    assert_eq!(
        error.message().unwrap(),
        format!(
            "trace_debankBlock state diff mismatch for block 77: replayed {0} (accounts 1, deleted 2, storage 3, codes 4), canonical {0} (accounts 10, deleted 2, storage 3, codes 4)",
            hash_text()
        )
    );
}
