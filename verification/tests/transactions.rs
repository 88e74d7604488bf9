use debank_trace_block::json::Json;
use debank_trace_block::primitives::{Address, B256, U256};
use debank_trace_block::transaction::{
    debank_aa_calls_and_target, debank_aa_fields, debank_transaction, debank_transaction_target,
    AaTransaction, Call, ReceiptInfo, TempoCall, TransactionInfo, TxKind,
};

fn repeat_byte(byte: u8) -> Address {
    Address([byte; 20])
}

fn number(n: u8) -> U256 {
    let mut bytes = [0; 32];
    bytes[31] = n;
    U256(bytes)
}

#[test]
fn transaction_target_uses_created_address_for_create() {
    let created = repeat_byte(0x33);

    assert_eq!(debank_transaction_target(None, Some(created)), created);
    assert_eq!(
        debank_transaction_target(Some(repeat_byte(0x44)), Some(created)),
        repeat_byte(0x44)
    );
}

#[test]
fn transaction_without_any_target_goes_to_zero() {
    assert_eq!(debank_transaction_target(None, None), Address::zero());
    assert!(debank_transaction_target(None, None).is_zero());
}

/// The JSON form of the calls, with the fields that are written out.
fn calls_to_json(calls: &[TempoCall]) -> serde_json::Value {
    let calls: Vec<_> = calls
        .iter()
        .map(|call| {
            let mut object = serde_json::Map::new();
            let to = call.to.map(|to| format!("{}", alloy_primitives::Address::from(to.0)));
            object.insert("to".to_string(), serde_json::to_value(to).unwrap());
            serde_json::Value::Object(object)
        })
        .collect();
    serde_json::Value::Array(calls)
}

#[test]
fn aa_calls_keep_create_target_as_null() {
    let created = repeat_byte(0x71);
    let callee = repeat_byte(0x20);
    let calls = vec![
        Call {
            to: TxKind::Create,
            value: U256::zero(),
            input: vec![0x60, 0x80],
        },
        Call {
            to: TxKind::Call(callee),
            value: number(1),
            input: vec![0x01],
        },
    ];

    let (debank_calls, target) = debank_aa_calls_and_target(&calls, Some(created));
    assert_eq!(target, created);
    assert_eq!(debank_calls[0].to, None);
    assert_eq!(debank_calls[0].input, calls[0].input);
    assert_eq!(debank_calls[1].to, Some(callee));
    assert_eq!(debank_calls[1].value, number(1));
    let json = calls_to_json(&debank_calls);
    assert_eq!(json[0]["to"], serde_json::Value::Null);

    // A reverted CREATE has no receipt contract address.
    let (_, target) = debank_aa_calls_and_target(&calls, None);
    assert_eq!(target, Address::zero());

    // Plain calls keep the AA rule of a zero top-level target.
    let (debank_calls, target) = debank_aa_calls_and_target(&calls[1..], None);
    assert_eq!(target, Address::zero());
    assert_eq!(debank_calls[0].to, Some(callee));
}

#[test]
fn a_call_first_leaves_the_target_at_zero_whatever_was_created() {
    let call = Call {
        to: TxKind::Call(repeat_byte(1)),
        value: U256::zero(),
        input: vec![],
    };
    let (_, target) = debank_aa_calls_and_target(&[call], Some(repeat_byte(2)));
    assert_eq!(target, Address::zero());
    let (calls, target) = debank_aa_calls_and_target(&[], Some(repeat_byte(2)));
    assert_eq!(target, Address::zero());
    assert_eq!(calls.len(), 0);
}

fn text(s: &str) -> Json {
    Json::Text(s.to_string())
}

fn object(entries: Vec<(&str, Json)>) -> Json {
    Json::Object(
        entries
            .into_iter()
            .map(|(name, value)| (name.to_string(), value))
            .collect(),
    )
}

#[test]
fn hex_fields_are_read_from_texts() {
    let fields = debank_aa_fields(object(vec![
        ("chainId", text("0x1079")),
        ("validBefore", text("FF")),
        ("validAfter", text("0x")),
    ]));
    assert_eq!(fields.chain_id, Some(0x1079));
    assert_eq!(fields.valid_before, Some(255));
    assert_eq!(fields.valid_after, None);

    let fields = debank_aa_fields(object(vec![
        ("chainId", Json::Number("1".to_string())),
        ("validBefore", Json::Null),
    ]));
    assert_eq!(fields.chain_id, None);
    assert_eq!(fields.valid_before, None);
    assert_eq!(fields.valid_after, None);
}

fn fee_token(s: &str) -> Option<Address> {
    debank_aa_fields(object(vec![("feeToken", text(s))])).fee_token
}

#[test]
fn the_fee_token_is_an_address() {
    let expected = Address([
        0x20, 0xc0, 0, 0, 0, 0, 0, 0, 0, 0, 0, 0, 0, 0, 0, 0, 0, 0, 0, 0xAb,
    ]);
    assert_eq!(fee_token("0x20c00000000000000000000000000000000000AB"), Some(expected));
    assert_eq!(fee_token("20C00000000000000000000000000000000000ab"), Some(expected));
    assert_eq!(fee_token("0X20c00000000000000000000000000000000000ab"), Some(expected));
    assert_eq!(fee_token("0x20c00000000000000000000000000000000000a"), None);
    assert_eq!(fee_token("0x20c00000000000000000000000000000000000ag"), None);
    assert_eq!(fee_token("0x0x20c00000000000000000000000000000000000ab"), None);
    assert_eq!(fee_token(""), None);
    assert_eq!(debank_aa_fields(object(vec![])).fee_token, None);
    assert_eq!(debank_aa_fields(object(vec![("feeToken", Json::Null)])).fee_token, None);
}

fn nonce_key(s: &str) -> Option<U256> {
    debank_aa_fields(object(vec![("nonceKey", text(s))])).nonce_key
}

#[test]
fn the_nonce_key_is_an_integer_of_256_bits() {
    assert_eq!(nonce_key("0x2a"), Some(number(42)));
    assert_eq!(nonce_key("42"), Some(number(42)));
    assert_eq!(nonce_key("0b101"), Some(number(5)));
    assert_eq!(nonce_key("0o17"), Some(number(15)));
    assert_eq!(nonce_key("0X2A"), Some(number(42)));
    assert_eq!(nonce_key("1_0"), Some(number(10)));
    assert_eq!(nonce_key("0x0"), Some(U256::zero()));
    assert_eq!(nonce_key("0x"), Some(U256::zero()));
    assert_eq!(nonce_key(""), Some(U256::zero()));
    assert_eq!(nonce_key("4g"), None);
    assert_eq!(nonce_key("-1"), None);
    assert_eq!(nonce_key("0b2"), None);
    let most = format!("0x{}", "f".repeat(64));
    assert_eq!(nonce_key(&most), Some(U256([0xff; 32])));
    let too_much = format!("0x1{}", "0".repeat(64));
    assert_eq!(nonce_key(&too_much), None);
}

fn signature_type(signature: Json) -> Option<String> {
    debank_aa_fields(object(vec![("signature", signature)])).signature_type
}

#[test]
fn the_signature_type_stands_in_either_format() {
    let direct = object(vec![("type", text("p256")), ("r", text("0x1"))]);
    assert_eq!(signature_type(direct).as_deref(), Some("p256"));

    let keychain = object(vec![
        ("type", text("keychain")),
        ("signature", object(vec![("type", text("webAuthn"))])),
    ]);
    assert_eq!(signature_type(keychain).as_deref(), Some("webAuthn"));

    let untyped_inner = object(vec![
        ("type", text("keychain")),
        ("signature", object(vec![("r", text("0x1"))])),
    ]);
    assert_eq!(signature_type(untyped_inner).as_deref(), Some("keychain"));

    let inner_of_another_kind = object(vec![
        ("type", text("keychain")),
        ("signature", object(vec![("type", Json::Bool(true))])),
    ]);
    assert_eq!(signature_type(inner_of_another_kind), None);
    assert_eq!(signature_type(text("0xab")), None);
    assert_eq!(debank_aa_fields(object(vec![])).signature_type, None);
}

#[test]
fn signatures_and_lists_are_kept_as_they_are() {
    let fields = debank_aa_fields(object(vec![
        ("signature", Json::Null),
        ("feePayerSignature", object(vec![("v", text("0x1"))])),
        ("keyAuthorization", Json::Bool(false)),
        ("aaAuthorizationList", Json::List(vec![text("x")])),
        ("accessList", Json::List(vec![Json::Null, Json::Null])),
    ]));
    assert!(matches!(fields.signature, Some(Json::Null)));
    assert!(matches!(fields.fee_payer_signature, Some(Json::Object(_))));
    assert!(matches!(fields.key_authorization, Some(Json::Bool(false))));
    assert_eq!(fields.aa_authorization_list.unwrap().len(), 1);
    assert_eq!(fields.access_list.unwrap().len(), 2);

    let fields = debank_aa_fields(object(vec![
        ("feePayerSignature", Json::Null),
        ("keyAuthorization", Json::Null),
        ("aaAuthorizationList", Json::List(vec![])),
        ("accessList", text("x")),
    ]));
    assert!(fields.signature.is_none());
    assert!(fields.fee_payer_signature.is_none());
    assert!(fields.key_authorization.is_none());
    assert!(fields.aa_authorization_list.is_none());
    assert!(fields.access_list.is_none());
}

fn receipt() -> ReceiptInfo {
    ReceiptInfo {
        transaction_hash: B256([0xab; 32]),
        transaction_index: Some(3),
        from: repeat_byte(0x0f),
        to: Some(repeat_byte(0x70)),
        contract_address: None,
        effective_gas_price: 11,
        gas_used: 21_000,
        status: true,
    }
}

fn transaction(aa: Option<AaTransaction>) -> TransactionInfo {
    TransactionInfo {
        hash: B256([0xab; 32]),
        gas_limit: 30_000,
        max_fee_per_gas: 20,
        max_priority_fee_per_gas: Some(2),
        input: vec![1, 2, 3],
        nonce: 9,
        value: number(5),
        aa,
    }
}

#[test]
fn a_plain_transaction_keeps_its_own_fields() {
    let dtx = debank_transaction(transaction(None), &receipt());

    assert_eq!(dtx.id, format!("0x{}", "ab".repeat(32)));
    assert_eq!(dtx.from, repeat_byte(0x0f));
    assert_eq!(dtx.to, repeat_byte(0x70));
    assert_eq!(dtx.gas_limit, 30_000);
    assert_eq!(dtx.gas_price, 11);
    assert_eq!(dtx.gas_used, 21_000);
    assert!(dtx.status);
    assert_eq!(dtx.gas_fee_cap, 20);
    assert_eq!(dtx.gas_tip_cap, 2);
    assert_eq!(dtx.input, vec![1, 2, 3]);
    assert_eq!(dtx.nonce, 9);
    assert_eq!(dtx.transaction_index, 3);
    assert_eq!(dtx.value, number(5));
    assert!(dtx.calls.is_none());
    assert!(dtx.chain_id.is_none());
    assert!(dtx.signature.is_none());
}

#[test]
fn absent_tip_and_index_are_zero() {
    let mut tx = transaction(None);
    tx.max_priority_fee_per_gas = None;
    let mut receipt = receipt();
    receipt.transaction_index = None;
    receipt.to = None;
    receipt.contract_address = Some(repeat_byte(0x33));

    let dtx = debank_transaction(tx, &receipt);

    assert_eq!(dtx.gas_tip_cap, 0);
    assert_eq!(dtx.transaction_index, 0);
    assert_eq!(dtx.to, repeat_byte(0x33));
}

#[test]
fn an_aa_transaction_has_its_data_in_its_calls() {
    let aa = AaTransaction {
        calls: vec![Call {
            to: TxKind::Call(repeat_byte(0x20)),
            value: number(7),
            input: vec![4],
        }],
        json: object(vec![
            ("chainId", text("0x2")),
            ("nonceKey", text("0x1")),
            ("feeToken", text("0x0101010101010101010101010101010101010101")),
        ]),
    };

    let dtx = debank_transaction(transaction(Some(aa)), &receipt());

    // The recipient of the receipt is that of the first call only.
    assert_eq!(dtx.to, Address::zero());
    assert!(dtx.input.is_empty());
    assert_eq!(dtx.value, U256::zero());
    assert_eq!(dtx.chain_id, Some(2));
    assert_eq!(dtx.nonce_key, Some(number(1)));
    assert_eq!(dtx.fee_token, Some(repeat_byte(1)));
    let calls = dtx.calls.unwrap();
    assert_eq!(calls.len(), 1);
    assert_eq!(calls[0].value, number(7));
    assert_eq!(calls[0].input, vec![4]);
}
