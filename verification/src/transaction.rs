//! Transactions as they are written to the block file.
use vstd::prelude::*;

use crate::json::{
    drop_null, entry_from, non_empty_list, non_null, take_non_empty_list, Json,
};
use crate::outside::{account_of_text, big_endian, parse_address, parse_u256, u256_of_text};
use crate::primitives::{Address, Bytes, B256, U256};
use crate::text::{bytes_to_hex, hex_text, hex_u64_of, parse_hex_u64};

verus! {

/// Where a call goes.
#[derive(Clone, Copy, Debug)]
pub enum TxKind {
    /// The call creates a contract.
    Create,
    /// The call goes to the account.
    Call(Address),
}

/// One call of an account-abstraction transaction.
#[derive(Debug)]
pub struct Call {
    pub to: TxKind,
    pub value: U256,
    pub input: Bytes,
}

/// One call of an account-abstraction transaction as it is written to the block file.
#[derive(Debug)]
pub struct TempoCall {
    /// The account called; none for a creation.
    pub to: Option<Address>,
    pub value: U256,
    pub input: Bytes,
}

/// The value, or the zero address.
pub open spec fn or_zero(address: Option<Address>) -> Address {
    match address {
        Some(address) => address,
        None => Address::spec_zero(),
    }
}

/// The target of a transaction: its recipient, else the contract that it created, else zero.
pub fn debank_transaction_target(
    recipient: Option<Address>,
    contract_address: Option<Address>,
) -> (r: Address)
    ensures
        r == match recipient {
            Some(to) => to,
            None => or_zero(contract_address),
        },
{
    match recipient {
        Some(to) => to,
        None => match contract_address {
            Some(created) => created,
            None => Address::zero(),
        },
    }
}

/// Whether `out` is the blockfile form of `call`.
pub open spec fn is_blockfile_call(call: Call, out: TempoCall) -> bool {
    &&& out.to == match call.to {
        TxKind::Create => None,
        TxKind::Call(to) => Some(to),
    }
    &&& out.value == call.value
    &&& out.input@ == call.input@
}

/// Whether `out` are the blockfile forms of `calls`, one each and in order.
pub open spec fn are_blockfile_calls(calls: Seq<Call>, out: Seq<TempoCall>) -> bool {
    &&& out.len() == calls.len()
    &&& forall|i: int|
        0 <= i < calls.len() ==> is_blockfile_call(#[trigger] calls[i], #[trigger] out[i])
}

/// The target of an account-abstraction transaction: what its first call created, if that call is
/// a creation; else zero.
pub open spec fn aa_target(calls: Seq<Call>, contract_address: Option<Address>) -> Address {
    if calls.len() > 0 && calls[0].to is Create {
        or_zero(contract_address)
    } else {
        Address::spec_zero()
    }
}

/// Converts account-abstraction calls to their blockfile form and picks the transaction target.
///
/// A CREATE call keeps no recipient. Only the first call can be a CREATE, so the target is the
/// created contract when that call deployed one; otherwise it stays zero and the real targets are
/// in the calls.
pub fn debank_aa_calls_and_target(calls: &[Call], contract_address: Option<Address>) -> (r: (
    Vec<TempoCall>,
    Address,
))
    ensures
        are_blockfile_calls(calls@, r.0@),
        r.1 == aa_target(calls@, contract_address),
{
    let first_creates = calls.len() > 0 && match calls[0].to {
        TxKind::Create => true,
        TxKind::Call(_) => false,
    };
    let target = if first_creates {
        match contract_address {
            Some(created) => created,
            None => Address::zero(),
        }
    } else {
        Address::zero()
    };
    let mut out: Vec<TempoCall> = Vec::new();
    let mut i: usize = 0;
    while i < calls.len()
        invariant
            i <= calls.len(),
            out.len() == i,
            forall|k: int|
                0 <= k < i ==> is_blockfile_call(#[trigger] calls@[k], #[trigger] out@[k]),
        decreases calls.len() - i,
    {
        let to: Option<Address> = match calls[i].to {
            TxKind::Create => None,
            TxKind::Call(to) => Some(to),
        };
        let input = calls[i].input.clone();
        assert(input@ =~= calls@[i as int].input@);
        out.push(TempoCall { to, value: calls[i].value, input });
        i += 1;
    }
    (out, target)
}

/// The fields that only an account-abstraction transaction has.
#[derive(Debug)]
pub struct AaFields {
    pub chain_id: Option<u64>,
    pub fee_token: Option<Address>,
    pub nonce_key: Option<U256>,
    pub valid_before: Option<u64>,
    pub valid_after: Option<u64>,
    pub signature_type: Option<String>,
    pub signature: Option<Json>,
    pub fee_payer_signature: Option<Json>,
    pub key_authorization: Option<Json>,
    pub aa_authorization_list: Option<Vec<Json>>,
    pub access_list: Option<Vec<Json>>,
}

/// The number in a text field that is written in base 16.
pub open spec fn hex_field(json: Json, name: Seq<char>) -> Option<u64> {
    match json.text_field(name) {
        Some(s) => hex_u64_of(s),
        None => None,
    }
}

/// The type of the signature. A keychain signature holds the signature proper in a field of its
/// own; where that one has no type, or there is none, the type stands in the signature itself.
pub open spec fn signature_type_of(json: Json) -> Option<Seq<char>> {
    match json.field("signature"@) {
        Some(sig) => {
            let inner_type = match sig.field("signature"@) {
                Some(inner) => inner.field("type"@),
                None => None,
            };
            let chosen = match inner_type {
                Some(value) => Some(value),
                None => sig.field("type"@),
            };
            match chosen {
                Some(value) => value.text(),
                None => None,
            }
        },
        None => None,
    }
}

/// Whether a text is what `expected` says.
pub open spec fn is_text(text: Option<String>, expected: Option<Seq<char>>) -> bool {
    match text {
        Some(s) => expected == Some(s@),
        None => expected is None,
    }
}

/// Whether `r` holds the fields of the transaction that `json` describes, given its fee token and
/// nonce key.
pub open spec fn are_aa_fields(
    json: Json,
    fee_token: Option<Address>,
    nonce_key: Option<U256>,
    r: AaFields,
) -> bool {
    &&& r.chain_id == hex_field(json, "chainId"@)
    &&& r.fee_token == fee_token
    &&& r.nonce_key == nonce_key
    &&& r.valid_before == hex_field(json, "validBefore"@)
    &&& r.valid_after == hex_field(json, "validAfter"@)
    &&& is_text(r.signature_type, signature_type_of(json))
    &&& r.signature == json.field("signature"@)
    &&& r.fee_payer_signature == non_null(json.field("feePayerSignature"@))
    &&& r.key_authorization == non_null(json.field("keyAuthorization"@))
    &&& r.aa_authorization_list == non_empty_list(json.field("aaAuthorizationList"@))
    &&& r.access_list == non_empty_list(json.field("accessList"@))
}

/// Whether `fee_token` is the account in the field `feeToken`.
pub open spec fn is_fee_token(json: Json, fee_token: Option<Address>) -> bool {
    let expected = match json.text_field("feeToken"@) {
        Some(s) => account_of_text(s),
        None => None,
    };
    match fee_token {
        Some(address) => expected == Some(address@),
        None => expected is None,
    }
}

/// Whether `nonce_key` is the number in the field `nonceKey`.
pub open spec fn is_nonce_key(json: Json, nonce_key: Option<U256>) -> bool {
    let expected = match json.text_field("nonceKey"@) {
        Some(s) => u256_of_text(s),
        None => None,
    };
    match nonce_key {
        Some(n) => expected == Some(big_endian(n@)),
        None => expected is None,
    }
}

fn hex_field_of(json: &Json, name: &str) -> (r: Option<u64>)
    ensures
        r == hex_field(*json, name@),
{
    match json.get_str(name) {
        Some(s) => parse_hex_u64(s),
        None => None,
    }
}

fn read_signature_type(json: &Json) -> (r: Option<String>)
    ensures
        is_text(r, signature_type_of(*json)),
{
    let sig = match json.get("signature") {
        Some(sig) => sig,
        None => {
            return None;
        },
    };
    let inner_type = match sig.get("signature") {
        Some(inner) => inner.get("type"),
        None => None,
    };
    let chosen = match inner_type {
        Some(value) => Some(value),
        None => sig.get("type"),
    };
    match chosen {
        Some(value) => match value.as_str() {
            Some(s) => Some(s.to_owned()),
            None => None,
        },
        None => None,
    }
}

/// Collects the fields of an account-abstraction transaction from the JSON form of the transaction,
/// given its fee token and nonce key.
pub fn collect_aa_fields(json: Json, fee_token: Option<Address>, nonce_key: Option<U256>) -> (r:
    AaFields)
    ensures
        are_aa_fields(json, fee_token, nonce_key, r),
{
    let chain_id = hex_field_of(&json, "chainId");
    let valid_before = hex_field_of(&json, "validBefore");
    let valid_after = hex_field_of(&json, "validAfter");
    let signature_type = read_signature_type(&json);
    let mut signature: Option<Json> = None;
    let mut fee_payer_signature: Option<Json> = None;
    let mut key_authorization: Option<Json> = None;
    let mut aa_authorization_list: Option<Json> = None;
    let mut access_list: Option<Json> = None;
    let ghost whole = json;
    if let Json::Object(entries) = json {
        let mut entries = entries;
        let ghost all = entries@;
        let signature_name = "signature".to_owned();
        let fee_payer_name = "feePayerSignature".to_owned();
        let key_authorization_name = "keyAuthorization".to_owned();
        let authorization_list_name = "aaAuthorizationList".to_owned();
        let access_list_name = "accessList".to_owned();
        proof {
            reveal_strlit("signature");
            reveal_strlit("feePayerSignature");
            reveal_strlit("keyAuthorization");
            reveal_strlit("aaAuthorizationList");
            reveal_strlit("accessList");
        }
        assert(all.take(all.len() as int) =~= all);
        // Entries leave from the back, so that the first of a name is the one that stays.
        while entries.len() > 0
            invariant
                whole matches Json::Object(given) && given@ == all,
                entries.len() <= all.len(),
                entries@ == all.take(entries.len() as int),
                signature_name@ == "signature"@,
                fee_payer_name@ == "feePayerSignature"@,
                key_authorization_name@ == "keyAuthorization"@,
                authorization_list_name@ == "aaAuthorizationList"@,
                access_list_name@ == "accessList"@,
                "signature"@.len() == 9,
                "feePayerSignature"@.len() == 17,
                "keyAuthorization"@.len() == 16,
                "aaAuthorizationList"@.len() == 19,
                "accessList"@.len() == 10,
                signature == entry_from(all, "signature"@, entries.len() as int),
                fee_payer_signature == entry_from(
                    all,
                    "feePayerSignature"@,
                    entries.len() as int,
                ),
                key_authorization == entry_from(all, "keyAuthorization"@, entries.len() as int),
                aa_authorization_list == entry_from(
                    all,
                    "aaAuthorizationList"@,
                    entries.len() as int,
                ),
                access_list == entry_from(all, "accessList"@, entries.len() as int),
            decreases entries.len(),
        {
            let ghost last = entries.len() - 1;
            let popped = entries.pop();
            assert(popped == Some(all[last]));
            assert(entries@ =~= all.take(last));
            if let Some((name, value)) = popped {
                if name == signature_name {
                    signature = Some(value);
                } else if name == fee_payer_name {
                    fee_payer_signature = Some(value);
                } else if name == key_authorization_name {
                    key_authorization = Some(value);
                } else if name == authorization_list_name {
                    aa_authorization_list = Some(value);
                } else if name == access_list_name {
                    access_list = Some(value);
                }
            }
        }
    }
    AaFields {
        chain_id,
        fee_token,
        nonce_key,
        valid_before,
        valid_after,
        signature_type,
        signature,
        fee_payer_signature: drop_null(fee_payer_signature),
        key_authorization: drop_null(key_authorization),
        aa_authorization_list: take_non_empty_list(aa_authorization_list),
        access_list: take_non_empty_list(access_list),
    }
}

/// Reads the fields of an account-abstraction transaction from its JSON form.
pub fn debank_aa_fields(json: Json) -> (r: AaFields)
    ensures
        are_aa_fields(json, r.fee_token, r.nonce_key, r),
        is_fee_token(json, r.fee_token),
        is_nonce_key(json, r.nonce_key),
{
    let fee_token = match json.get_str("feeToken") {
        Some(s) => parse_address(s),
        None => None,
    };
    let nonce_key = match json.get_str("nonceKey") {
        Some(s) => parse_u256(s),
        None => None,
    };
    collect_aa_fields(json, fee_token, nonce_key)
}

/// What an account-abstraction transaction is made of.
#[derive(Debug)]
pub struct AaTransaction {
    pub calls: Vec<Call>,
    /// The JSON form of the transaction.
    pub json: Json,
}

/// A transaction of a block.
#[derive(Debug)]
pub struct TransactionInfo {
    pub hash: B256,
    pub gas_limit: u64,
    pub max_fee_per_gas: u128,
    pub max_priority_fee_per_gas: Option<u128>,
    pub input: Bytes,
    pub nonce: u64,
    pub value: U256,
    /// Set for an account-abstraction transaction.
    pub aa: Option<AaTransaction>,
}

/// The receipt of a transaction.
#[derive(Debug)]
pub struct ReceiptInfo {
    pub transaction_hash: B256,
    pub transaction_index: Option<u64>,
    pub from: Address,
    pub to: Option<Address>,
    pub contract_address: Option<Address>,
    pub effective_gas_price: u128,
    pub gas_used: u64,
    pub status: bool,
}

/// One transaction as it is written to the block file.
#[derive(Debug)]
pub struct DebankTransaction {
    pub id: String,
    pub from: Address,
    pub to: Address,
    pub gas_limit: u64,
    pub gas_price: u128,
    pub gas_used: u64,
    pub status: bool,
    pub gas_fee_cap: u128,
    pub gas_tip_cap: u128,
    pub input: Bytes,
    pub nonce: u64,
    pub transaction_index: u64,
    pub value: U256,
    pub chain_id: Option<u64>,
    pub calls: Option<Vec<TempoCall>>,
    pub fee_token: Option<Address>,
    pub nonce_key: Option<U256>,
    pub valid_before: Option<u64>,
    pub valid_after: Option<u64>,
    pub signature_type: Option<String>,
    pub signature: Option<Json>,
    pub fee_payer_signature: Option<Json>,
    pub key_authorization: Option<Json>,
    pub aa_authorization_list: Option<Vec<Json>>,
    pub access_list: Option<Vec<Json>>,
}

impl DebankTransaction {
    /// The fields that only an account-abstraction transaction has.
    pub open spec fn aa_fields(self) -> AaFields {
        AaFields {
            chain_id: self.chain_id,
            fee_token: self.fee_token,
            nonce_key: self.nonce_key,
            valid_before: self.valid_before,
            valid_after: self.valid_after,
            signature_type: self.signature_type,
            signature: self.signature,
            fee_payer_signature: self.fee_payer_signature,
            key_authorization: self.key_authorization,
            aa_authorization_list: self.aa_authorization_list,
            access_list: self.access_list,
        }
    }
}

/// The fields of a transaction that is no account-abstraction transaction: none.
pub open spec fn no_aa_fields() -> AaFields {
    AaFields {
        chain_id: None,
        fee_token: None,
        nonce_key: None,
        valid_before: None,
        valid_after: None,
        signature_type: None,
        signature: None,
        fee_payer_signature: None,
        key_authorization: None,
        aa_authorization_list: None,
        access_list: None,
    }
}

/// Whether `r` is the blockfile form of the transaction `tx` with the receipt `receipt`.
///
/// An account-abstraction transaction has no recipient, input and value of its own: what it does
/// is in its calls.
pub open spec fn is_debank_transaction(
    tx: TransactionInfo,
    receipt: ReceiptInfo,
    r: DebankTransaction,
) -> bool {
    &&& r.id@ == hex_text(receipt.transaction_hash@)
    &&& r.from == receipt.from
    &&& r.gas_limit == tx.gas_limit
    &&& r.gas_price == receipt.effective_gas_price
    &&& r.gas_used == receipt.gas_used
    &&& r.status == receipt.status
    &&& r.gas_fee_cap == tx.max_fee_per_gas
    &&& r.gas_tip_cap == match tx.max_priority_fee_per_gas {
        Some(tip) => tip,
        None => 0,
    }
    &&& r.nonce == tx.nonce
    &&& r.transaction_index == match receipt.transaction_index {
        Some(index) => index,
        None => 0,
    }
    &&& match tx.aa {
        None => {
            &&& r.to == match receipt.to {
                Some(to) => to,
                None => or_zero(receipt.contract_address),
            }
            &&& r.input == tx.input
            &&& r.value == tx.value
            &&& r.calls is None
            &&& r.aa_fields() == no_aa_fields()
        },
        Some(aa) => {
            &&& r.to == aa_target(aa.calls@, receipt.contract_address)
            &&& r.input@.len() == 0
            &&& r.value == U256::spec_zero()
            &&& r.calls is Some
            &&& are_blockfile_calls(aa.calls@, r.calls->0@)
            &&& are_aa_fields(aa.json, r.fee_token, r.nonce_key, r.aa_fields())
            &&& is_fee_token(aa.json, r.fee_token)
            &&& is_nonce_key(aa.json, r.nonce_key)
        },
    }
}

/// Makes the blockfile form of a transaction from the transaction and its receipt.
pub fn debank_transaction(tx: TransactionInfo, receipt: &ReceiptInfo) -> (r: DebankTransaction)
    ensures
        is_debank_transaction(tx, *receipt, r),
{
    let gas_tip_cap: u128 = match tx.max_priority_fee_per_gas {
        Some(tip) => tip,
        None => 0,
    };
    let transaction_index: u64 = match receipt.transaction_index {
        Some(index) => index,
        None => 0,
    };
    let id = bytes_to_hex(receipt.transaction_hash.0.as_slice());
    match tx.aa {
        None => DebankTransaction {
            id,
            from: receipt.from,
            to: debank_transaction_target(receipt.to, receipt.contract_address),
            gas_limit: tx.gas_limit,
            gas_price: receipt.effective_gas_price,
            gas_used: receipt.gas_used,
            status: receipt.status,
            gas_fee_cap: tx.max_fee_per_gas,
            gas_tip_cap,
            input: tx.input,
            nonce: tx.nonce,
            transaction_index,
            value: tx.value,
            chain_id: None,
            calls: None,
            fee_token: None,
            nonce_key: None,
            valid_before: None,
            valid_after: None,
            signature_type: None,
            signature: None,
            fee_payer_signature: None,
            key_authorization: None,
            aa_authorization_list: None,
            access_list: None,
        },
        Some(aa) => {
            let (calls, target) = debank_aa_calls_and_target(
                aa.calls.as_slice(),
                receipt.contract_address,
            );
            let fields = debank_aa_fields(aa.json);
            DebankTransaction {
                id,
                from: receipt.from,
                to: target,
                gas_limit: tx.gas_limit,
                gas_price: receipt.effective_gas_price,
                gas_used: receipt.gas_used,
                status: receipt.status,
                gas_fee_cap: tx.max_fee_per_gas,
                gas_tip_cap,
                input: Vec::new(),
                nonce: tx.nonce,
                transaction_index,
                value: U256::zero(),
                chain_id: fields.chain_id,
                calls: Some(calls),
                fee_token: fields.fee_token,
                nonce_key: fields.nonce_key,
                valid_before: fields.valid_before,
                valid_after: fields.valid_after,
                signature_type: fields.signature_type,
                signature: fields.signature,
                fee_payer_signature: fields.fee_payer_signature,
                key_authorization: fields.key_authorization,
                aa_authorization_list: fields.aa_authorization_list,
                access_list: fields.access_list,
            }
        },
    }
}

} // verus!
