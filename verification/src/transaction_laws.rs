//! What is written of a transaction, said of the transaction and its receipt.
use vstd::prelude::*;

use crate::outside::{account_of_text, big_endian, u256_of_text};
use crate::primitives::{Address, U256};
use crate::text::{hex_text, hex_u64_of};
use crate::transaction::{
    aa_target, are_blockfile_calls, is_blockfile_call, is_debank_transaction, no_aa_fields,
    or_zero, Call, DebankTransaction, ReceiptInfo, TempoCall, TransactionInfo, TxKind,
};

verus! {

/// Whether the bytes are all zero.
pub open spec fn is_zero_bytes(bytes: Seq<u8>) -> bool {
    forall|i: int| 0 <= i < bytes.len() ==> #[trigger] bytes[i] == 0
}

proof fn lemma_zero()
    ensures
        is_zero_bytes(Address::spec_zero()@),
        is_zero_bytes(U256::spec_zero()@),
{
    let address = Address::spec_zero();
    let integer = U256::spec_zero();
    assert forall|i: int| 0 <= i < address@.len() implies #[trigger] address@[i] == 0 by {}
    assert forall|i: int| 0 <= i < integer@.len() implies #[trigger] integer@[i] == 0 by {}
}

/// Whatever the kind of the transaction, what it paid and how it ended come from its receipt, and
/// what it offered from the transaction itself.
pub proof fn fees_and_outcome_come_from_the_receipt(
    tx: TransactionInfo,
    receipt: ReceiptInfo,
    r: DebankTransaction,
)
    requires
        is_debank_transaction(tx, receipt, r),
    ensures
        r.id@ == hex_text(receipt.transaction_hash@),
        r.from == receipt.from,
        r.gas_price == receipt.effective_gas_price,
        r.gas_used == receipt.gas_used,
        r.status == receipt.status,
        receipt.transaction_index is Some ==> r.transaction_index == receipt.transaction_index->0,
        receipt.transaction_index is None ==> r.transaction_index == 0,
        r.gas_limit == tx.gas_limit,
        r.gas_fee_cap == tx.max_fee_per_gas,
        tx.max_priority_fee_per_gas is Some ==> r.gas_tip_cap == tx.max_priority_fee_per_gas->0,
        tx.max_priority_fee_per_gas is None ==> r.gas_tip_cap == 0,
        r.nonce == tx.nonce,
{
}

/// The target of a transaction is its recipient, else the contract that it created, else zero.
proof fn lemma_or_zero(address: Option<Address>)
    ensures
        address is Some ==> or_zero(address) == address->0,
        address is None ==> is_zero_bytes(or_zero(address)@),
{
    lemma_zero();
}

/// A plain transaction goes to its recipient, else to the contract that it created, else to zero.
/// It keeps its input and value and has none of the fields of an account-abstraction transaction.
pub proof fn a_plain_transaction_keeps_its_data(
    tx: TransactionInfo,
    receipt: ReceiptInfo,
    r: DebankTransaction,
)
    requires
        is_debank_transaction(tx, receipt, r),
        tx.aa is None,
    ensures
        receipt.to is Some ==> r.to == receipt.to->0,
        receipt.to is None && receipt.contract_address is Some ==> r.to
            == receipt.contract_address->0,
        receipt.to is None && receipt.contract_address is None ==> is_zero_bytes(r.to@),
        r.input@ == tx.input@,
        r.value == tx.value,
        r.calls is None,
        r.chain_id is None,
        r.fee_token is None,
        r.nonce_key is None,
        r.valid_before is None,
        r.valid_after is None,
        r.signature_type is None,
        r.signature is None,
        r.fee_payer_signature is None,
        r.key_authorization is None,
        r.aa_authorization_list is None,
        r.access_list is None,
{
    lemma_or_zero(receipt.contract_address);
    let fields = r.aa_fields();
    assert(fields == no_aa_fields());
    assert(fields.chain_id is None && fields.fee_token is None && fields.nonce_key is None);
    assert(fields.valid_before is None && fields.valid_after is None);
    assert(fields.signature_type is None && fields.signature is None);
    assert(fields.fee_payer_signature is None && fields.key_authorization is None);
    assert(fields.aa_authorization_list is None && fields.access_list is None);
}

/// The calls of an account-abstraction transaction are all written, in order, each with its value
/// and input; a creation has no recipient. The target is what the transaction created if its first
/// call is a creation; in every other case it is zero.
pub proof fn calls_are_written_one_by_one(
    calls: Seq<Call>,
    contract_address: Option<Address>,
    out: Seq<TempoCall>,
)
    requires
        are_blockfile_calls(calls, out),
    ensures
        out.len() == calls.len(),
        forall|i: int|
            #![trigger out[i]]
            0 <= i < calls.len() ==> {
                &&& calls[i].to is Create ==> out[i].to is None
                &&& calls[i].to matches TxKind::Call(to) ==> out[i].to == Some(to)
                &&& out[i].value == calls[i].value
                &&& out[i].input@ == calls[i].input@
            },
        calls.len() > 0 && calls[0].to is Create && contract_address is Some ==> aa_target(
            calls,
            contract_address,
        ) == contract_address->0,
        calls.len() == 0 || calls[0].to is Call || contract_address is None ==> is_zero_bytes(
            aa_target(calls, contract_address)@,
        ),
{
    lemma_zero();
    assert forall|i: int|
        #![trigger out[i]]
        0 <= i < calls.len() implies {
        &&& calls[i].to is Create ==> out[i].to is None
        &&& calls[i].to matches TxKind::Call(to) ==> out[i].to == Some(to)
        &&& out[i].value == calls[i].value
        &&& out[i].input@ == calls[i].input@
    } by {
        assert(is_blockfile_call(calls[i], out[i]));
    }
}

/// An account-abstraction transaction has neither input nor value of its own: what it does is in
/// its calls.
pub proof fn an_aa_transaction_has_its_data_in_its_calls(
    tx: TransactionInfo,
    receipt: ReceiptInfo,
    r: DebankTransaction,
)
    requires
        is_debank_transaction(tx, receipt, r),
        tx.aa is Some,
    ensures
        r.input@.len() == 0,
        is_zero_bytes(r.value@),
        r.calls is Some,
        ({
            let calls = tx.aa->0.calls@;
            let out = r.calls->0@;
            let first_creates = calls.len() > 0 && calls[0].to is Create;
            &&& first_creates && receipt.contract_address is Some ==> r.to
                == receipt.contract_address->0
            &&& !first_creates || receipt.contract_address is None ==> is_zero_bytes(r.to@)
            &&& out.len() == calls.len()
            &&& forall|i: int|
                #![trigger out[i]]
                0 <= i < calls.len() ==> {
                    &&& calls[i].to is Create ==> out[i].to is None
                    &&& calls[i].to matches TxKind::Call(to) ==> out[i].to == Some(to)
                    &&& out[i].value == calls[i].value
                    &&& out[i].input@ == calls[i].input@
                }
        }),
{
    lemma_zero();
    calls_are_written_one_by_one(tx.aa->0.calls@, receipt.contract_address, r.calls->0@);
}

/// Each field of an account-abstraction transaction comes from the entry of its name in the JSON
/// form: the numbers and the fee token from texts, the signature as it is, keychain authorization
/// and fee payer signature unless null, the lists unless empty. The signature type is that of the
/// signature inside a keychain signature, where that one has a type, else that of the signature.
pub proof fn aa_fields_come_from_the_entries_of_their_names(
    tx: TransactionInfo,
    receipt: ReceiptInfo,
    r: DebankTransaction,
)
    requires
        is_debank_transaction(tx, receipt, r),
        tx.aa is Some,
    ensures
        ({
            let json = tx.aa->0.json;
            let chain_id = json.text_field("chainId"@);
            let valid_before = json.text_field("validBefore"@);
            let valid_after = json.text_field("validAfter"@);
            let fee_token = json.text_field("feeToken"@);
            let nonce_key = json.text_field("nonceKey"@);
            let signature = json.field("signature"@);
            let inner = signature->0.field("signature"@);
            let inner_type = inner->0.field("type"@);
            let outer_type = signature->0.field("type"@);
            let payer = json.field("feePayerSignature"@);
            let key = json.field("keyAuthorization"@);
            let has_inner_type = signature is Some && inner is Some && inner_type is Some;
            &&& chain_id is None ==> r.chain_id is None
            &&& chain_id is Some ==> r.chain_id == hex_u64_of(chain_id->0)
            &&& valid_before is None ==> r.valid_before is None
            &&& valid_before is Some ==> r.valid_before == hex_u64_of(valid_before->0)
            &&& valid_after is None ==> r.valid_after is None
            &&& valid_after is Some ==> r.valid_after == hex_u64_of(valid_after->0)
            &&& r.fee_token is Some ==> fee_token is Some && account_of_text(fee_token->0) == Some(
                r.fee_token->0@,
            )
            &&& fee_token is Some && account_of_text(fee_token->0) is Some ==> r.fee_token is Some
            &&& r.nonce_key is Some ==> nonce_key is Some && u256_of_text(nonce_key->0) == Some(
                big_endian(r.nonce_key->0@),
            )
            &&& nonce_key is Some && u256_of_text(nonce_key->0) is Some ==> r.nonce_key is Some
            &&& r.signature == signature
            &&& has_inner_type ==> (match r.signature_type {
                Some(text) => inner_type->0.text() == Some(text@),
                None => inner_type->0.text() is None,
            })
            &&& signature is Some && !has_inner_type && outer_type is Some ==> (
            match r.signature_type {
                Some(text) => outer_type->0.text() == Some(text@),
                None => outer_type->0.text() is None,
            })
            &&& signature is None || (!has_inner_type && outer_type is None)
                ==> r.signature_type is None
            &&& payer is Some && payer->0 !is Null ==> r.fee_payer_signature == payer
            &&& payer is None || payer->0 is Null ==> r.fee_payer_signature is None
            &&& key is Some && key->0 !is Null ==> r.key_authorization == key
            &&& key is None || key->0 is Null ==> r.key_authorization is None
        }),
{
    let fields = r.aa_fields();
    assert(fields.chain_id == r.chain_id);
    assert(fields.valid_before == r.valid_before);
    assert(fields.valid_after == r.valid_after);
    assert(fields.signature_type == r.signature_type);
    assert(fields.signature == r.signature);
    assert(fields.fee_payer_signature == r.fee_payer_signature);
    assert(fields.key_authorization == r.key_authorization);
}

/// The lists of an account-abstraction transaction come from the entries of their names, unless
/// they are empty.
pub proof fn aa_lists_come_from_the_entries_of_their_names(
    tx: TransactionInfo,
    receipt: ReceiptInfo,
    r: DebankTransaction,
)
    requires
        is_debank_transaction(tx, receipt, r),
        tx.aa is Some,
    ensures
        ({
            let json = tx.aa->0.json;
            let authorizations = json.field("aaAuthorizationList"@);
            let access = json.field("accessList"@);
            &&& authorizations is Some && authorizations->0 is List
                && authorizations->0->List_0@.len() > 0 ==> r.aa_authorization_list == Some(
                authorizations->0->List_0,
            )
            &&& authorizations is None || authorizations->0 !is List
                || authorizations->0->List_0@.len() == 0 ==> r.aa_authorization_list is None
            &&& access is Some && access->0 is List && access->0->List_0@.len() > 0
                ==> r.access_list == Some(access->0->List_0)
            &&& access is None || access->0 !is List || access->0->List_0@.len() == 0
                ==> r.access_list is None
        }),
{
    let fields = r.aa_fields();
    assert(fields.aa_authorization_list == r.aa_authorization_list);
    assert(fields.access_list == r.access_list);
}

/// An account-abstraction transaction differs from a plain one of the same fields and receipt in
/// target, input, value, calls and the fields of its own kind only.
pub proof fn only_target_data_and_aa_fields_tell_kinds_apart(
    tx: TransactionInfo,
    plain: TransactionInfo,
    receipt: ReceiptInfo,
    r: DebankTransaction,
    r_plain: DebankTransaction,
)
    requires
        tx.aa is Some,
        plain.aa is None,
        plain.gas_limit == tx.gas_limit,
        plain.max_fee_per_gas == tx.max_fee_per_gas,
        plain.max_priority_fee_per_gas == tx.max_priority_fee_per_gas,
        plain.nonce == tx.nonce,
        is_debank_transaction(tx, receipt, r),
        is_debank_transaction(plain, receipt, r_plain),
    ensures
        r.id@ == r_plain.id@,
        r.from == r_plain.from,
        r.gas_limit == r_plain.gas_limit,
        r.gas_price == r_plain.gas_price,
        r.gas_used == r_plain.gas_used,
        r.status == r_plain.status,
        r.gas_fee_cap == r_plain.gas_fee_cap,
        r.gas_tip_cap == r_plain.gas_tip_cap,
        r.nonce == r_plain.nonce,
        r.transaction_index == r_plain.transaction_index,
{
}

} // verus!
