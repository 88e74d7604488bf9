//! Calls into other crates, with what is relied on of each.
use vstd::prelude::*;

use crate::native::{CreateInputs, CreateScheme};
use crate::primitives::{byte_strings, Address, Bytes, B256, U256};
use crate::text::{digit_value, number_of};

verus! {

/// The Keccak-256 hash of `bytes`.
pub uninterp spec fn keccak256_of(bytes: Seq<u8>) -> Seq<u8>;

/// `alloy_primitives::keccak256`: the Keccak-256 hash, a function of the bytes alone.
#[verifier::external_body]
pub(crate) fn keccak256(bytes: &[u8]) -> (r: B256)
    ensures
        r@ == keccak256_of(bytes@),
{
    B256(alloy_primitives::keccak256(bytes).0)
}

/// The root hash of the trie that maps each index to the item at that index.
pub uninterp spec fn ordered_trie_root_of(items: Seq<Seq<u8>>) -> Seq<u8>;

/// `alloy_consensus::proofs::ordered_trie_root_encoded`: the root hash of the trie of the items by
/// their indices, a function of the items alone. `calculate_receipt_root` of the same module is
/// this root of the encoded receipts.
#[verifier::external_body]
pub(crate) fn ordered_trie_root(items: &Vec<Bytes>) -> (r: B256)
    ensures
        r@ == ordered_trie_root_of(byte_strings(items@)),
{
    B256(alloy_consensus::proofs::ordered_trie_root_encoded(items.as_slice()).0)
}

/// The big-endian bytes of `n` without leading zeros.
pub open spec fn significant_bytes(n: nat) -> Seq<u8>
    decreases n,
{
    if n == 0 {
        Seq::empty()
    } else {
        significant_bytes(n / 256).push((n % 256) as u8)
    }
}

/// The RLP encoding of an integer.
pub open spec fn rlp_integer(n: u64) -> Seq<u8> {
    if 0 < n < 0x80 {
        seq![n as u8]
    } else {
        let bytes = significant_bytes(n as nat);
        seq![(0x80 + bytes.len()) as u8] + bytes
    }
}

/// The RLP encoding of the list of an account and an integer.
pub open spec fn rlp_account_and_integer(account: Seq<u8>, n: u64) -> Seq<u8> {
    let items = seq![0x94u8] + account + rlp_integer(n);
    seq![(0xc0 + items.len()) as u8] + items
}

impl CreateInputs {
    /// The address of the contract that the creation makes: the last 20 bytes of a hash that
    /// depends on the scheme, or the address that was given.
    pub open spec fn created(self, nonce: u64) -> Seq<u8> {
        match self.scheme {
            CreateScheme::Create => keccak256_of(
                rlp_account_and_integer(self.caller@, nonce),
            ).subrange(12, 32),
            CreateScheme::Create2 { salt } => keccak256_of(
                seq![0xffu8] + self.caller@ + salt@ + keccak256_of(self.init_code@),
            ).subrange(12, 32),
            CreateScheme::Custom { address } => address@,
        }
    }
}

/// `revm::interpreter::CreateInputs::created_address`, on inputs that have not been asked before:
/// for CREATE the hash of the RLP list of caller and nonce, for CREATE2 the hash of `0xff`, caller,
/// salt and hash of the init code, each cut to its last 20 bytes; else the address given. Value
/// and gas play no part.
#[verifier::external_body]
pub(crate) fn created_address(inputs: &CreateInputs, nonce: u64) -> (r: Address)
    ensures
        r@ == inputs.created(nonce),
{
    let scheme = match inputs.scheme {
        CreateScheme::Create => revm::context_interface::CreateScheme::Create,
        CreateScheme::Create2 { salt } => revm::context_interface::CreateScheme::Create2 {
            salt: alloy_primitives::U256::from_be_bytes(salt.0),
        },
        CreateScheme::Custom { address } => revm::context_interface::CreateScheme::Custom {
            address: address.0.into(),
        },
    };
    let (caller, code) = (inputs.caller.0.into(), inputs.init_code.clone().into());
    let value = alloy_primitives::U256::ZERO;
    let inputs = revm::interpreter::CreateInputs::new(caller, scheme, value, code, 0, 0);
    Address(inputs.created_address(nonce).into_array())
}

/// The bytes that a text of 40 hex digits writes, with or without `0x` or `0X` before it.
pub open spec fn account_of_text(s: Seq<char>) -> Option<Seq<u8>> {
    let digits = if s.len() >= 2 && s[0] == '0' && (s[1] == 'x' || s[1] == 'X') {
        s.skip(2)
    } else {
        s
    };
    if digits.len() == 40 && number_of(digits, 16) is Some {
        Some(
            Seq::new(
                20,
                |i: int|
                    (digit_value(digits[2 * i])->0 * 16 + digit_value(digits[2 * i + 1])->0) as u8,
            ),
        )
    } else {
        None
    }
}

/// `<alloy_primitives::Address as FromStr>::from_str`: reads 40 hex digits of either case, behind
/// at most one `0x` or `0X`, and fails on anything else.
#[verifier::external_body]
pub(crate) fn parse_address(s: &str) -> (r: Option<Address>)
    ensures
        match r {
            Some(address) => account_of_text(s@) == Some(address@),
            None => account_of_text(s@) is None,
        },
{
    match s.parse::<alloy_primitives::Address>() {
        Ok(address) => Some(Address(address.into_array())),
        Err(_) => None,
    }
}

/// The number that a text writes: in base 16, 8 or 2 behind `0x`, `0o` or `0b` of either case, else
/// in base 10. Underscores are ignored. None if a character is no digit of the base or the number
/// does not fit into 256 bits.
pub open spec fn u256_of_text(s: Seq<char>) -> Option<int> {
    let prefixed = s.len() >= 2 && s[0] == '0';
    let (digits, radix) = if prefixed && (s[1] == 'x' || s[1] == 'X') {
        (s.skip(2), 16int)
    } else if prefixed && (s[1] == 'o' || s[1] == 'O') {
        (s.skip(2), 8int)
    } else if prefixed && (s[1] == 'b' || s[1] == 'B') {
        (s.skip(2), 2int)
    } else {
        (s, 10int)
    };
    match number_of(digits.filter(|c: char| c != '_'), radix) {
        Some(n) => if n < vstd::arithmetic::power2::pow2(256) {
            Some(n)
        } else {
            None
        },
        None => None,
    }
}

/// The integer whose big-endian bytes are `bytes`.
pub open spec fn big_endian(bytes: Seq<u8>) -> int
    decreases bytes.len(),
{
    if bytes.len() == 0 {
        0
    } else {
        big_endian(bytes.drop_last()) * 256 + bytes.last()
    }
}

/// `<alloy_primitives::U256 as FromStr>::from_str`: reads digits of the base that the prefix names,
/// skipping underscores; no digits at all are zero. Fails on other characters and on overflow.
#[verifier::external_body]
pub(crate) fn parse_u256(s: &str) -> (r: Option<U256>)
    ensures
        match r {
            Some(n) => u256_of_text(s@) == Some(big_endian(n@)),
            None => u256_of_text(s@) is None,
        },
{
    match s.parse::<alloy_primitives::U256>() {
        Ok(n) => Some(U256(n.to_be_bytes())),
        Err(_) => None,
    }
}

} // verus!
