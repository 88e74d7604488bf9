//! The block that is traced: its header as it comes in, and as it is handed out.
use vstd::prelude::*;

use crate::primitives::{Address, Bytes, B256, U256};
use crate::transaction::TransactionInfo;

verus! {

/// A block that is named by its place in the chain.
#[derive(Clone, Copy, Debug, PartialEq, Eq, Structural)]
pub enum BlockNumberOrTag {
    Latest,
    Finalized,
    Safe,
    Earliest,
    Pending,
    Number(u64),
}

/// How a request names its block.
#[derive(Clone, Copy, Debug)]
pub enum BlockId {
    /// By its hash, and whether it has to be in the canonical chain.
    Hash { block_hash: B256, require_canonical: Option<bool> },
    /// By its place in the chain, which another block may have by the time of the next look-up.
    Number(BlockNumberOrTag),
}

/// What is known of a block before it is traced.
#[derive(Debug)]
pub struct BlockInfo {
    pub header: BlockHeaderInfo,
    pub transactions: Vec<TransactionInfo>,
}

/// The header of a block.
#[derive(Debug)]
pub struct BlockHeaderInfo {
    pub hash: B256,
    pub number: u64,
    pub parent_hash: B256,
    pub ommers_hash: B256,
    pub beneficiary: Address,
    pub state_root: B256,
    pub transactions_root: B256,
    pub receipts_root: B256,
    pub logs_bloom: Bytes,
    pub difficulty: U256,
    pub gas_limit: u64,
    pub gas_used: u64,
    pub timestamp: u64,
    pub extra_data: Bytes,
    pub mix_hash: Option<B256>,
    pub nonce: Option<[u8; 8]>,
    pub base_fee_per_gas: Option<u64>,
    pub withdrawals_root: Option<B256>,
    pub blob_gas_used: Option<u64>,
    pub excess_blob_gas: Option<u64>,
    pub parent_beacon_block_root: Option<B256>,
    pub requests_hash: Option<B256>,
    pub block_access_list_hash: Option<B256>,
    pub slot_number: Option<u64>,
}

/// The header of a block as it is handed out.
#[derive(Debug)]
pub struct RpcHeader {
    pub hash: B256,
    pub number: u64,
    pub parent_hash: B256,
    pub ommers_hash: B256,
    pub beneficiary: Address,
    pub state_root: B256,
    pub transactions_root: B256,
    pub receipts_root: B256,
    pub logs_bloom: Bytes,
    pub difficulty: U256,
    pub gas_limit: u64,
    pub gas_used: u64,
    pub timestamp: u64,
    pub extra_data: Bytes,
    pub mix_hash: B256,
    pub nonce: [u8; 8],
    pub base_fee_per_gas: Option<u64>,
    pub withdrawals_root: Option<B256>,
    pub blob_gas_used: Option<u64>,
    pub excess_blob_gas: Option<u64>,
    pub parent_beacon_block_root: Option<B256>,
    pub requests_hash: Option<B256>,
    pub block_access_list_hash: Option<B256>,
    pub slot_number: Option<u64>,
    pub total_difficulty: Option<U256>,
    pub size: Option<U256>,
}

/// The block as it is written to the block file.
#[derive(Clone, Copy, Debug)]
pub struct DebankBlock {
    pub id: B256,
    pub height: u64,
    pub parent_id: B256,
    pub base_fee_per_gas: Option<u64>,
    pub miner: Address,
    pub gas_limit: u64,
    pub gas_used: u64,
    pub timestamp: u64,
    /// When tracing started, in milliseconds since the epoch.
    pub process_start_timestamp: u128,
}

/// The blockfile form of a block.
pub open spec fn debank_block_of(header: BlockHeaderInfo, now_millis: u128) -> DebankBlock {
    DebankBlock {
        id: header.hash,
        height: header.number,
        parent_id: header.parent_hash,
        base_fee_per_gas: header.base_fee_per_gas,
        miner: header.beneficiary,
        gas_limit: header.gas_limit,
        gas_used: header.gas_used,
        timestamp: header.timestamp,
        process_start_timestamp: now_millis,
    }
}

/// Whether `r` is the header as it is handed out: a missing mix hash or nonce is zero, and total
/// difficulty and size are left out.
pub open spec fn is_rpc_header(header: BlockHeaderInfo, r: RpcHeader) -> bool {
    &&& r.hash == header.hash
    &&& r.number == header.number
    &&& r.parent_hash == header.parent_hash
    &&& r.ommers_hash == header.ommers_hash
    &&& r.beneficiary == header.beneficiary
    &&& r.state_root == header.state_root
    &&& r.transactions_root == header.transactions_root
    &&& r.receipts_root == header.receipts_root
    &&& r.logs_bloom == header.logs_bloom
    &&& r.difficulty == header.difficulty
    &&& r.gas_limit == header.gas_limit
    &&& r.gas_used == header.gas_used
    &&& r.timestamp == header.timestamp
    &&& r.extra_data == header.extra_data
    &&& r.mix_hash == match header.mix_hash {
        Some(mix_hash) => mix_hash,
        None => B256::spec_zero(),
    }
    &&& match header.nonce {
        Some(nonce) => r.nonce == nonce,
        None => r.nonce@ == Seq::new(8, |i: int| 0u8),
    }
    &&& r.base_fee_per_gas == header.base_fee_per_gas
    &&& r.withdrawals_root == header.withdrawals_root
    &&& r.blob_gas_used == header.blob_gas_used
    &&& r.excess_blob_gas == header.excess_blob_gas
    &&& r.parent_beacon_block_root == header.parent_beacon_block_root
    &&& r.requests_hash == header.requests_hash
    &&& r.block_access_list_hash == header.block_access_list_hash
    &&& r.slot_number == header.slot_number
    &&& r.total_difficulty is None
    &&& r.size is None
}

/// Makes the blockfile form of a block. `now_millis` is the current time.
pub fn debank_block(header: &BlockHeaderInfo, now_millis: u128) -> (r: DebankBlock)
    ensures
        r == debank_block_of(*header, now_millis),
{
    DebankBlock {
        id: header.hash,
        height: header.number,
        parent_id: header.parent_hash,
        base_fee_per_gas: header.base_fee_per_gas,
        miner: header.beneficiary,
        gas_limit: header.gas_limit,
        gas_used: header.gas_used,
        timestamp: header.timestamp,
        process_start_timestamp: now_millis,
    }
}

/// Makes the header that is handed out.
pub fn debank_header(header: BlockHeaderInfo) -> (r: RpcHeader)
    ensures
        is_rpc_header(header, r),
{
    let mix_hash = match header.mix_hash {
        Some(mix_hash) => mix_hash,
        None => B256::zero(),
    };
    let nonce: [u8; 8] = match header.nonce {
        Some(nonce) => nonce,
        None => [0u8; 8],
    };
    assert(header.nonce is None ==> nonce@ =~= Seq::new(8, |i: int| 0u8));
    RpcHeader {
        hash: header.hash,
        number: header.number,
        parent_hash: header.parent_hash,
        ommers_hash: header.ommers_hash,
        beneficiary: header.beneficiary,
        state_root: header.state_root,
        transactions_root: header.transactions_root,
        receipts_root: header.receipts_root,
        logs_bloom: header.logs_bloom,
        difficulty: header.difficulty,
        gas_limit: header.gas_limit,
        gas_used: header.gas_used,
        timestamp: header.timestamp,
        extra_data: header.extra_data,
        mix_hash,
        nonce,
        base_fee_per_gas: header.base_fee_per_gas,
        withdrawals_root: header.withdrawals_root,
        blob_gas_used: header.blob_gas_used,
        excess_blob_gas: header.excess_blob_gas,
        parent_beacon_block_root: header.parent_beacon_block_root,
        requests_hash: header.requests_hash,
        block_access_list_hash: header.block_access_list_hash,
        slot_number: header.slot_number,
        total_difficulty: None,
        size: None,
    }
}

} // verus!
