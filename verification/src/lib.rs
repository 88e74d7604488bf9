//! Building DeBank block files: reconciling the traces, events and storage writes of a replayed
//! block with its receipts.
pub mod arena;
pub mod assemble;
pub mod assemble_laws;
pub mod block;
pub mod block_file_laws;
pub mod candidates;
pub mod error;
pub mod error_laws;
pub mod event;
pub mod event_laws;
pub mod json;
pub mod json_laws;
pub mod log_laws;
pub mod matching;
pub mod native;
pub mod native_laws;
pub mod outside;
pub mod payload_index;
pub mod primitives;
pub mod reconcile;
pub mod reconcile_laws;
pub mod record_laws;
pub mod repeat_laws;
pub mod reverted_laws;
pub mod session;
pub mod session_laws;
pub mod step_laws;
pub mod text;
pub mod text_laws;
pub mod trace;
pub mod trace_block;
pub mod transaction;
pub mod transaction_laws;
