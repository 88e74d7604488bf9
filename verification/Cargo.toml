[package]
name = "debank_trace_block"
version = "0.1.0"
edition = "2021"
publish = false

[dependencies]
alloy-consensus = { version = "*", default-features = false, features = ["std"] }
alloy-eips = { version = "*", default-features = false, features = ["std"] }
alloy-network = "*"
alloy-primitives = { version = "*", default-features = false, features = ["std"] }
alloy-rlp = "*"
alloy-rpc-types-eth = { version = "*", default-features = false, features = ["std", "serde"] }
async-trait = "*"
jsonrpsee = { version = "*", default-features = false, features = ["server-core"] }
revm = { version = "*", default-features = false, features = ["std"] }
revm-inspectors = { version = "*", default-features = false, features = ["std"] }
serde_json = "*"
