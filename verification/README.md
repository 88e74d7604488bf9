# debank_trace_block

Builds the DeBank block file of a replayed block: its transactions, call traces, log events and the
contracts whose storage changed. The library is written in Verus, and what each function does is
stated in its contract and proved.

## The library (`src/`)

- `session` takes a block from its look-up to the finished block file, one type per step. Each step
  is handed what was looked up or executed and says what is needed next, or why tracing stops
  (`error`). `session_laws` states what holds from the first step to the last, and `repeat_laws`
  that tracing a block twice gives the same block file.
- `reconcile` assigns the logs of a replayed receipt to the calls in which the inspector saw them.
  `candidates` sorts the inspected logs, `matching` recognises them in the receipt with the help of
  `payload_index`, and `reconcile_laws` states what is kept. `reverted_laws` states that reverted
  logs take no receipt log away.
- `native` records the storage writes of native precompile frames, and `arena` aligns these records
  with the nodes of the tracing arena.
- `assemble` puts the traces and events of all transactions into the block file, by the receipt
  status of each; `assemble_laws` states what is kept.
- `transaction`, `block`, `event`, `trace`, `json`, `text` and `primitives` hold the data.
- `outside` holds the calls into other crates (hashing, trie roots, addresses of created contracts,
  reading addresses and integers), with what is relied on of each.

## Around it

`app/` serves `trace_debankBlock` over JSON-RPC on top of the library: it converts between the types
of a node and those of the library, plugs the inspectors into the EVM, and runs the steps. `tests/`
runs the library on concrete blocks, with the real outside crates.
