use debank_trace_block::native::{
    CallInputs, CallScheme, CreateInputs, CreateScheme, JournalEntry,
    NativeStorageChangeInspector, NativeStorageWrites,
};
use debank_trace_block::primitives::{Address, U256};
use revm::context::{ContextTr, Journal, JournalTr};
use revm::database::{CacheDB, EmptyDB};
use revm::{Context, MainContext};

const NO_WRITES: NativeStorageWrites = NativeStorageWrites { own: false, any: false };

const OWN_WRITE: NativeStorageWrites = NativeStorageWrites { own: true, any: true };

const OTHER_WRITE: NativeStorageWrites = NativeStorageWrites { own: false, any: true };

fn repeat_byte(byte: u8) -> Address {
    Address([byte; 20])
}

fn evm_address(address: Address) -> alloy_primitives::Address {
    alloy_primitives::Address::from(address.0)
}

/// The entries of a journal of the EVM.
fn entries(journal: &Journal<CacheDB<EmptyDB>>) -> Vec<JournalEntry> {
    journal
        .journal
        .iter()
        .map(|entry| match entry {
            revm::JournalEntry::StorageChanged { address, .. } => JournalEntry::StorageChanged {
                address: Address(address.into_array()),
            },
            _ => JournalEntry::Other,
        })
        .collect()
}

#[test]
fn native_inspector_attributes_journaled_storage_to_precompile_frame() {
    let root = repeat_byte(0x11);
    let precompile = repeat_byte(0x22);
    let mut context = Context::mainnet().with_db(CacheDB::new(EmptyDB::default()));
    let mut inspector = NativeStorageChangeInspector::default();

    inspector.start_frame(root, context.journaled_state.journal.len(), 0);
    inspector.start_frame(precompile, context.journaled_state.journal.len(), 0);
    context
        .journal_mut()
        .load_account(evm_address(precompile))
        .unwrap();
    context
        .journal_mut()
        .sstore(
            evm_address(precompile),
            alloy_primitives::U256::ZERO,
            alloy_primitives::U256::from(1),
        )
        .unwrap();
    inspector.finish_frame(&entries(&context.journaled_state), &[], true);
    inspector.finish_frame(&entries(&context.journaled_state), &[], false);

    assert_eq!(
        inspector.into_changes(),
        vec![
            (root, NativeStorageWrites::default()),
            (precompile, OWN_WRITE)
        ]
    );
}

#[test]
fn native_inspector_separates_writes_to_other_accounts() {
    let precompile = repeat_byte(0x22);
    let other = repeat_byte(0x33);
    let mut context = Context::mainnet().with_db(CacheDB::new(EmptyDB::default()));
    let mut actions: Vec<Address> = Vec::new();
    let mut inspector = NativeStorageChangeInspector::new();

    // Journaled write to another account, e.g. a factory initializing a new token.
    inspector.start_frame(
        precompile,
        context.journaled_state.journal.len(),
        actions.len(),
    );
    context
        .journal_mut()
        .load_account(evm_address(other))
        .unwrap();
    context
        .journal_mut()
        .sstore(
            evm_address(other),
            alloy_primitives::U256::ZERO,
            alloy_primitives::U256::from(1),
        )
        .unwrap();
    let cursor = inspector.action_cursor().unwrap();
    inspector.finish_frame(&entries(&context.journaled_state), &actions[cursor..], true);

    // Write to another account whose journal entry is gone, as after a revert: only the storage
    // action remains.
    inspector.start_frame(
        precompile,
        context.journaled_state.journal.len(),
        actions.len(),
    );
    actions.push(other);
    let cursor = inspector.action_cursor().unwrap();
    inspector.finish_frame(&entries(&context.journaled_state), &actions[cursor..], true);

    let other_only = NativeStorageWrites {
        own: false,
        any: true,
    };
    assert_eq!(
        inspector.into_changes(),
        vec![(precompile, other_only), (precompile, other_only)]
    );
}

#[test]
fn native_inspector_retains_storage_actions_after_journal_revert() {
    let precompile = repeat_byte(0x22);
    let context = Context::mainnet().with_db(CacheDB::new(EmptyDB::default()));
    let mut actions: Vec<Address> = Vec::new();
    let mut inspector = NativeStorageChangeInspector::new();

    inspector.start_frame(
        precompile,
        context.journaled_state.journal.len(),
        actions.len(),
    );
    actions.push(precompile);
    // A failed precompile has already reverted its journal checkpoint before the call ends.
    assert!(context.journaled_state.journal.is_empty());
    let cursor = inspector.action_cursor().unwrap();
    inspector.finish_frame(&entries(&context.journaled_state), &actions[cursor..], true);

    assert_eq!(inspector.into_changes(), vec![(precompile, OWN_WRITE)]);
}

#[test]
fn records_stand_in_the_order_of_frame_starts() {
    let mut inspector = NativeStorageChangeInspector::new();
    let write = [JournalEntry::StorageChanged { address: repeat_byte(2) }];

    inspector.start_frame(repeat_byte(1), 0, 0);
    inspector.start_frame(repeat_byte(2), 0, 0);
    inspector.finish_frame(&write, &[], true);
    inspector.start_frame(repeat_byte(3), 1, 0);
    inspector.finish_frame(&write, &[], true);
    inspector.finish_frame(&write, &[], true);

    assert_eq!(
        inspector.into_changes(),
        vec![
            (repeat_byte(1), OTHER_WRITE),
            (repeat_byte(2), OWN_WRITE),
            (repeat_byte(3), NO_WRITES),
        ]
    );
}

#[test]
fn finished_frame_leaves_the_records_of_others_alone() {
    let mut inspector = NativeStorageChangeInspector::new();

    inspector.start_frame(repeat_byte(1), 0, 0);
    inspector.start_frame(repeat_byte(2), 0, 0);
    inspector.finish_frame(&[], &[repeat_byte(1), repeat_byte(2)], true);
    inspector.finish_frame(&[], &[repeat_byte(1)], false);

    assert_eq!(
        inspector.into_changes(),
        vec![(repeat_byte(1), NO_WRITES), (repeat_byte(2), OWN_WRITE)]
    );
}

#[test]
fn only_journal_entries_behind_the_frame_start_count() {
    let account = repeat_byte(7);
    let journal = [
        JournalEntry::StorageChanged { address: account },
        JournalEntry::Other,
    ];
    let mut inspector = NativeStorageChangeInspector::new();

    inspector.start_frame(account, 1, 0);
    inspector.finish_frame(&journal, &[], true);
    inspector.start_frame(account, 0, 0);
    inspector.finish_frame(&journal, &[], true);
    // The journal was reverted to before the frame.
    inspector.start_frame(account, 9, 0);
    inspector.finish_frame(&journal, &[], true);

    assert_eq!(
        inspector.into_changes(),
        vec![(account, NO_WRITES), (account, OWN_WRITE), (account, NO_WRITES)]
    );
}

#[test]
fn finishing_without_an_open_frame_does_nothing() {
    let mut inspector = NativeStorageChangeInspector::new();

    inspector.finish_frame(&[], &[repeat_byte(1)], true);

    assert_eq!(inspector.action_cursor(), None);
    assert_eq!(inspector.into_changes(), vec![]);
}

#[test]
fn calls_are_recorded_under_the_account_they_run_for() {
    let code = repeat_byte(0xc0);
    let target = repeat_byte(0x70);
    let mut inspector = NativeStorageChangeInspector::new();

    for scheme in [
        CallScheme::Call,
        CallScheme::CallCode,
        CallScheme::DelegateCall,
        CallScheme::StaticCall,
    ] {
        let inputs = CallInputs {
            scheme,
            bytecode_address: code,
            target_address: target,
        };
        inspector.call(&inputs, 0, 0);
    }
    for _ in 0..4 {
        inspector.call_end(&[], &[], false);
    }

    assert_eq!(
        inspector.into_changes(),
        vec![
            (target, NO_WRITES),
            (code, NO_WRITES),
            (code, NO_WRITES),
            (target, NO_WRITES),
        ]
    );
}

#[test]
fn the_outcome_of_a_call_says_whether_a_precompile_served_it() {
    let account = repeat_byte(0x22);
    let inputs = CallInputs {
        scheme: CallScheme::Call,
        bytecode_address: account,
        target_address: account,
    };
    let mut inspector = NativeStorageChangeInspector::new();

    inspector.call(&inputs, 0, 0);
    inspector.call_end(&[], &[account], true);
    inspector.call(&inputs, 0, 0);
    inspector.call_end(&[], &[account], false);

    assert_eq!(
        inspector.into_changes(),
        vec![(account, OWN_WRITE), (account, NO_WRITES)]
    );
}

fn parsed(text: &str) -> Address {
    Address(text.parse::<alloy_primitives::Address>().unwrap().into_array())
}

#[test]
fn created_contracts_are_recorded_under_their_address() {
    let mut inspector = NativeStorageChangeInspector::new();
    let given = repeat_byte(0x5a);

    let create = CreateInputs {
        caller: parsed("0xb20a608c624Ca5003905aA834De7156C68b2E1d0"),
        scheme: CreateScheme::Create,
        init_code: vec![0x60],
    };
    inspector.create(&create, Some(0), 0, 0);
    let create2 = CreateInputs {
        caller: parsed("0xdeadbeef00000000000000000000000000000000"),
        scheme: CreateScheme::Create2 { salt: U256([0; 32]) },
        init_code: vec![0x00],
    };
    inspector.create(&create2, Some(5), 0, 0);
    let custom = CreateInputs {
        caller: repeat_byte(1),
        scheme: CreateScheme::Custom { address: given },
        init_code: vec![],
    };
    inspector.create(&custom, Some(0), 0, 0);
    for _ in 0..3 {
        inspector.create_end(&[], &[given]);
    }

    assert_eq!(
        inspector.into_changes(),
        vec![
            (parsed("0x00000000219ab540356cBB839Cbe05303d7705Fa"), NO_WRITES),
            (parsed("0xB928f69Bb1D91Cd65274e3c79d8986362984fDA3"), NO_WRITES),
            (given, NO_WRITES),
        ]
    );
}

#[test]
fn created_address_depends_on_nonce_and_salt() {
    let caller = parsed("0x6ac7ea33f8831ea9dcc53393aaa88b25a785dbf0");
    let expected = [
        "0xcd234a471b72ba2f1ccf0a70fcaba648a5eecd8d",
        "0x343c43a37d37dff08ae8c4a11544c718abb4fcf8",
        "0xf778b86fa74e846c4f0a1fbd1335fe81c00a0c91",
    ];
    let mut inspector = NativeStorageChangeInspector::new();
    for nonce in 0..3 {
        let inputs = CreateInputs {
            caller,
            scheme: CreateScheme::Create,
            init_code: vec![],
        };
        inspector.create(&inputs, Some(nonce), 0, 0);
    }
    let mut salt = [0; 32];
    salt[12] = 0xfe;
    salt[13] = 0xed;
    let salted = CreateInputs {
        caller: parsed("0xdeadbeef00000000000000000000000000000000"),
        scheme: CreateScheme::Create2 {
            salt: U256(salt),
        },
        init_code: vec![0x00],
    };
    inspector.create(&salted, Some(0), 0, 0);

    let changes = inspector.into_changes();
    for (change, text) in changes.iter().zip(expected) {
        assert_eq!(change.0, parsed(text));
    }
    let reference = evm_address(salted.caller).create2_from_code(salt, [0x00]);
    assert_eq!(changes[3].0 .0, reference.into_array());
    assert_ne!(
        changes[3].0,
        parsed("0xB928f69Bb1D91Cd65274e3c79d8986362984fDA3")
    );
}

#[test]
fn creation_by_a_caller_that_cannot_be_loaded_starts_no_frame() {
    let inputs = CreateInputs {
        caller: repeat_byte(1),
        scheme: CreateScheme::Create,
        init_code: vec![],
    };
    let mut inspector = NativeStorageChangeInspector::new();

    inspector.create(&inputs, None, 0, 0);

    assert_eq!(inspector.action_cursor(), None);
    assert_eq!(inspector.into_changes(), vec![]);
}
