use debank_trace_block::arena::{
    align_native_storage_changes, CallTrace, CallTraceArena, CallTraceNode,
};
use debank_trace_block::native::{
    CallInputs, CallScheme, CreateInputs, CreateScheme, JournalEntry,
    NativeStorageChangeInspector, NativeStorageWrites,
};
use debank_trace_block::primitives::{Address, U256};
use debank_trace_block::trace_block::debank_inspector_settings;
use revm::bytecode::opcode::OpCode;
use revm::bytecode::Bytecode;
use revm::context::{JournalTr, TxEnv};
use revm::database::{CacheDB, EmptyDB};
use revm::state::AccountInfo;
use revm::{Context, InspectEvm, Inspector, MainBuilder, MainContext};
use revm_inspectors::tracing::{OpcodeFilter, TracingInspector, TracingInspectorConfig};

type EvmContext = Context<
    revm::context::BlockEnv,
    TxEnv,
    revm::context::CfgEnv,
    CacheDB<EmptyDB>,
>;

/// Hands the frames of the EVM to the inspector of native frames.
struct Recorder(NativeStorageChangeInspector);

fn library_address(address: alloy_primitives::Address) -> Address {
    Address(address.into_array())
}

fn entries(context: &EvmContext) -> Vec<JournalEntry> {
    context
        .journaled_state
        .journal
        .iter()
        .map(|entry| match entry {
            revm::JournalEntry::StorageChanged { address, .. } => JournalEntry::StorageChanged {
                address: library_address(*address),
            },
            _ => JournalEntry::Other,
        })
        .collect()
}

impl Inspector<EvmContext> for Recorder {
    fn call(
        &mut self,
        context: &mut EvmContext,
        inputs: &mut revm::interpreter::CallInputs,
    ) -> Option<revm::interpreter::CallOutcome> {
        let scheme = match inputs.scheme {
            revm::interpreter::CallScheme::Call => CallScheme::Call,
            revm::interpreter::CallScheme::CallCode => CallScheme::CallCode,
            revm::interpreter::CallScheme::DelegateCall => CallScheme::DelegateCall,
            revm::interpreter::CallScheme::StaticCall => CallScheme::StaticCall,
        };
        let inputs = CallInputs {
            scheme,
            bytecode_address: library_address(inputs.bytecode_address),
            target_address: library_address(inputs.target_address),
        };
        self.0.call(&inputs, context.journaled_state.journal.len(), 0);
        None
    }

    fn call_end(
        &mut self,
        context: &mut EvmContext,
        _inputs: &revm::interpreter::CallInputs,
        outcome: &mut revm::interpreter::CallOutcome,
    ) {
        self.0.call_end(&entries(context), &[], outcome.was_precompile_called);
    }

    fn create(
        &mut self,
        context: &mut EvmContext,
        inputs: &mut revm::interpreter::CreateInputs,
    ) -> Option<revm::interpreter::CreateOutcome> {
        let nonce = context
            .journaled_state
            .load_account(inputs.caller())
            .ok()
            .map(|account| account.info.nonce);
        let scheme = match inputs.scheme() {
            revm::context_interface::CreateScheme::Create => CreateScheme::Create,
            revm::context_interface::CreateScheme::Create2 { salt } => {
                CreateScheme::Create2 { salt: U256(salt.to_be_bytes()) }
            }
            revm::context_interface::CreateScheme::Custom { address } => {
                CreateScheme::Custom { address: library_address(address) }
            }
        };
        let inputs = CreateInputs {
            caller: library_address(inputs.caller()),
            scheme,
            init_code: inputs.init_code().to_vec(),
        };
        self.0.create(&inputs, nonce, context.journaled_state.journal.len(), 0);
        None
    }

    fn create_end(
        &mut self,
        context: &mut EvmContext,
        _inputs: &revm::interpreter::CreateInputs,
        _outcome: &mut revm::interpreter::CreateOutcome,
    ) {
        self.0.create_end(&entries(context), &[]);
    }
}

fn tracing_inspector() -> TracingInspector {
    let settings = debank_inspector_settings();
    let mut config = TracingInspectorConfig::default_parity()
        .set_steps(settings.steps)
        .set_record_logs(settings.logs)
        .set_exclude_precompile_calls(settings.exclude_precompile_calls);
    config.record_opcodes_filter =
        OpCode::new(settings.recorded_opcode).map(|op| OpcodeFilter::new().enabled(op));
    TracingInspector::new(config)
}

#[test]
fn records_of_a_real_transaction_align_with_its_arena() {
    // Calls the identity precompile, creates by CREATE and by CREATE2 with salt 7, delegates to
    // the identity precompile, and writes to storage.
    let code = vec![
        0x60, 0, 0x60, 0, 0x60, 0, 0x60, 0, 0x60, 0, 0x60, 4, 0x5a, 0xf1, 0x50, // CALL
        0x60, 0, 0x60, 0, 0x60, 0, 0xf0, 0x50, // CREATE
        0x60, 7, 0x60, 2, 0x60, 0, 0x60, 0, 0xf5, 0x50, // CREATE2
        0x60, 0, 0x60, 0, 0x60, 0, 0x60, 0, 0x60, 4, 0x5a, 0xf4, 0x50, // DELEGATECALL
        0x60, 1, 0x60, 0, 0x55, 0x00, // SSTORE
    ];
    let contract = alloy_primitives::Address::repeat_byte(0xc0);
    let mut db = CacheDB::new(EmptyDB::default());
    db.insert_account_info(
        contract,
        AccountInfo::from_bytecode(Bytecode::new_raw(code.into())),
    );
    let recorder = Recorder(NativeStorageChangeInspector::new());
    let mut evm = Context::mainnet()
        .with_db(db)
        .build_mainnet_with_inspector((tracing_inspector(), recorder));

    let result = evm
        .inspect_one_tx(TxEnv {
            caller: alloy_primitives::Address::repeat_byte(0x01),
            gas_limit: 1_000_000,
            kind: alloy_primitives::TxKind::Call(contract),
            ..Default::default()
        })
        .unwrap();
    assert!(result.is_success());

    let (tracing, recorder) = evm.inspector;
    let traced = tracing.into_traces();
    let nodes = traced
        .nodes()
        .iter()
        .map(|node| CallTraceNode {
            parent: node.parent,
            trace: CallTrace {
                depth: node.trace.depth,
                success: node.trace.success,
                address: library_address(node.trace.address),
                data: node.trace.data.to_vec(),
                value: U256(node.trace.value.to_be_bytes()),
                status: node.trace.status.map(|status| status as u8),
            },
        })
        .collect();
    let mut arena = CallTraceArena { nodes };
    let changes = recorder.0.into_changes();

    let mut identity = [0; 20];
    identity[19] = 4;
    assert_eq!(changes.len(), 5);
    assert_eq!(changes[0].0, Address([0xc0; 20]));
    assert_eq!(changes[1].0, Address(identity));
    // The nonce of a contract starts at one.
    assert_eq!(changes[2].0, library_address(contract.create(1)));
    let mut salt = [0; 32];
    salt[31] = 7;
    assert_eq!(
        changes[3].0,
        library_address(contract.create2_from_code(salt, [0, 0]))
    );
    assert_eq!(changes[4].0, Address(identity));
    for (_, writes) in &changes {
        assert_eq!(*writes, NativeStorageWrites::default());
    }
    let aligned = align_native_storage_changes(&mut arena, changes.clone(), true);
    assert_eq!(aligned, Some(changes));
}
