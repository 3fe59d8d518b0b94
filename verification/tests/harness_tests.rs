use plank_bytecode_tests::harness::{is_malformed_delegation, DEFAULT_GAS_LIMIT};
use plank_bytecode_tests::{
    default_caller, default_contract, run_compiled_case, run_runtime_case, sir_csud, sona_o2,
    BackendCase, CallCase, CompileError, CompiledContract, EvmError, EvmHarness, ExecutionStatus,
    HarnessError, BASE_TRANSACTION_GAS,
};

/// Runtime code that returns the word 42.
const RETURN_42: [u8; 10] = [0x60, 0x2a, 0x60, 0x00, 0x52, 0x60, 0x20, 0x60, 0x00, 0xf3];
/// Runtime code that stores 1 at slot 0 and stops.
const STORE_ONE: [u8; 6] = [0x60, 0x01, 0x60, 0x00, 0x55, 0x00];
/// Runtime code that reverts with no data.
const REVERT: [u8; 5] = [0x60, 0x00, 0x60, 0x00, 0xfd];

/// Initcode that returns the runtime code that follows it.
fn initcode_for(runtime: &[u8]) -> Vec<u8> {
    let n = runtime.len() as u8;
    let mut code = vec![0x60, n, 0x60, 0x0c, 0x60, 0x00, 0x39, 0x60, n, 0x60, 0x00, 0xf3];
    code.extend_from_slice(runtime);
    code
}

fn word(v: u8) -> Vec<u8> {
    let mut w = vec![0u8; 32];
    w[31] = v;
    w
}

#[test]
fn deploy_installs_returned_runtime_code() {
    let mut evm = EvmHarness::new();
    let deploy = evm.deploy(&initcode_for(&RETURN_42)).expect("deploy runs");
    assert!(matches!(deploy.init.status, ExecutionStatus::Success));
    assert_eq!(deploy.address, default_contract());
    assert_eq!(deploy.runtime_bytecode, RETURN_42.to_vec());
    assert!(deploy.init.gas_used >= BASE_TRANSACTION_GAS);
    let call = evm.call(deploy.address, &[]).expect("call runs");
    assert!(matches!(call.status, ExecutionStatus::Success));
    assert_eq!(call.output, word(42));
    assert!(call.gas_used >= BASE_TRANSACTION_GAS);
}

#[test]
fn calls_report_storage_changes_and_reverts() {
    let mut evm = EvmHarness::default();
    let store = [0x11u8; 20];
    evm.install_code(store, &STORE_ONE);
    let outcome = evm.call(store, &[]).expect("call runs");
    assert!(matches!(outcome.status, ExecutionStatus::Success));
    assert_eq!(outcome.storage_changes.len(), 1);
    assert_eq!(outcome.storage_changes[0].address, store);
    assert_eq!(outcome.storage_changes[0].key, [0u8; 32]);
    assert_eq!(outcome.storage_changes[0].value.to_vec(), word(1));
    // The slot is committed: storing the same value again changes nothing.
    let again = evm.call(store, &[]).expect("call runs");
    assert!(again.storage_changes.is_empty());

    let reverting = evm.execute_code([0x22u8; 20], &REVERT, &[]).expect("call runs");
    assert!(matches!(reverting.status, ExecutionStatus::Revert));
    assert!(reverting.output.is_empty());

    let halting = evm.execute_code([0x33u8; 20], &[0xfe], &[]).expect("call runs");
    assert!(matches!(halting.status, ExecutionStatus::Halt(_)));
    assert!(halting.output.is_empty());
}

#[test]
fn failed_deploy_keeps_initcode_and_returns_nothing_to_install() {
    let mut evm = EvmHarness::new().with_caller([0x44u8; 20]).with_gas_limit(DEFAULT_GAS_LIMIT);
    let deploy = evm.deploy_at([0x55u8; 20], &REVERT).expect("deploy runs");
    assert!(matches!(deploy.init.status, ExecutionStatus::Revert));
    assert!(deploy.runtime_bytecode.is_empty());
    assert_ne!(default_caller(), [0x44u8; 20]);
    // The init code stays at the address: calling it reverts again.
    let again = evm.call([0x55u8; 20], &[]).expect("call runs");
    assert!(matches!(again.status, ExecutionStatus::Revert));
}

#[test]
fn compiled_case_runs_calls_only_after_successful_deploy() {
    let compiled = CompiledContract { backend: sir_csud(), bytecode: initcode_for(&RETURN_42) };
    let calls = vec![
        CallCase::new("first", vec![]).expect_success_word(42),
        CallCase::new("second", vec![1, 2, 3]),
    ];
    let execution = run_compiled_case(&compiled, &[0xAA, 0xBB], &calls).expect("installable").expect("runs");
    assert_eq!(execution.initcode_bytes, compiled.bytecode.len() + 2);
    assert_eq!(execution.backend.name, "sir-csud");
    assert_eq!(execution.calls.len(), 2);
    assert_eq!(execution.calls[0].name, "first");
    assert_eq!(execution.calls[0].outcome.output, word(42));
    assert_eq!(execution.calls[1].name, "second");

    let failing = CompiledContract { backend: sir_csud(), bytecode: REVERT.to_vec() };
    let execution = run_compiled_case(&failing, &[], &calls).expect("installable").expect("runs");
    assert!(matches!(execution.deploy.init.status, ExecutionStatus::Revert));
    assert!(execution.calls.is_empty());
}

#[test]
fn malformed_delegations_are_recognised() {
    assert!(!is_malformed_delegation(&RETURN_42));
    assert!(!is_malformed_delegation(&[0xEF]));
    assert!(is_malformed_delegation(&[0xEF, 0x01]));
    assert!(is_malformed_delegation(&[0xEF, 0x01, 0x00]));
    let mut designator = vec![0xEF, 0x01, 0x00];
    designator.extend_from_slice(&[0x12u8; 20]);
    assert!(!is_malformed_delegation(&designator));
    designator[2] = 0x01;
    assert!(is_malformed_delegation(&designator));
}

#[test]
fn deployment_of_malformed_runtime_code_installs_nothing() {
    let mut evm = EvmHarness::new();
    let initcode = initcode_for(&[0xEF, 0x01, 0x02]);
    assert!(evm.try_deploy_at(default_contract(), &initcode).is_none());
    // The init code stays installed: calling it runs it again.
    let again = evm.call(default_contract(), &[]).expect("call runs");
    assert!(matches!(again.status, ExecutionStatus::Success));
    assert_eq!(again.output, vec![0xEF, 0x01, 0x02]);

    let compiled = CompiledContract { backend: sir_csud(), bytecode: initcode };
    assert!(run_compiled_case(&compiled, &[], &[]).is_none());
}

#[test]
fn refused_transaction_leaves_the_harness_unchanged() {
    let evm = EvmHarness::new().with_gas_limit(1_000);
    let mut evm = evm;
    let refused = evm.call(default_contract(), &[]);
    assert!(matches!(refused, Err(EvmError::Execution(_))));
    // The nonce did not advance: with a usable gas limit the next call runs.
    let mut evm = evm.with_gas_limit(DEFAULT_GAS_LIMIT);
    let call = evm.call(default_contract(), &[]).expect("call runs");
    assert!(matches!(call.status, ExecutionStatus::Success));
    assert!(call.output.is_empty());
    assert_eq!(call.gas_used, BASE_TRANSACTION_GAS);
}

fn compile_for(backend: BackendCase) -> Result<CompiledContract, CompileError> {
    if backend.name == "sona-o2" {
        Err(CompileError::Backend { backend: "sona", message: "refused".to_string() })
    } else {
        Ok(CompiledContract { backend, bytecode: initcode_for(&RETURN_42) })
    }
}

#[test]
fn runtime_case_runs_each_backend_on_a_fresh_evm() {
    let calls = vec![CallCase::new("first", vec![]), CallCase::new("second", vec![7])];
    let both = run_runtime_case(compile_for, &[], &calls, &[sir_csud(), sir_csud()])
        .expect("installable")
        .expect("runs");
    assert_eq!(both.len(), 2);
    let alone = run_runtime_case(compile_for, &[], &calls, &[sir_csud()])
        .expect("installable")
        .expect("runs");
    for execution in &both {
        assert_eq!(execution.backend.name, "sir-csud");
        assert_eq!(execution.calls.len(), 2);
        assert_eq!(execution.deploy.init.gas_used, alone[0].deploy.init.gas_used);
        for (call, single) in execution.calls.iter().zip(alone[0].calls.iter()) {
            assert_eq!(call.outcome.output, word(42));
            assert_eq!(call.outcome.gas_used, single.outcome.gas_used);
        }
    }
    let none = run_runtime_case(compile_for, &[], &calls, &[]).expect("installable").expect("runs");
    assert!(none.is_empty());
}

#[test]
fn runtime_case_stops_at_the_first_compile_error() {
    let calls = vec![CallCase::new("first", vec![])];
    let run = run_runtime_case(compile_for, &[], &calls, &[sir_csud(), sona_o2(), sir_csud()])
        .expect("installable");
    assert!(matches!(run, Err(HarnessError::Compile(CompileError::Backend { .. }))));
}
