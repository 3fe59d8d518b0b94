//! A harness that compiles Plank contracts with several backends, runs them
//! on an in-memory EVM and compares what each backend's bytecode does.

pub mod assertions;
pub mod bytes;
pub mod compile;
pub mod driver;
pub mod evm;
pub mod harness;
pub mod json;
pub mod lowering;
pub mod report;
pub mod text;

pub use assertions::{
    check_runtime_calls_match, check_runtime_expectations, run_compiled_case, run_runtime_case,
    CallCase,
    CallExecution, ExpectationFailure, ExpectedOutcome, HarnessError, MatchFailure,
    OutcomeMismatch, RuntimeExecution,
};
pub use bytes::{calldata_words, word, Word256};
pub use compile::{
    check_stage, finish_compile, gas_backends, sir_csud, sona_o2, BackendCase, CompileError,
    CompiledContract, PlankFixture,
};
pub use driver::BackendKind;
pub use evm::{
    Behavior, DeployOutcome, EvmLog, ExecutionOutcome, ExecutionStatus, StorageChange,
    StorageSlot, TransactionResult, BASE_TRANSACTION_GAS,
};
pub use harness::{default_caller, default_contract, EvmError, EvmHarness, HardFork};
pub use lowering::LowerError;
pub use report::{GasReport, GasReportRow};
