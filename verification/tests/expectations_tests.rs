use plank_bytecode_tests::bytes::word_from_u64;
use plank_bytecode_tests::{
    check_runtime_calls_match, check_runtime_expectations, sir_csud, sona_o2, CallCase,
    CallExecution, DeployOutcome, ExecutionOutcome, ExecutionStatus, ExpectationFailure,
    ExpectedOutcome, MatchFailure, OutcomeMismatch, RuntimeExecution, TransactionResult,
};

fn outcome(status: ExecutionStatus, output: Vec<u8>, gas: u64) -> ExecutionOutcome {
    let result = match status {
        ExecutionStatus::Success => TransactionResult::Success { output },
        ExecutionStatus::Revert => TransactionResult::Revert { output },
        ExecutionStatus::Halt(reason) => TransactionResult::Halt { reason },
    };
    ExecutionOutcome::from_result(result, vec![], &[], gas)
}

fn success(output: Vec<u8>) -> ExecutionOutcome {
    outcome(ExecutionStatus::Success, output, 22_000)
}

fn word(v: u64) -> Vec<u8> {
    word_from_u64(v).to_vec()
}

#[test]
fn call_case_builders_set_the_expectation() {
    let c = CallCase::new("total-supply", vec![1, 2, 3]);
    assert_eq!(c.name, "total-supply");
    assert_eq!(c.calldata, vec![1, 2, 3]);
    assert!(matches!(c.expected, ExpectedOutcome::AnySuccess));
    assert!(matches!(c.clone().expect_success_word(18).expected, ExpectedOutcome::SuccessWord(18)));
    assert!(matches!(c.clone().expect_success_empty().expected, ExpectedOutcome::SuccessEmpty));
    assert!(matches!(c.clone().expect_revert().expected, ExpectedOutcome::Revert));
    assert!(matches!(
        c.clone().expect_success_non_zero_word().expected,
        ExpectedOutcome::SuccessNonZeroWord
    ));
    match c.clone().expect_success_bytes(vec![7]).expected {
        ExpectedOutcome::SuccessBytes(b) => assert_eq!(b, vec![7]),
        other => panic!("unexpected {other:?}"),
    }
    let d = c.expect(ExpectedOutcome::Revert);
    assert_eq!(d.name, "total-supply");
}

#[test]
fn expectations_check_status_then_output() {
    let reverted = outcome(ExecutionStatus::Revert, vec![], 30_000);
    let halted = outcome(ExecutionStatus::Halt("OutOfGas".into()), vec![], 30_000);
    assert_eq!(ExpectedOutcome::AnySuccess.check(&success(vec![5])), Ok(()));
    assert_eq!(ExpectedOutcome::AnySuccess.check(&reverted), Err(OutcomeMismatch::NotSuccess));
    assert_eq!(ExpectedOutcome::SuccessEmpty.check(&success(vec![])), Ok(()));
    assert_eq!(ExpectedOutcome::SuccessEmpty.check(&success(vec![0])), Err(OutcomeMismatch::WrongOutput));
    assert_eq!(ExpectedOutcome::SuccessWord(18).check(&success(word(18))), Ok(()));
    assert_eq!(ExpectedOutcome::SuccessWord(18).check(&success(word(19))), Err(OutcomeMismatch::WrongOutput));
    assert_eq!(ExpectedOutcome::SuccessWord(18).check(&halted), Err(OutcomeMismatch::NotSuccess));
    assert_eq!(ExpectedOutcome::SuccessBytes(vec![1, 2]).check(&success(vec![1, 2])), Ok(()));
    assert_eq!(
        ExpectedOutcome::SuccessBytes(vec![1, 2]).check(&success(vec![1])),
        Err(OutcomeMismatch::WrongOutput)
    );
    assert_eq!(ExpectedOutcome::SuccessNonZeroWord.check(&success(word(1))), Ok(()));
    assert_eq!(ExpectedOutcome::SuccessNonZeroWord.check(&success(word(0))), Err(OutcomeMismatch::ZeroWord));
    assert_eq!(ExpectedOutcome::SuccessNonZeroWord.check(&success(vec![1])), Err(OutcomeMismatch::NotOneWord));
    assert_eq!(ExpectedOutcome::SuccessNonZeroWord.check(&reverted), Err(OutcomeMismatch::NotSuccess));
    assert_eq!(ExpectedOutcome::Revert.check(&reverted), Ok(()));
    assert_eq!(ExpectedOutcome::Revert.check(&success(vec![])), Err(OutcomeMismatch::NotRevert));
    assert_eq!(ExpectedOutcome::Revert.check(&halted), Err(OutcomeMismatch::NotRevert));
}

fn execution(
    backend_sir: bool,
    deploy_status: ExecutionStatus,
    runtime: Vec<u8>,
    calls: Vec<(&str, ExecutionOutcome)>,
) -> RuntimeExecution {
    let init = outcome(deploy_status, runtime.clone(), 50_000);
    RuntimeExecution {
        backend: if backend_sir { sir_csud() } else { sona_o2() },
        initcode_bytes: 100,
        deploy: DeployOutcome { address: [0xCC; 20], runtime_bytecode: runtime, init },
        calls: calls
            .into_iter()
            .map(|(name, outcome)| CallExecution { name: name.to_string(), outcome })
            .collect(),
    }
}

#[test]
fn matching_backends_pass() {
    let a = execution(true, ExecutionStatus::Success, vec![1, 2], vec![("x", success(word(1))), ("y", success(vec![]))]);
    let mut b = execution(false, ExecutionStatus::Success, vec![3, 4, 5], vec![("x", success(word(1))), ("y", success(vec![]))]);
    b.calls[0].outcome.gas_used = 99_999;
    assert_eq!(check_runtime_calls_match(&[a.clone(), b.clone()]), Ok(()));
    assert_eq!(check_runtime_calls_match(&[a]), Ok(()));
}

#[test]
fn calls_match_reports_first_difference() {
    assert_eq!(check_runtime_calls_match(&[]), Err(MatchFailure::NoExecutions));
    let base = execution(true, ExecutionStatus::Success, vec![1], vec![("x", success(word(1))), ("y", success(word(2)))]);
    let reverted_deploy = execution(false, ExecutionStatus::Revert, vec![1], vec![]);
    assert_eq!(
        check_runtime_calls_match(&[base.clone(), reverted_deploy]),
        Err(MatchFailure::DeployBehavior { execution: 1 })
    );
    let fewer = execution(false, ExecutionStatus::Success, vec![9], vec![("x", success(word(1)))]);
    assert_eq!(check_runtime_calls_match(&[base.clone(), fewer]), Err(MatchFailure::CallCount { execution: 1 }));
    let renamed = execution(false, ExecutionStatus::Success, vec![9], vec![("x", success(word(1))), ("z", success(word(2)))]);
    let different = execution(false, ExecutionStatus::Success, vec![9], vec![("x", success(word(5))), ("y", success(word(2)))]);
    assert_eq!(
        check_runtime_calls_match(&[base.clone(), renamed.clone()]),
        Err(MatchFailure::CallName { execution: 1, call: 1 })
    );
    assert_eq!(
        check_runtime_calls_match(&[base.clone(), different.clone()]),
        Err(MatchFailure::CallBehavior { execution: 1, call: 0 })
    );
    // Calls are compared call by call: call 0 of every execution comes first.
    assert_eq!(
        check_runtime_calls_match(&[base, renamed, different]),
        Err(MatchFailure::CallBehavior { execution: 2, call: 0 })
    );
}

#[test]
fn expectations_report_first_failure() {
    let calls = vec![
        CallCase::new("x", vec![]).expect_success_word(1),
        CallCase::new("y", vec![]).expect_revert(),
    ];
    let good = execution(true, ExecutionStatus::Success, vec![1], vec![
        ("x", success(word(1))),
        ("y", outcome(ExecutionStatus::Revert, vec![], 21_100)),
    ]);
    assert_eq!(check_runtime_expectations(&[good.clone(), good.clone()], &calls), Ok(()));
    let failed_deploy = execution(true, ExecutionStatus::Revert, vec![], vec![]);
    assert_eq!(
        check_runtime_expectations(&[good.clone(), failed_deploy], &calls),
        Err(ExpectationFailure::DeployFailed { execution: 1 })
    );
    let empty_runtime = execution(true, ExecutionStatus::Success, vec![], vec![]);
    assert_eq!(
        check_runtime_expectations(&[empty_runtime], &calls),
        Err(ExpectationFailure::EmptyRuntime { execution: 0 })
    );
    let short = execution(true, ExecutionStatus::Success, vec![1], vec![("x", success(word(1)))]);
    assert_eq!(check_runtime_expectations(&[short], &calls), Err(ExpectationFailure::CallCount { execution: 0 }));
    let misnamed = execution(true, ExecutionStatus::Success, vec![1], vec![
        ("x", success(word(1))),
        ("w", outcome(ExecutionStatus::Revert, vec![], 21_100)),
    ]);
    assert_eq!(
        check_runtime_expectations(&[misnamed], &calls),
        Err(ExpectationFailure::CallName { execution: 0, call: 1 })
    );
    let wrong = execution(true, ExecutionStatus::Success, vec![1], vec![
        ("x", success(word(2))),
        ("y", outcome(ExecutionStatus::Revert, vec![], 21_100)),
    ]);
    assert_eq!(
        check_runtime_expectations(&[wrong], &calls),
        Err(ExpectationFailure::Outcome { execution: 0, call: 0, mismatch: OutcomeMismatch::WrongOutput })
    );
    assert_eq!(check_runtime_expectations(&[], &calls), Ok(()));
}

#[test]
fn matching_backends_meet_expectations_alike() {
    let calls = vec![CallCase::new("x", vec![]).expect_success_word(1)];
    let a = execution(true, ExecutionStatus::Success, vec![1], vec![("x", success(word(1)))]);
    let b = execution(false, ExecutionStatus::Success, vec![2], vec![("x", success(word(1)))]);
    assert_eq!(check_runtime_calls_match(&[a.clone(), b.clone()]), Ok(()));
    assert_eq!(check_runtime_expectations(&[a.clone()], &calls), Ok(()));
    assert_eq!(check_runtime_expectations(&[b], &calls), Ok(()));
}
