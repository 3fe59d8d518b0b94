//! Runtime scenarios: the calls made on a deployed contract, what each call
//! is expected to do, and the checks that compare backends with each other
//! and with those expectations.

use crate::bytes::{bytes_eq, word_from_u64, word_bytes};
use crate::compile::{BackendCase, CompileError, CompiledContract};
use crate::harness::{
    answers, default_contract, deployed_model, fresh_model, lemma_answer_unique, malformed_delegation,
    outcome_same, runtime_installable,
    CallReply, EvmError, EvmHarness, HarnessModel,
};
use crate::evm::append_bytes;
use crate::evm::{
    behavior_eq, BehaviorModel, DeployOutcome, EvmLog, ExecutionOutcome, StatusModel,
};
use vstd::prelude::*;

verus! {

/// What a call is expected to do.
#[derive(Debug, Clone)]
pub enum ExpectedOutcome {
    AnySuccess,
    SuccessEmpty,
    SuccessWord(u64),
    SuccessBytes(Vec<u8>),
    SuccessNonZeroWord,
    Revert,
}

/// A call on a deployed contract: a name, its calldata and what it should do.
#[derive(Debug, Clone)]
pub struct CallCase {
    pub name: String,
    pub calldata: Vec<u8>,
    pub expected: ExpectedOutcome,
}

impl CallCase {
    /// A call that is expected to succeed, whatever it returns.
    pub fn new(name: &str, calldata: Vec<u8>) -> (c: CallCase)
        ensures
            c.name@ == name@,
            c.calldata == calldata,
            c.expected == ExpectedOutcome::AnySuccess,
    {
        CallCase { name: String::from_str(name), calldata, expected: ExpectedOutcome::AnySuccess }
    }

    /// The same call with another expectation.
    pub fn expect(self, expected: ExpectedOutcome) -> (c: CallCase)
        ensures
            c.name == self.name,
            c.calldata == self.calldata,
            c.expected == expected,
    {
        let mut c = self;
        c.expected = expected;
        c
    }

    /// The same call, expected to succeed and return `expected` as one word.
    pub fn expect_success_word(self, expected: u64) -> (c: CallCase)
        ensures
            c.name == self.name,
            c.calldata == self.calldata,
            c.expected == ExpectedOutcome::SuccessWord(expected),
    {
        self.expect(ExpectedOutcome::SuccessWord(expected))
    }

    /// The same call, expected to succeed and return exactly `expected`.
    pub fn expect_success_bytes(self, expected: Vec<u8>) -> (c: CallCase)
        ensures
            c.name == self.name,
            c.calldata == self.calldata,
            c.expected == ExpectedOutcome::SuccessBytes(expected),
    {
        self.expect(ExpectedOutcome::SuccessBytes(expected))
    }

    /// The same call, expected to succeed and return nothing.
    pub fn expect_success_empty(self) -> (c: CallCase)
        ensures
            c.name == self.name,
            c.calldata == self.calldata,
            c.expected == ExpectedOutcome::SuccessEmpty,
    {
        self.expect(ExpectedOutcome::SuccessEmpty)
    }

    /// The same call, expected to succeed and return one word that is not zero.
    pub fn expect_success_non_zero_word(self) -> (c: CallCase)
        ensures
            c.name == self.name,
            c.calldata == self.calldata,
            c.expected == ExpectedOutcome::SuccessNonZeroWord,
    {
        self.expect(ExpectedOutcome::SuccessNonZeroWord)
    }

    /// The same call, expected to revert.
    pub fn expect_revert(self) -> (c: CallCase)
        ensures
            c.name == self.name,
            c.calldata == self.calldata,
            c.expected == ExpectedOutcome::Revert,
    {
        self.expect(ExpectedOutcome::Revert)
    }
}

/// How an outcome fails an expectation, in the order the checks are made:
/// first the status, then the output.
#[derive(Debug, Clone, Copy, PartialEq, Eq, Structural)]
pub enum OutcomeMismatch {
    /// A success was expected and the call did not succeed.
    NotSuccess,
    /// A revert was expected and the call did not revert.
    NotRevert,
    /// The call succeeded with output other than the expected one.
    WrongOutput,
    /// The call succeeded and its output is not one word.
    NotOneWord,
    /// The call succeeded and returned the zero word.
    ZeroWord,
}

/// 32 zero bytes.
pub open spec fn zero_word() -> Seq<u8> {
    Seq::new(32, |i: int| 0u8)
}

/// The output that an expectation fixes, where it fixes one.
pub open spec fn expected_output(e: ExpectedOutcome) -> Option<Seq<u8>> {
    match e {
        ExpectedOutcome::SuccessEmpty => Some(Seq::empty()),
        ExpectedOutcome::SuccessWord(w) => Some(word_bytes(w as nat)),
        ExpectedOutcome::SuccessBytes(b) => Some(b@),
        _ => None,
    }
}

/// Where an outcome fails an expectation, or `None` where it meets it.
pub open spec fn outcome_mismatch(e: ExpectedOutcome, status: StatusModel, output: Seq<u8>) -> Option<
    OutcomeMismatch,
> {
    match e {
        ExpectedOutcome::Revert => if status == StatusModel::Revert {
            None
        } else {
            Some(OutcomeMismatch::NotRevert)
        },
        ExpectedOutcome::SuccessNonZeroWord => if status != StatusModel::Success {
            Some(OutcomeMismatch::NotSuccess)
        } else if output.len() != 32 {
            Some(OutcomeMismatch::NotOneWord)
        } else if output == zero_word() {
            Some(OutcomeMismatch::ZeroWord)
        } else {
            None
        },
        _ => if status != StatusModel::Success {
            Some(OutcomeMismatch::NotSuccess)
        } else {
            match expected_output(e) {
                Some(out) => if output == out {
                    None
                } else {
                    Some(OutcomeMismatch::WrongOutput)
                },
                None => None,
            }
        },
    }
}

fn is_zero_word(bytes: &[u8]) -> (r: bool)
    requires
        bytes@.len() == 32,
    ensures
        r == (bytes@ == zero_word()),
{
    let mut i: usize = 0;
    while i < 32
        invariant
            i <= 32,
            bytes@.len() == 32,
            forall|k: int| 0 <= k < i ==> bytes@[k] == 0u8,
        decreases 32 - i,
    {
        if bytes[i] != 0 {
            assert(bytes@[i as int] != zero_word()[i as int]);
            return false;
        }
        i = i + 1;
    }
    assert(bytes@ == zero_word());
    true
}

impl ExpectedOutcome {
    /// Checks an outcome against this expectation.
    pub fn check(&self, outcome: &ExecutionOutcome) -> (r: Result<(), OutcomeMismatch>)
        ensures
            r == match outcome_mismatch(*self, outcome.status@, outcome.output@) {
                Some(m) => Err(m),
                None => Ok(()),
            },
    {
        match self {
            ExpectedOutcome::Revert => {
                if outcome.status.is_revert() {
                    Ok(())
                } else {
                    Err(OutcomeMismatch::NotRevert)
                }
            },
            ExpectedOutcome::SuccessNonZeroWord => {
                if !outcome.status.is_success() {
                    Err(OutcomeMismatch::NotSuccess)
                } else if outcome.output.len() != 32 {
                    Err(OutcomeMismatch::NotOneWord)
                } else if is_zero_word(&outcome.output) {
                    Err(OutcomeMismatch::ZeroWord)
                } else {
                    Ok(())
                }
            },
            ExpectedOutcome::AnySuccess => {
                if outcome.status.is_success() {
                    Ok(())
                } else {
                    Err(OutcomeMismatch::NotSuccess)
                }
            },
            ExpectedOutcome::SuccessEmpty => {
                if !outcome.status.is_success() {
                    Err(OutcomeMismatch::NotSuccess)
                } else if outcome.output.len() == 0 {
                    assert(outcome.output@ =~= Seq::<u8>::empty());
                    Ok(())
                } else {
                    Err(OutcomeMismatch::WrongOutput)
                }
            },
            ExpectedOutcome::SuccessWord(w) => {
                if !outcome.status.is_success() {
                    Err(OutcomeMismatch::NotSuccess)
                } else {
                    let expected = word_from_u64(*w);
                    if bytes_eq(&outcome.output, expected.as_slice()) {
                        Ok(())
                    } else {
                        Err(OutcomeMismatch::WrongOutput)
                    }
                }
            },
            ExpectedOutcome::SuccessBytes(b) => {
                if !outcome.status.is_success() {
                    Err(OutcomeMismatch::NotSuccess)
                } else if bytes_eq(&outcome.output, b) {
                    Ok(())
                } else {
                    Err(OutcomeMismatch::WrongOutput)
                }
            },
        }
    }
}

/// One call made on a deployed contract, and what it did.
#[derive(Debug, Clone)]
pub struct CallExecution {
    pub name: String,
    pub outcome: ExecutionOutcome,
}

/// A contract compiled with one backend, deployed, and called.
#[derive(Debug, Clone)]
pub struct RuntimeExecution {
    pub backend: BackendCase,
    pub initcode_bytes: usize,
    pub deploy: DeployOutcome,
    pub calls: Vec<CallExecution>,
}

/// What the deployment did, leaving out its output: the runtime code that
/// each backend emits is its own.
pub open spec fn deploy_behavior(e: RuntimeExecution) -> BehaviorModel {
    BehaviorModel { output: Seq::empty(), ..e.deploy.init.behavior_model() }
}

/// Execution `x` deployed as the first one did and made as many calls.
pub open spec fn header_matches(es: Seq<RuntimeExecution>, x: int) -> bool {
    &&& deploy_behavior(es[x]) == deploy_behavior(es[0])
    &&& es[x].calls@.len() == es[0].calls@.len()
}

/// Call `c` of execution `x` has the name and the behaviour of call `c` of
/// the first execution.
pub open spec fn call_matches(es: Seq<RuntimeExecution>, x: int, c: int) -> bool {
    &&& es[x].calls@[c].name@ == es[0].calls@[c].name@
    &&& es[x].calls@[c].outcome.behavior_model() == es[0].calls@[c].outcome.behavior_model()
}

/// Every execution after the first deployed as the first one did and made
/// as many calls.
pub open spec fn headers_match(es: Seq<RuntimeExecution>) -> bool {
    forall|x: int| 1 <= x < es.len() ==> #[trigger] header_matches(es, x)
}

/// All calls before call `c` of execution `x` match, the calls being taken
/// call by call and, for each call, execution by execution.
pub open spec fn calls_match_before(es: Seq<RuntimeExecution>, c: int, x: int) -> bool {
    forall|c2: int, x2: int|
        0 <= c2 < es[0].calls@.len() && 1 <= x2 < es.len() && (c2 < c || (c2 == c && x2 < x))
            ==> #[trigger] call_matches(es, x2, c2)
}

/// Every backend behaved as the first one: same deployment (output aside),
/// same number of calls, and call by call the same names and behaviours.
pub open spec fn runtime_calls_match(es: Seq<RuntimeExecution>) -> bool {
    &&& es.len() > 0
    &&& headers_match(es)
    &&& calls_match_before(es, es[0].calls@.len() as int, 1)
}

/// The first way in which executions differ from the first one.
#[derive(Debug, Clone, Copy, PartialEq, Eq, Structural)]
pub enum MatchFailure {
    NoExecutions,
    DeployBehavior { execution: usize },
    CallCount { execution: usize },
    CallName { execution: usize, call: usize },
    CallBehavior { execution: usize, call: usize },
}

/// The conditions under which `f` is what `check_runtime_calls_match`
/// reports: the first check, in the order they are made, that fails.
pub open spec fn match_failure_is_first(es: Seq<RuntimeExecution>, f: MatchFailure) -> bool {
    match f {
        MatchFailure::NoExecutions => es.len() == 0,
        MatchFailure::DeployBehavior { execution } => {
            &&& es.len() > 0
            &&& 1 <= execution < es.len()
            &&& forall|j: int| 1 <= j < execution ==> #[trigger] header_matches(es, j)
            &&& deploy_behavior(es[execution as int]) != deploy_behavior(es[0])
        },
        MatchFailure::CallCount { execution } => {
            &&& es.len() > 0
            &&& 1 <= execution < es.len()
            &&& forall|j: int| 1 <= j < execution ==> #[trigger] header_matches(es, j)
            &&& deploy_behavior(es[execution as int]) == deploy_behavior(es[0])
            &&& es[execution as int].calls@.len() != es[0].calls@.len()
        },
        MatchFailure::CallName { execution, call } => {
            &&& es.len() > 0
            &&& headers_match(es)
            &&& 1 <= execution < es.len()
            &&& call < es[0].calls@.len()
            &&& calls_match_before(es, call as int, execution as int)
            &&& es[execution as int].calls@[call as int].name@ != es[0].calls@[call as int].name@
        },
        MatchFailure::CallBehavior { execution, call } => {
            &&& es.len() > 0
            &&& headers_match(es)
            &&& 1 <= execution < es.len()
            &&& call < es[0].calls@.len()
            &&& calls_match_before(es, call as int, execution as int)
            &&& es[execution as int].calls@[call as int].name@ == es[0].calls@[call as int].name@
            &&& es[execution as int].calls@[call as int].outcome.behavior_model()
                != es[0].calls@[call as int].outcome.behavior_model()
        },
    }
}

fn deploy_behavior_exec(e: &RuntimeExecution) -> (b: crate::evm::Behavior)
    ensures
        b@ == deploy_behavior(*e),
{
    let mut b = e.deploy.init.behavior();
    b.output = Vec::new();
    proof {
        assert(b@.output =~= Seq::<u8>::empty());
    }
    b
}

/// Checks that every backend behaved as the first one: the same deployment
/// (leaving out the runtime code it returned), the same number of calls, and
/// call by call the same name and behaviour. Reports the first difference.
pub fn check_runtime_calls_match(executions: &[RuntimeExecution]) -> (r: Result<(), MatchFailure>)
    ensures
        r is Ok <==> runtime_calls_match(executions@),
        r matches Err(f) ==> match_failure_is_first(executions@, f),
{
    let ghost es = executions@;
    if executions.len() == 0 {
        return Err(MatchFailure::NoExecutions);
    }
    let baseline = &executions[0];
    let baseline_deploy = deploy_behavior_exec(baseline);
    let call_count = baseline.calls.len();
    let mut x: usize = 1;
    while x < executions.len()
        invariant
            es == executions@,
            es.len() > 0,
            1 <= x <= es.len(),
            baseline == es[0],
            baseline_deploy@ == deploy_behavior(es[0]),
            call_count == es[0].calls@.len(),
            forall|j: int| 1 <= j < x ==> #[trigger] header_matches(es, j),
        decreases es.len() - x,
    {
        let d = deploy_behavior_exec(&executions[x]);
        if !behavior_eq(&d, &baseline_deploy) {
            assert(!header_matches(es, x as int));
            return Err(MatchFailure::DeployBehavior { execution: x });
        }
        if executions[x].calls.len() != call_count {
            assert(!header_matches(es, x as int));
            return Err(MatchFailure::CallCount { execution: x });
        }
        x = x + 1;
    }
    assert(headers_match(es));
    let mut c: usize = 0;
    while c < call_count
        invariant
            es == executions@,
            es.len() > 0,
            baseline == es[0],
            call_count == es[0].calls@.len(),
            c <= call_count,
            headers_match(es),
            calls_match_before(es, c as int, 1),
        decreases call_count - c,
    {
        let baseline_call = &baseline.calls[c];
        let baseline_behavior = baseline_call.outcome.behavior();
        let mut x: usize = 1;
        while x < executions.len()
            invariant
                es == executions@,
                es.len() > 0,
                baseline == es[0],
                call_count == es[0].calls@.len(),
                c < call_count,
                1 <= x <= es.len(),
                headers_match(es),
                baseline_call == es[0].calls@[c as int],
                baseline_behavior@ == es[0].calls@[c as int].outcome.behavior_model(),
                calls_match_before(es, c as int, x as int),
            decreases es.len() - x,
        {
            assert(header_matches(es, x as int));
            let call = &executions[x].calls[c];
            if !call.name.eq(&baseline_call.name) {
                assert(!call_matches(es, x as int, c as int));
                return Err(MatchFailure::CallName { execution: x, call: c });
            }
            let b = call.outcome.behavior();
            if !behavior_eq(&b, &baseline_behavior) {
                assert(!call_matches(es, x as int, c as int));
                return Err(MatchFailure::CallBehavior { execution: x, call: c });
            }
            assert(call_matches(es, x as int, c as int));
            x = x + 1;
        }
        assert(calls_match_before(es, c + 1, 1)) by {
            assert forall|c2: int, x2: int|
                0 <= c2 < es[0].calls@.len() && 1 <= x2 < es.len() && (c2 < c + 1 || (c2 == c + 1
                    && x2 < 1)) implies #[trigger] call_matches(es, x2, c2) by {
                if c2 < c {
                } else {
                    assert(c2 == c && x2 < es.len());
                }
            }
        }
        c = c + 1;
    }
    Ok(())
}

/// Call `c` of the execution has the name of scenario call `c` and meets
/// its expectation.
pub open spec fn call_meets(e: RuntimeExecution, calls: Seq<CallCase>, c: int) -> bool {
    &&& e.calls@[c].name@ == calls[c].name@
    &&& outcome_mismatch(calls[c].expected, e.calls@[c].outcome.status@, e.calls@[c].outcome.output@) is None
}

/// The deployment succeeded and returned runtime code, and the execution made
/// the scenario's calls, each with its name and meeting its expectation.
pub open spec fn execution_meets(e: RuntimeExecution, calls: Seq<CallCase>) -> bool {
    &&& e.deploy.init.status@ == StatusModel::Success
    &&& e.deploy.runtime_bytecode@.len() > 0
    &&& e.calls@.len() == calls.len()
    &&& forall|c: int| 0 <= c < calls.len() ==> #[trigger] call_meets(e, calls, c)
}

/// Every execution meets the scenario.
pub open spec fn expectations_met(es: Seq<RuntimeExecution>, calls: Seq<CallCase>) -> bool {
    forall|x: int| 0 <= x < es.len() ==> #[trigger] execution_meets(es[x], calls)
}

/// The first way in which an execution fails the scenario.
#[derive(Debug, Clone, Copy, PartialEq, Eq, Structural)]
pub enum ExpectationFailure {
    DeployFailed { execution: usize },
    EmptyRuntime { execution: usize },
    CallCount { execution: usize },
    CallName { execution: usize, call: usize },
    Outcome { execution: usize, call: usize, mismatch: OutcomeMismatch },
}

/// The conditions under which `f` is what `check_runtime_expectations`
/// reports: the first check, in the order they are made, that fails.
pub open spec fn expectation_failure_is_first(
    es: Seq<RuntimeExecution>,
    calls: Seq<CallCase>,
    f: ExpectationFailure,
) -> bool {
    match f {
        ExpectationFailure::DeployFailed { execution } => {
            &&& execution < es.len()
            &&& forall|j: int| 0 <= j < execution ==> #[trigger] execution_meets(es[j], calls)
            &&& es[execution as int].deploy.init.status@ != StatusModel::Success
        },
        ExpectationFailure::EmptyRuntime { execution } => {
            &&& execution < es.len()
            &&& forall|j: int| 0 <= j < execution ==> #[trigger] execution_meets(es[j], calls)
            &&& es[execution as int].deploy.init.status@ == StatusModel::Success
            &&& es[execution as int].deploy.runtime_bytecode@.len() == 0
        },
        ExpectationFailure::CallCount { execution } => {
            &&& execution < es.len()
            &&& forall|j: int| 0 <= j < execution ==> #[trigger] execution_meets(es[j], calls)
            &&& es[execution as int].deploy.init.status@ == StatusModel::Success
            &&& es[execution as int].deploy.runtime_bytecode@.len() > 0
            &&& es[execution as int].calls@.len() != calls.len()
        },
        ExpectationFailure::CallName { execution, call } => {
            &&& execution < es.len()
            &&& forall|j: int| 0 <= j < execution ==> #[trigger] execution_meets(es[j], calls)
            &&& es[execution as int].deploy.init.status@ == StatusModel::Success
            &&& es[execution as int].deploy.runtime_bytecode@.len() > 0
            &&& es[execution as int].calls@.len() == calls.len()
            &&& call < calls.len()
            &&& forall|k: int| 0 <= k < call ==> #[trigger] call_meets(es[execution as int], calls, k)
            &&& es[execution as int].calls@[call as int].name@ != calls[call as int].name@
        },
        ExpectationFailure::Outcome { execution, call, mismatch } => {
            &&& execution < es.len()
            &&& forall|j: int| 0 <= j < execution ==> #[trigger] execution_meets(es[j], calls)
            &&& es[execution as int].deploy.init.status@ == StatusModel::Success
            &&& es[execution as int].deploy.runtime_bytecode@.len() > 0
            &&& es[execution as int].calls@.len() == calls.len()
            &&& call < calls.len()
            &&& forall|k: int| 0 <= k < call ==> #[trigger] call_meets(es[execution as int], calls, k)
            &&& es[execution as int].calls@[call as int].name@ == calls[call as int].name@
            &&& outcome_mismatch(
                calls[call as int].expected,
                es[execution as int].calls@[call as int].outcome.status@,
                es[execution as int].calls@[call as int].outcome.output@,
            ) == Some(mismatch)
        },
    }
}

/// Checks every execution against the scenario: the deployment succeeded
/// and returned runtime code, the execution made the scenario's calls, and
/// each call has its name and meets its expectation. Reports the first
/// failure.
pub fn check_runtime_expectations(executions: &[RuntimeExecution], calls: &[CallCase]) -> (r: Result<
    (),
    ExpectationFailure,
>)
    ensures
        r is Ok <==> expectations_met(executions@, calls@),
        r matches Err(f) ==> expectation_failure_is_first(executions@, calls@, f),
{
    let ghost es = executions@;
    let mut x: usize = 0;
    while x < executions.len()
        invariant
            es == executions@,
            x <= es.len(),
            forall|j: int| 0 <= j < x ==> #[trigger] execution_meets(es[j], calls@),
        decreases es.len() - x,
    {
        let execution = &executions[x];
        if !execution.deploy.init.status.is_success() {
            assert(!execution_meets(es[x as int], calls@));
            return Err(ExpectationFailure::DeployFailed { execution: x });
        }
        if execution.deploy.runtime_bytecode.len() == 0 {
            assert(!execution_meets(es[x as int], calls@));
            return Err(ExpectationFailure::EmptyRuntime { execution: x });
        }
        if execution.calls.len() != calls.len() {
            assert(!execution_meets(es[x as int], calls@));
            return Err(ExpectationFailure::CallCount { execution: x });
        }
        let mut c: usize = 0;
        while c < calls.len()
            invariant
                es == executions@,
                x < es.len(),
                execution == es[x as int],
                execution.calls@.len() == calls@.len(),
                execution.deploy.init.status@ == StatusModel::Success,
                execution.deploy.runtime_bytecode@.len() > 0,
                c <= calls@.len(),
                forall|j: int| 0 <= j < x ==> #[trigger] execution_meets(es[j], calls@),
                forall|k: int| 0 <= k < c ==> #[trigger] call_meets(es[x as int], calls@, k),
            decreases calls@.len() - c,
        {
            let actual = &execution.calls[c];
            let expected = &calls[c];
            if !actual.name.eq(&expected.name) {
                assert(!call_meets(es[x as int], calls@, c as int));
                assert(!execution_meets(es[x as int], calls@));
                return Err(ExpectationFailure::CallName { execution: x, call: c });
            }
            match expected.expected.check(&actual.outcome) {
                Ok(()) => {},
                Err(mismatch) => {
                    assert(!call_meets(es[x as int], calls@, c as int));
                    assert(!execution_meets(es[x as int], calls@));
                    return Err(ExpectationFailure::Outcome { execution: x, call: c, mismatch });
                },
            }
            assert(call_meets(es[x as int], calls@, c as int));
            c = c + 1;
        }
        assert(execution_meets(es[x as int], calls@));
        x = x + 1;
    }
    Ok(())
}

/// A single execution always matches itself: with one backend there is
/// nothing to compare, and the check passes.
pub proof fn lemma_single_execution_matches(e: RuntimeExecution)
    ensures
        runtime_calls_match(seq![e]),
{
}

/// Matching the first execution makes every two executions agree: they
/// deployed alike (output aside), made as many calls, and call by call have
/// the same names and behaviours.
pub proof fn lemma_calls_match_pairwise(es: Seq<RuntimeExecution>, x: int, y: int, c: int)
    requires
        runtime_calls_match(es),
        0 <= x < es.len(),
        0 <= y < es.len(),
    ensures
        deploy_behavior(es[x]) == deploy_behavior(es[y]),
        es[x].calls@.len() == es[y].calls@.len(),
        0 <= c < es[x].calls@.len() ==> es[x].calls@[c].name@ == es[y].calls@[c].name@,
        0 <= c < es[x].calls@.len() ==> es[x].calls@[c].outcome.behavior_model()
            == es[y].calls@[c].outcome.behavior_model(),
{
    if x > 0 {
        assert(header_matches(es, x));
    }
    if y > 0 {
        assert(header_matches(es, y));
    }
    if 0 <= c < es[x].calls@.len() {
        if x > 0 {
            assert(call_matches(es, x, c));
        }
        if y > 0 {
            assert(call_matches(es, y, c));
        }
    }
}

/// Two executions agree: they deployed alike (output aside), made as many
/// calls, and call by call have the same names and behaviours.
pub open spec fn executions_agree(a: RuntimeExecution, b: RuntimeExecution) -> bool {
    &&& deploy_behavior(a) == deploy_behavior(b)
    &&& a.calls@.len() == b.calls@.len()
    &&& forall|c: int|
        0 <= c < a.calls@.len() ==> (#[trigger] a.calls@[c]).name@ == b.calls@[c].name@
            && a.calls@[c].outcome.behavior_model() == b.calls@[c].outcome.behavior_model()
}

/// There is at least one execution and every two of them agree.
pub open spec fn all_agree(es: Seq<RuntimeExecution>) -> bool {
    &&& es.len() > 0
    &&& forall|x: int, y: int|
        0 <= x < es.len() && 0 <= y < es.len() ==> executions_agree(#[trigger] es[x], #[trigger] es[y])
}

proof fn lemma_match_is_all_agree(es: Seq<RuntimeExecution>)
    ensures
        runtime_calls_match(es) <==> all_agree(es),
{
    if runtime_calls_match(es) {
        assert forall|x: int, y: int| 0 <= x < es.len() && 0 <= y < es.len() implies executions_agree(
            #[trigger] es[x],
            #[trigger] es[y],
        ) by {
            assert forall|c: int| 0 <= c < es[x].calls@.len() implies (#[trigger] es[x].calls@[c]).name@
                == es[y].calls@[c].name@ && es[x].calls@[c].outcome.behavior_model()
                == es[y].calls@[c].outcome.behavior_model() by {
                lemma_calls_match_pairwise(es, x, y, c);
            }
            lemma_calls_match_pairwise(es, x, y, 0);
        }
    }
    if all_agree(es) {
        assert forall|x: int| 1 <= x < es.len() implies #[trigger] header_matches(es, x) by {
            assert(executions_agree(es[x], es[0]));
        }
        assert forall|c2: int, x2: int|
            0 <= c2 < es[0].calls@.len() && 1 <= x2 < es.len() && (c2 < es[0].calls@.len() as int || (c2
                == es[0].calls@.len() as int && x2 < 1)) implies #[trigger] call_matches(es, x2, c2) by {
            assert(executions_agree(es[x2], es[0]));
            assert(es[x2].calls@[c2].name@ == es[0].calls@[c2].name@);
        }
    }
}

proof fn lemma_all_agree_permuted(es: Seq<RuntimeExecution>, es2: Seq<RuntimeExecution>)
    requires
        all_agree(es),
        es2.to_multiset() == es.to_multiset(),
    ensures
        all_agree(es2),
{
    broadcast use vstd::seq_lib::group_to_multiset_ensures;

    es.to_multiset_ensures();
    es2.to_multiset_ensures();
    assert(es2.to_multiset().len() == es.to_multiset().len());
    assert(es2.len() == es.len());
    assert forall|x: int, y: int| 0 <= x < es2.len() && 0 <= y < es2.len() implies executions_agree(
        #[trigger] es2[x],
        #[trigger] es2[y],
    ) by {
        assert(es2.contains(es2[x]));
        assert(es2.contains(es2[y]));
        assert(es.to_multiset().count(es2[x]) > 0);
        assert(es.to_multiset().count(es2[y]) > 0);
        assert(es.contains(es2[x]));
        assert(es.contains(es2[y]));
        let i = choose|i: int| 0 <= i < es.len() && es[i] == es2[x];
        let j = choose|j: int| 0 <= j < es.len() && es[j] == es2[y];
        assert(executions_agree(es[i], es[j]));
    }
}

/// Whether the backends match does not depend on which execution comes
/// first: the check passes on the executions in one order if and only if it
/// passes on them in any other.
pub proof fn lemma_calls_match_any_order(es: Seq<RuntimeExecution>, es2: Seq<RuntimeExecution>)
    requires
        es2.to_multiset() == es.to_multiset(),
    ensures
        runtime_calls_match(es2) <==> runtime_calls_match(es),
{
    lemma_match_is_all_agree(es);
    lemma_match_is_all_agree(es2);
    if all_agree(es) {
        lemma_all_agree_permuted(es, es2);
    }
    if all_agree(es2) {
        lemma_all_agree_permuted(es2, es);
    }
}

/// An expectation looks only at what a call did, so when the backends
/// match, a call meets its expectation on one backend if and only if it
/// meets it on every backend.
pub proof fn lemma_matching_backends_meet_alike(
    es: Seq<RuntimeExecution>,
    calls: Seq<CallCase>,
    x: int,
    y: int,
    c: int,
)
    requires
        runtime_calls_match(es),
        0 <= x < es.len(),
        0 <= y < es.len(),
        0 <= c < calls.len(),
        c < es[x].calls@.len(),
    ensures
        call_meets(es[x], calls, c) <==> call_meets(es[y], calls, c),
{
    lemma_calls_match_pairwise(es, x, y, c);
    let bx = es[x].calls@[c].outcome.behavior_model();
    let by = es[y].calls@[c].outcome.behavior_model();
    assert(bx.status == by.status && bx.output == by.output);
}

/// Why a runtime scenario could not run.
#[derive(Debug)]
pub enum HarnessError {
    Compile(CompileError),
    Evm(EvmError),
}

/// The replies to a sequence of calls of `to`, each sent on the harness
/// that the earlier ones left, up to the first call that the EVM refuses,
/// whose error is the result.
pub open spec fn call_replies(m: HarnessModel, to: Seq<u8>, calls: Seq<CallCase>) -> Result<
    Seq<CallReply>,
    EvmError,
>
    decreases calls.len(),
{
    if calls.len() == 0 {
        Ok(Seq::empty())
    } else {
        match m.reply_to(to, calls[0].calldata@) {
            Err(e) => Err(e),
            Ok(reply) => prepend_reply(reply, call_replies(m.after(reply), to, calls.drop_first())),
        }
    }
}

/// Puts `reply` in front of the replies of a run, or keeps its error.
pub open spec fn prepend_reply(reply: CallReply, rest: Result<Seq<CallReply>, EvmError>) -> Result<
    Seq<CallReply>,
    EvmError,
> {
    prefix_replies(seq![reply], rest)
}

/// Puts `replies` in front of the replies of a run, or keeps its error.
pub open spec fn prefix_replies(replies: Seq<CallReply>, rest: Result<Seq<CallReply>, EvmError>) -> Result<
    Seq<CallReply>,
    EvmError,
> {
    match rest {
        Ok(rs) => Ok(replies + rs),
        Err(e) => Err(e),
    }
}

proof fn lemma_prefix_push(replies: Seq<CallReply>, rep: CallReply, rest: Result<Seq<CallReply>, EvmError>)
    ensures
        prefix_replies(replies, prefix_replies(seq![rep], rest)) == prefix_replies(replies.push(rep), rest),
{
    if let Ok(rs) = rest {
        assert(replies + (seq![rep] + rs) =~= replies.push(rep) + rs);
    }
}

proof fn lemma_prefix_empty(rest: Result<Seq<CallReply>, EvmError>)
    ensures
        prefix_replies(Seq::empty(), rest) == rest,
{
    if let Ok(rs) = rest {
        assert(Seq::<CallReply>::empty() + rs =~= rs);
    }
}

/// The initcode of a scenario: the compiled bytecode followed by the
/// constructor arguments.
pub open spec fn scenario_initcode(compiled: CompiledContract, constructor_args: Seq<u8>) -> Seq<u8> {
    compiled.bytecode@ + constructor_args
}

/// What running a scenario on one compiled contract gives, for the reply
/// of its deployment on a fresh harness: the deployment at the default
/// contract address, then, where the init code succeeded, the calls in
/// order on the harness it left; `None` where the code it returned cannot
/// be installed.
pub open spec fn scenario_result_is(
    r: Option<Result<RuntimeExecution, EvmError>>,
    compiled: CompiledContract,
    constructor_args: Seq<u8>,
    calls: Seq<CallCase>,
) -> bool {
    let address = Seq::new(20, |i: int| 0xCCu8);
    let initcode = scenario_initcode(compiled, constructor_args);
    let m1 = fresh_model().with_code(address, initcode);
    match m1.reply_to(address, Seq::empty()) {
        Err(e) => r == Some(Err::<RuntimeExecution, EvmError>(e)),
        Ok(reply) => if !runtime_installable(fresh_model(), address, initcode) {
            r is None
        } else {
            let m2 = deployed_model(fresh_model(), address, initcode, reply);
            let succeeded = reply.ending is Success;
            match (if succeeded { call_replies(m2, address, calls) } else { Ok(Seq::empty()) }) {
                Err(e) => r == Some(Err::<RuntimeExecution, EvmError>(e)),
                Ok(replies) => r matches Some(Ok(ex)) && {
                    &&& ex.backend == compiled.backend
                    &&& ex.initcode_bytes == initcode.len()
                    &&& ex.deploy.address@ == address
                    &&& ex.deploy.runtime_bytecode@ == ex.deploy.init.output@
                    &&& answers(ex.deploy.init, reply)
                    &&& ex.calls@.len() == replies.len()
                    &&& (succeeded ==> replies.len() == calls.len())
                    &&& forall|c: int|
                        0 <= c < replies.len() ==> (#[trigger] ex.calls@[c]).name@ == calls[c].name@
                            && answers(ex.calls@[c].outcome, replies[c])
                },
            }
        },
    }
}

/// Runs a scenario on one compiled contract, in a fresh EVM: deploys the
/// bytecode followed by the constructor arguments at the default contract
/// address and, where the deployment succeeded, makes the calls in order,
/// stopping at the first error. `None` where the init code returned runtime
/// code that the EVM cannot hold.
pub fn run_compiled_case(compiled: &CompiledContract, constructor_args: &[u8], calls: &[CallCase]) -> (r:
    Option<Result<RuntimeExecution, EvmError>>)
    requires
        compiled.bytecode@.len() + constructor_args@.len() <= usize::MAX,
        calls@.len() < u64::MAX,
        !malformed_delegation(compiled.bytecode@ + constructor_args@),
    ensures
        scenario_result_is(r, *compiled, constructor_args@, calls@),
{
    let ghost address = Seq::new(20, |i: int| 0xCCu8);
    let mut initcode = crate::evm::copy_bytes(&compiled.bytecode);
    append_bytes(&mut initcode, constructor_args);
    assert(initcode@ == scenario_initcode(*compiled, constructor_args@));
    let mut evm = EvmHarness::new();
    let contract = default_contract();
    let deploy = match evm.try_deploy_at(contract, &initcode) {
        Some(Ok(d)) => d,
        Some(Err(e)) => return Some(Err(e)),
        None => return None,
    };
    let ghost reply = fresh_model().with_code(address, initcode@).reply_to(address, Seq::empty())->Ok_0;
    let ghost m2 = evm.model();
    let mut call_executions: Vec<CallExecution> = Vec::new();
    let ghost mut replies: Seq<CallReply> = Seq::empty();
    if deploy.init.status.is_success() {
        proof {
            assert(calls@.skip(0) =~= calls@);
            lemma_prefix_empty(call_replies(m2, address, calls@));
        }
        let mut i: usize = 0;
        while i < calls.len()
            invariant
                i <= calls@.len(),
                calls@.len() < u64::MAX,
                evm.model().nonce == i + 1,
                contract@ == address,
                address == Seq::new(20, |k: int| 0xCCu8),
                initcode@ == scenario_initcode(*compiled, constructor_args@),
                fresh_model().with_code(address, initcode@).reply_to(address, Seq::empty()) == Ok::<
                    CallReply,
                    EvmError,
                >(reply),
                runtime_installable(fresh_model(), address, initcode@),
                m2 == deployed_model(fresh_model(), address, initcode@, reply),
                reply.ending is Success,
                call_executions@.len() == i,
                replies.len() == i,
                forall|c: int|
                    0 <= c < i ==> (#[trigger] call_executions@[c]).name@ == calls@[c].name@
                        && answers(call_executions@[c].outcome, replies[c]),
                call_replies(m2, address, calls@) == prefix_replies(
                    replies,
                    call_replies(evm.model(), address, calls@.skip(i as int)),
                ),
            decreases calls@.len() - i,
        {
            let ghost before = evm.model();
            let ghost rest = calls@.skip(i as int);
            assert(rest[0] == calls@[i as int]);
            assert(rest.drop_first() =~= calls@.skip(i + 1));
            let outcome = match evm.call(contract, &calls[i].calldata) {
                Ok(o) => o,
                Err(e) => {
                    return Some(Err(e));
                },
            };
            proof {
                let rep = before.reply_to(address, calls@[i as int].calldata@)->Ok_0;
                lemma_prefix_push(replies, rep, call_replies(evm.model(), address, calls@.skip(i + 1)));
                replies = replies.push(rep);
            }
            call_executions.push(CallExecution { name: calls[i].name.clone(), outcome });
            i = i + 1;
        }
        assert(calls@.skip(i as int) =~= Seq::<CallCase>::empty());
        assert(replies + Seq::<CallReply>::empty() =~= replies);
    }
    Some(Ok(RuntimeExecution {
        backend: compiled.backend,
        initcode_bytes: initcode.len(),
        deploy,
        calls: call_executions,
    }))
}

/// The contract that a backend's scenario deploys: the compiled bytecode,
/// under that backend.
pub open spec fn as_backend(c: CompiledContract, backend: BackendCase) -> CompiledContract {
    CompiledContract { backend, bytecode: c.bytecode }
}

/// Whether the initcode of a scenario fits in memory and is code that the
/// EVM can hold.
pub open spec fn initcode_ok(c: CompiledContract, constructor_args: Seq<u8>) -> bool {
    &&& c.bytecode@.len() + constructor_args.len() <= usize::MAX
    &&& !malformed_delegation(scenario_initcode(c, constructor_args))
}

/// A backend whose compile result is `c` ran its scenario to the end, and
/// `ex` is what it gave.
pub open spec fn backend_ran(
    ex: RuntimeExecution,
    c: Result<CompiledContract, CompileError>,
    backend: BackendCase,
    constructor_args: Seq<u8>,
    calls: Seq<CallCase>,
) -> bool {
    c matches Ok(cc) && initcode_ok(cc, constructor_args) && scenario_result_is(
        Some(Ok(ex)),
        as_backend(cc, backend),
        constructor_args,
        calls,
    )
}

/// A backend whose compile result is `c` ran its scenario to the end.
pub open spec fn ran_to_end(
    c: Result<CompiledContract, CompileError>,
    backend: BackendCase,
    constructor_args: Seq<u8>,
    calls: Seq<CallCase>,
) -> bool {
    exists|ex: RuntimeExecution| #[trigger] backend_ran(ex, c, backend, constructor_args, calls)
}

/// What running a scenario over the backends gives, for the compile results
/// of the backends that the run reached, in order: every backend before the
/// last one reached ran to the end; the run stops at the first compile
/// error, the first EVM error, or the first deployment whose code the EVM
/// cannot hold (`None`); where none stops it, it gives every backend's
/// execution, in order.
pub open spec fn runtime_run_is(
    r: Option<Result<Vec<RuntimeExecution>, HarnessError>>,
    compiled: Seq<Result<CompiledContract, CompileError>>,
    constructor_args: Seq<u8>,
    calls: Seq<CallCase>,
    backends: Seq<BackendCase>,
) -> bool {
    let n = compiled.len();
    let ran_before = forall|k: int|
        0 <= k < n - 1 ==> #[trigger] ran_to_end(compiled[k], backends[k], constructor_args, calls);
    &&& n <= backends.len()
    &&& match r {
        Some(Ok(es)) => {
            &&& n == backends.len()
            &&& es@.len() == n
            &&& forall|k: int|
                0 <= k < n ==> backend_ran(#[trigger] es@[k], compiled[k], backends[k], constructor_args, calls)
        },
        Some(Err(HarnessError::Compile(e))) => n > 0 && ran_before && compiled[n - 1] == Err::<
            CompiledContract,
            CompileError,
        >(e),
        Some(Err(HarnessError::Evm(e))) => {
            &&& n > 0
            &&& ran_before
            &&& compiled[n - 1] matches Ok(cc) && initcode_ok(cc, constructor_args)
                && scenario_result_is(Some(Err(e)), as_backend(cc, backends[n - 1]), constructor_args, calls)
        },
        None => {
            &&& n > 0
            &&& ran_before
            &&& compiled[n - 1] matches Ok(cc) && (!initcode_ok(cc, constructor_args)
                || scenario_result_is(None, as_backend(cc, backends[n - 1]), constructor_args, calls))
        },
    }
}

/// Compiles the fixture with each backend in turn, through `compile`, and
/// runs the scenario on each compiled contract in a fresh EVM; stops at the
/// first error. `None` where a deployment's code is a malformed delegation,
/// which the EVM cannot hold, or the initcode does not fit in memory.
pub fn run_runtime_case<F: Fn(BackendCase) -> Result<CompiledContract, CompileError>>(
    compile: F,
    constructor_args: &[u8],
    calls: &[CallCase],
    backends: &[BackendCase],
) -> (r: Option<Result<Vec<RuntimeExecution>, HarnessError>>)
    requires
        forall|b: BackendCase| call_requires(compile, (b,)),
        calls@.len() < u64::MAX,
    ensures
        exists|compiled: Seq<Result<CompiledContract, CompileError>>|
            {
                &&& compiled.len() <= backends@.len()
                &&& forall|k: int|
                    0 <= k < compiled.len() ==> call_ensures(compile, (backends@[k],), #[trigger] compiled[k])
                &&& runtime_run_is(r, compiled, constructor_args@, calls@, backends@)
            },
{
    let mut executions: Vec<RuntimeExecution> = Vec::new();
    let ghost mut compiled: Seq<Result<CompiledContract, CompileError>> = Seq::empty();
    let mut i: usize = 0;
    while i < backends.len()
        invariant
            forall|b: BackendCase| call_requires(compile, (b,)),
            calls@.len() < u64::MAX,
            i <= backends@.len(),
            compiled.len() == i,
            executions@.len() == i,
            forall|k: int|
                0 <= k < compiled.len() ==> call_ensures(compile, (backends@[k],), #[trigger] compiled[k]),
            forall|k: int|
                0 <= k < i ==> backend_ran(
                    #[trigger] executions@[k],
                    compiled[k],
                    backends@[k],
                    constructor_args@,
                    calls@,
                ),
        decreases backends@.len() - i,
    {
        let backend = backends[i];
        let result = compile(backend);
        proof {
            compiled = compiled.push(result);
            assert forall|k: int| 0 <= k < compiled.len() - 1 implies #[trigger] ran_to_end(
                compiled[k],
                backends@[k],
                constructor_args@,
                calls@,
            ) by {
                assert(backend_ran(executions@[k], compiled[k], backends@[k], constructor_args@, calls@));
            }
        }
        let contract = match result {
            Ok(c) => CompiledContract { backend, bytecode: c.bytecode },
            Err(e) => {
                let r = Some(Err(HarnessError::Compile(e)));
                proof {
                    assert(runtime_run_is(r, compiled, constructor_args@, calls@, backends@));
                }
                return r;
            },
        };
        if contract.bytecode.len() > usize::MAX - constructor_args.len() {
            proof {
                assert(runtime_run_is(None, compiled, constructor_args@, calls@, backends@));
            }
            return None;
        }
        let mut initcode = crate::evm::copy_bytes(&contract.bytecode);
        append_bytes(&mut initcode, constructor_args);
        if crate::harness::is_malformed_delegation(&initcode) {
            proof {
                assert(runtime_run_is(None, compiled, constructor_args@, calls@, backends@));
            }
            return None;
        }
        let execution = match run_compiled_case(&contract, constructor_args, calls) {
            Some(Ok(ex)) => ex,
            Some(Err(e)) => {
                let r = Some(Err(HarnessError::Evm(e)));
                proof {
                    assert(runtime_run_is(r, compiled, constructor_args@, calls@, backends@));
                }
                return r;
            },
            None => {
                proof {
                    assert(runtime_run_is(None, compiled, constructor_args@, calls@, backends@));
                }
                return None;
            },
        };
        executions.push(execution);
        i = i + 1;
    }
    proof {
        assert(runtime_run_is(Some(Ok(executions)), compiled, constructor_args@, calls@, backends@));
    }
    Some(Ok(executions))
}

/// Two executions are the same: backend, initcode size, deployment and
/// calls, outcome by outcome.
pub open spec fn execution_same(a: RuntimeExecution, b: RuntimeExecution) -> bool {
    &&& a.backend == b.backend
    &&& a.initcode_bytes == b.initcode_bytes
    &&& a.deploy.address@ == b.deploy.address@
    &&& a.deploy.runtime_bytecode@ == b.deploy.runtime_bytecode@
    &&& outcome_same(a.deploy.init, b.deploy.init)
    &&& a.calls@.len() == b.calls@.len()
    &&& forall|c: int|
        0 <= c < a.calls@.len() ==> (#[trigger] a.calls@[c]).name@ == b.calls@[c].name@ && outcome_same(
            a.calls@[c].outcome,
            b.calls@[c].outcome,
        )
}

/// Running a scenario on one compiled contract gives one result: where two
/// runs are both described, they both ran to the end or neither did, and
/// where both did, their executions are the same.
pub proof fn lemma_scenario_result_unique(
    r1: Option<Result<RuntimeExecution, EvmError>>,
    r2: Option<Result<RuntimeExecution, EvmError>>,
    compiled: CompiledContract,
    constructor_args: Seq<u8>,
    calls: Seq<CallCase>,
)
    requires
        scenario_result_is(r1, compiled, constructor_args, calls),
        scenario_result_is(r2, compiled, constructor_args, calls),
    ensures
        (r1 matches Some(Ok(_))) == (r2 matches Some(Ok(_))),
        r1 matches Some(Ok(e1)) ==> (r2 matches Some(Ok(e2)) && execution_same(e1, e2)),
{
    let address = Seq::new(20, |i: int| 0xCCu8);
    let initcode = scenario_initcode(compiled, constructor_args);
    let m1 = fresh_model().with_code(address, initcode);
    if let (Some(Ok(e1)), Some(Ok(e2))) = (r1, r2) {
        let reply = m1.reply_to(address, Seq::empty())->Ok_0;
        lemma_answer_unique(e1.deploy.init, e2.deploy.init, reply);
        let m2 = deployed_model(fresh_model(), address, initcode, reply);
        let succeeded = reply.ending is Success;
        let replies = (if succeeded { call_replies(m2, address, calls) } else { Ok(Seq::empty()) })->Ok_0;
        assert forall|c: int| 0 <= c < e1.calls@.len() implies (#[trigger] e1.calls@[c]).name@ == e2.calls@[c].name@
            && outcome_same(e1.calls@[c].outcome, e2.calls@[c].outcome) by {
            lemma_answer_unique(e1.calls@[c].outcome, e2.calls@[c].outcome, replies[c]);
        }
    }
}

/// Each backend runs on its own fresh EVM. Where the compile step gives a
/// backend the same result each time, what a run over several backends
/// gives for one of them is what a run over that backend alone gives: the
/// lone run ends with one execution, the same as that backend's.
pub proof fn lemma_backend_runs_alone(
    es: Vec<RuntimeExecution>,
    compiled: Seq<Result<CompiledContract, CompileError>>,
    alone: Option<Result<Vec<RuntimeExecution>, HarnessError>>,
    compiled_alone: Seq<Result<CompiledContract, CompileError>>,
    constructor_args: Seq<u8>,
    calls: Seq<CallCase>,
    backends: Seq<BackendCase>,
    i: int,
)
    requires
        runtime_run_is(Some(Ok(es)), compiled, constructor_args, calls, backends),
        runtime_run_is(alone, compiled_alone, constructor_args, calls, seq![backends[i]]),
        0 <= i < es@.len(),
        forall|k: int| 0 <= k < compiled_alone.len() ==> compiled_alone[k] == compiled[i],
    ensures
        alone matches Some(Ok(es1)) && es1@.len() == 1 && execution_same(es1@[0], es@[i]),
{
    assert(backend_ran(es@[i], compiled[i], backends[i], constructor_args, calls));
    let cc = compiled[i]->Ok_0;
    let contract = as_backend(cc, backends[i]);
    assert(compiled_alone.len() == 1);
    assert(compiled_alone[0] == compiled[i]);
    assert(seq![backends[i]][0] == backends[i]);
    match alone {
        Some(Ok(es1)) => {
            assert(backend_ran(es1@[0], compiled_alone[0], seq![backends[i]][0], constructor_args, calls));
            lemma_scenario_result_unique(
                Some(Ok(es1@[0])),
                Some(Ok(es@[i])),
                contract,
                constructor_args,
                calls,
            );
        },
        Some(Err(HarnessError::Compile(e))) => {},
        Some(Err(HarnessError::Evm(e))) => {
            lemma_scenario_result_unique(
                Some(Err(e)),
                Some(Ok(es@[i])),
                contract,
                constructor_args,
                calls,
            );
        },
        None => {
            if initcode_ok(cc, constructor_args) {
                lemma_scenario_result_unique(None, Some(Ok(es@[i])), contract, constructor_args, calls);
            }
        },
    }
}

/// The harnesses that a sequence of calls of `to` goes through: the one it
/// starts on, then each that a call left, up to the first call the EVM
/// refuses.
spec fn models_along(m: HarnessModel, to: Seq<u8>, calls: Seq<CallCase>) -> Seq<HarnessModel>
    decreases calls.len(),
{
    if calls.len() == 0 {
        seq![m]
    } else {
        match m.reply_to(to, calls[0].calldata@) {
            Ok(rep) => seq![m] + models_along(m.after(rep), to, calls.drop_first()),
            Err(_) => seq![m],
        }
    }
}

proof fn lemma_replies_threaded(m: HarnessModel, to: Seq<u8>, calls: Seq<CallCase>)
    requires
        call_replies(m, to, calls) is Ok,
    ensures
        ({
            let rs = call_replies(m, to, calls)->Ok_0;
            let ms = models_along(m, to, calls);
            &&& rs.len() == calls.len()
            &&& ms.len() == calls.len() + 1
            &&& ms[0] == m
            &&& forall|c: int|
                0 <= c < calls.len() ==> ms[c].reply_to(to, (#[trigger] calls[c]).calldata@) == Ok::<
                    CallReply,
                    EvmError,
                >(rs[c]) && ms[c + 1] == ms[c].after(rs[c])
        }),
    decreases calls.len(),
{
    if calls.len() > 0 {
        let rep = m.reply_to(to, calls[0].calldata@)->Ok_0;
        let rest = calls.drop_first();
        lemma_replies_threaded(m.after(rep), to, rest);
        let rs = call_replies(m, to, calls)->Ok_0;
        let rs2 = call_replies(m.after(rep), to, rest)->Ok_0;
        let ms = models_along(m, to, calls);
        let ms2 = models_along(m.after(rep), to, rest);
        assert(rs == seq![rep] + rs2);
        assert(ms == seq![m] + ms2);
        assert forall|c: int| 0 <= c < calls.len() implies ms[c].reply_to(to, (#[trigger] calls[c]).calldata@)
            == Ok::<CallReply, EvmError>(rs[c]) && ms[c + 1] == ms[c].after(rs[c]) by {
            if c > 0 {
                assert(calls[c] == rest[c - 1]);
                assert(ms[c] == ms2[c - 1]);
                assert(ms[c + 1] == ms2[c]);
                assert(rs[c] == rs2[c - 1]);
            }
        }
    }
}

/// Each call of a scenario is sent to the deployed contract with its own
/// calldata, in order: where the deployment of the bytecode followed by the
/// constructor arguments succeeded, the outcome of call `c` answers the
/// EVM's reply to `calls[c].calldata` on the harness that the deployment
/// and the calls before it left.
pub proof fn lemma_calls_carry_their_calldata(
    r: Option<Result<RuntimeExecution, EvmError>>,
    compiled: CompiledContract,
    constructor_args: Seq<u8>,
    calls: Seq<CallCase>,
)
    requires
        scenario_result_is(r, compiled, constructor_args, calls),
    ensures
        match r {
            Some(Ok(ex)) => ex.deploy.init.status@ == StatusModel::Success ==> {
            let address = Seq::new(20, |i: int| 0xCCu8);
            let initcode = compiled.bytecode@ + constructor_args;
            let deployment = fresh_model().with_code(address, initcode).reply_to(address, Seq::empty());
            exists|ms: Seq<HarnessModel>, reps: Seq<CallReply>|
                #![trigger ms.len(), reps.len()]
                {
                    &&& deployment matches Ok(d) && ms[0] == deployed_model(fresh_model(), address, initcode, d)
                    &&& ms.len() == calls.len() + 1
                    &&& reps.len() == calls.len()
                    &&& ex.calls@.len() == calls.len()
                    &&& forall|c: int|
                        0 <= c < calls.len() ==> {
                            &&& ms[c].reply_to(address, (#[trigger] calls[c]).calldata@) == Ok::<
                                CallReply,
                                EvmError,
                            >(reps[c])
                            &&& ms[c + 1] == ms[c].after(reps[c])
                            &&& ex.calls@[c].name@ == calls[c].name@
                            &&& answers(ex.calls@[c].outcome, reps[c])
                        }
                }
            },
            _ => true,
        },
{
    if let Some(Ok(ex)) = r {
        if ex.deploy.init.status@ == StatusModel::Success {
            let address = Seq::new(20, |i: int| 0xCCu8);
            let initcode = compiled.bytecode@ + constructor_args;
            assert(initcode == scenario_initcode(compiled, constructor_args));
            let m1 = fresh_model().with_code(address, initcode);
            let d = m1.reply_to(address, Seq::empty())->Ok_0;
            assert(d.ending is Success);
            let m2 = deployed_model(fresh_model(), address, initcode, d);
            lemma_replies_threaded(m2, address, calls);
            let ms = models_along(m2, address, calls);
            let reps = call_replies(m2, address, calls)->Ok_0;
            assert forall|c: int| 0 <= c < calls.len() implies {
                &&& ms[c].reply_to(address, (#[trigger] calls[c]).calldata@) == Ok::<CallReply, EvmError>(reps[c])
                &&& ms[c + 1] == ms[c].after(reps[c])
                &&& ex.calls@[c].name@ == calls[c].name@
                &&& answers(ex.calls@[c].outcome, reps[c])
            } by {
                assert(ex.calls@[c].name@ == calls[c].name@ && answers(ex.calls@[c].outcome, reps[c]));
            }
        }
    }
}

/// Matching backends had the same effects: call by call, the same status,
/// output, logs and storage changes as the first backend, and a deployment
/// with the same status, logs and storage changes.
pub proof fn lemma_matching_calls_same_effects(es: Seq<RuntimeExecution>, x: int, c: int)
    requires
        runtime_calls_match(es),
        0 <= x < es.len(),
    ensures
        es[x].calls@.len() == es[0].calls@.len(),
        es[x].deploy.init.status@ == es[0].deploy.init.status@,
        es[x].deploy.init.logs@.map_values(|l: EvmLog| l@) == es[0].deploy.init.logs@.map_values(
            |l: EvmLog| l@,
        ),
        es[x].deploy.init.storage_changes@ == es[0].deploy.init.storage_changes@,
        0 <= c < es[0].calls@.len() ==> {
            let a = es[x].calls@[c].outcome;
            let b = es[0].calls@[c].outcome;
            &&& es[x].calls@[c].name@ == es[0].calls@[c].name@
            &&& a.status@ == b.status@
            &&& a.output@ == b.output@
            &&& a.logs@.map_values(|l: EvmLog| l@) == b.logs@.map_values(|l: EvmLog| l@)
            &&& a.storage_changes@ == b.storage_changes@
        },
{
    lemma_calls_match_pairwise(es, x, 0, c);
    crate::evm::lemma_behavior_keeps_effects(es[x].deploy.init);
    crate::evm::lemma_behavior_keeps_effects(es[0].deploy.init);
    if 0 <= c < es[0].calls@.len() {
        crate::evm::lemma_behavior_keeps_effects(es[x].calls@[c].outcome);
        crate::evm::lemma_behavior_keeps_effects(es[0].calls@[c].outcome);
    }
}

/// What each expectation asks of an outcome: a revert; any success; a
/// success with no output; a success with exactly the 32-byte big-endian
/// word; a success with exactly the given bytes; a success with one word
/// that is not zero.
pub proof fn lemma_expectation_met(e: ExpectedOutcome, status: StatusModel, output: Seq<u8>)
    ensures
        (outcome_mismatch(e, status, output) is None) <==> match e {
            ExpectedOutcome::Revert => status == StatusModel::Revert,
            ExpectedOutcome::AnySuccess => status == StatusModel::Success,
            ExpectedOutcome::SuccessEmpty => status == StatusModel::Success && output.len() == 0,
            ExpectedOutcome::SuccessWord(w) => status == StatusModel::Success && output == word_bytes(
                w as nat,
            ),
            ExpectedOutcome::SuccessBytes(b) => status == StatusModel::Success && output == b@,
            ExpectedOutcome::SuccessNonZeroWord => status == StatusModel::Success && output.len() == 32
                && exists|k: int| 0 <= k < 32 && output[k] != 0u8,
        },
{
    if let ExpectedOutcome::SuccessEmpty = e {
        if output.len() == 0 {
            assert(output =~= Seq::<u8>::empty());
        }
    }
    if let ExpectedOutcome::SuccessNonZeroWord = e {
        if status == StatusModel::Success && output.len() == 32 {
            if output == zero_word() {
                assert(forall|k: int| 0 <= k < 32 ==> output[k] == 0u8);
            } else {
                assert(!(output =~= zero_word()));
                let k = choose|k: int| 0 <= k < 32 && output[k] != zero_word()[k];
                assert(output[k] != 0u8);
            }
        }
    }
}

} // verus!
