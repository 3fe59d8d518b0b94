use plank_bytecode_tests::text::json_string;
use plank_bytecode_tests::{
    sir_csud, sona_o2, CallExecution, DeployOutcome, ExecutionOutcome, GasReport, GasReportRow,
    RuntimeExecution, TransactionResult,
};

fn outcome(gas: u64) -> ExecutionOutcome {
    ExecutionOutcome::from_result(TransactionResult::Success { output: vec![] }, vec![], &[], gas)
}

fn execution(sir: bool, deploy_gas: u64, call_gas: &[u64]) -> RuntimeExecution {
    RuntimeExecution {
        backend: if sir { sir_csud() } else { sona_o2() },
        initcode_bytes: if sir { 120 } else { 90 },
        deploy: DeployOutcome {
            address: [0xCC; 20],
            runtime_bytecode: vec![0; if sir { 100 } else { 70 }],
            init: outcome(deploy_gas),
        },
        calls: call_gas
            .iter()
            .enumerate()
            .map(|(i, g)| CallExecution { name: format!("c{i}"), outcome: outcome(*g) })
            .collect(),
    }
}

fn phases(report: &GasReport) -> Vec<(String, String)> {
    report.rows.iter().map(|r| (r.backend.clone(), r.phase.clone())).collect()
}

#[test]
fn push_runtime_adds_deploy_then_calls() {
    let mut report = GasReport::new();
    report.push_runtime("erc20", &execution(true, 60_000, &[21_500, 22_000]));
    assert_eq!(
        phases(&report),
        vec![
            ("sir-csud".to_string(), "deploy".to_string()),
            ("sir-csud".to_string(), "call:c0".to_string()),
            ("sir-csud".to_string(), "call:c1".to_string()),
        ]
    );
    assert_eq!(report.rows[0].gas_used_minus_tx_base, 39_000);
    assert_eq!(report.rows[1].gas_used_minus_tx_base, 500);
    assert_eq!(report.rows[2].gas_used_minus_tx_base, 1_000);
    assert_eq!(report.rows[0].initcode_bytes, 120);
    assert_eq!(report.rows[0].runtime_bytecode_bytes, 100);
    assert_eq!(report.rows[0].scenario, "erc20");
}

#[test]
fn push_runtime_executions_interleaves_calls_by_index() {
    let mut report = GasReport::new();
    report.push_runtime_executions(
        "s",
        &[execution(true, 30_000, &[21_000, 21_001]), execution(false, 31_000, &[21_002, 21_003])],
    );
    assert_eq!(
        phases(&report),
        vec![
            ("sir-csud".to_string(), "deploy".to_string()),
            ("sona-o2".to_string(), "deploy".to_string()),
            ("sir-csud".to_string(), "call:c0".to_string()),
            ("sona-o2".to_string(), "call:c0".to_string()),
            ("sir-csud".to_string(), "call:c1".to_string()),
            ("sona-o2".to_string(), "call:c1".to_string()),
        ]
    );
    let gas: Vec<u64> = report.rows.iter().map(|r| r.gas_used_minus_tx_base).collect();
    assert_eq!(gas, vec![9_000, 10_000, 0, 2, 1, 3]);
    let mut empty = GasReport::new();
    empty.push_runtime_executions("s", &[]);
    assert!(empty.rows.is_empty());
}

fn row(scenario: &str, backend: &str, phase: &str, init: usize, runtime: usize, gas: u64) -> GasReportRow {
    GasReportRow {
        scenario: scenario.to_string(),
        backend: backend.to_string(),
        phase: phase.to_string(),
        initcode_bytes: init,
        runtime_bytecode_bytes: runtime,
        gas_used_minus_tx_base: gas,
    }
}

#[test]
fn markdown_table_has_header_and_one_line_per_row() {
    let report = GasReport {
        rows: vec![row("erc20-v1", "sir-csud", "deploy", 1200, 1100, 345_678), row("erc20-v1", "sona-o2", "call:name", 0, 9, 0)],
    };
    assert_eq!(
        report.to_markdown(),
        "| scenario | backend | phase | init bytes | runtime bytes | gas used (-21000 tx base) |\n\
         | --- | --- | --- | ---: | ---: | ---: |\n\
         | erc20-v1 | sir-csud | deploy | 1200 | 1100 | 345678 |\n\
         | erc20-v1 | sona-o2 | call:name | 0 | 9 | 0 |\n"
    );
    assert_eq!(
        GasReport::new().to_markdown(),
        "| scenario | backend | phase | init bytes | runtime bytes | gas used (-21000 tx base) |\n\
         | --- | --- | --- | ---: | ---: | ---: |\n"
    );
}

#[test]
fn json_lists_rows_with_escaped_strings() {
    let report = GasReport {
        rows: vec![row("a\"b", "sir-csud", "deploy", 10, 20, 30), row("s", "sona-o2", "call:x", 1, 2, 3)],
    };
    assert_eq!(
        report.to_json(),
        "{\n  \"transaction_base_gas_subtracted\": 21000,\n  \"rows\": [\n\
         \x20   {\"scenario\": \"a\\\"b\", \"backend\": \"sir-csud\", \"phase\": \"deploy\", \"initcode_bytes\": 10, \"runtime_bytecode_bytes\": 20, \"gas_used_minus_tx_base\": 30},\n\
         \x20   {\"scenario\": \"s\", \"backend\": \"sona-o2\", \"phase\": \"call:x\", \"initcode_bytes\": 1, \"runtime_bytecode_bytes\": 2, \"gas_used_minus_tx_base\": 3}\n  ]\n}\n"
    );
    assert_eq!(
        GasReport::new().to_json(),
        "{\n  \"transaction_base_gas_subtracted\": 21000,\n  \"rows\": [\n\n  ]\n}\n"
    );
}

#[test]
fn json_string_escapes_quotes_backslashes_and_controls() {
    assert_eq!(json_string("plain"), "\"plain\"");
    assert_eq!(json_string("a\"b\\c"), "\"a\\\"b\\\\c\"");
    assert_eq!(json_string("l1\nl2\r\t"), "\"l1\\nl2\\r\\t\"");
    assert_eq!(json_string("\u{1}\u{7f}\u{9f}\u{a0}é"), "\"\\u0001\\u007f\\u009f\u{a0}é\"");
    assert_eq!(json_string(""), "\"\"");
}

#[test]
fn default_report_is_empty_like_new() {
    assert!(GasReport::default().rows.is_empty());
    assert_eq!(GasReport::default().rows.len(), GasReport::new().rows.len());
}
