//! Gas reports: one row per deployment and per call, for each backend, as a
//! Markdown table or as JSON.

use crate::assertions::{CallExecution, RuntimeExecution};
use crate::evm::BASE_TRANSACTION_GAS;
use crate::json::{
    all_ws, items_text, json_parse, lemma_document, lemma_reads_array, lemma_reads_empty_array,
    lemma_reads_number, lemma_reads_object, lemma_reads_string, members_text, reads_as, separator,
    member_text, zip_members, Json,
};
use crate::text::{decimal, json_escape_all, json_quoted, json_string, push_char, push_decimal};
use vstd::prelude::*;

verus! {

/// The gas and code sizes of one deployment or one call.
#[derive(Debug, Clone)]
pub struct GasReportRow {
    pub scenario: String,
    pub backend: String,
    pub phase: String,
    pub initcode_bytes: usize,
    pub runtime_bytecode_bytes: usize,
    pub gas_used_minus_tx_base: u64,
}

/// The mathematical content of a report row.
pub struct RowModel {
    pub scenario: Seq<char>,
    pub backend: Seq<char>,
    pub phase: Seq<char>,
    pub initcode_bytes: usize,
    pub runtime_bytecode_bytes: usize,
    pub gas_used_minus_tx_base: u64,
}

impl View for GasReportRow {
    type V = RowModel;

    open spec fn view(&self) -> RowModel {
        RowModel {
            scenario: self.scenario@,
            backend: self.backend@,
            phase: self.phase@,
            initcode_bytes: self.initcode_bytes,
            runtime_bytecode_bytes: self.runtime_bytecode_bytes,
            gas_used_minus_tx_base: self.gas_used_minus_tx_base,
        }
    }
}

/// Rows of gas measurements, in the order they were added.
#[derive(Debug, Clone)]
pub struct GasReport {
    pub rows: Vec<GasReportRow>,
}

impl Default for GasReport {
    /// An empty report, as `GasReport::new` makes it.
    fn default() -> (r: GasReport)
        ensures
            r.rows@.len() == 0,
            r@ == Seq::<RowModel>::empty(),
    {
        GasReport::new()
    }
}

pub open spec fn rows_model(rows: Seq<GasReportRow>) -> Seq<RowModel> {
    rows.map_values(|r: GasReportRow| r@)
}

impl View for GasReport {
    type V = Seq<RowModel>;

    open spec fn view(&self) -> Seq<RowModel> {
        rows_model(self.rows@)
    }
}

/// Every deployment and call of the execution used at least the
/// transaction's base gas, as every transaction does.
pub open spec fn gas_covers_base(e: RuntimeExecution) -> bool {
    &&& e.deploy.init.gas_used >= BASE_TRANSACTION_GAS
    &&& forall|c: int| 0 <= c < e.calls@.len() ==> #[trigger] e.calls@[c].outcome.gas_used
        >= BASE_TRANSACTION_GAS
}

/// The row of an execution's deployment.
pub open spec fn deploy_row(scenario: Seq<char>, e: RuntimeExecution) -> RowModel {
    RowModel {
        scenario,
        backend: e.backend.name@,
        phase: "deploy"@,
        initcode_bytes: e.initcode_bytes,
        runtime_bytecode_bytes: e.deploy.runtime_bytecode@.len() as usize,
        gas_used_minus_tx_base: (e.deploy.init.gas_used - BASE_TRANSACTION_GAS) as u64,
    }
}

/// The row of one of an execution's calls.
pub open spec fn call_row(scenario: Seq<char>, e: RuntimeExecution, call: CallExecution) -> RowModel {
    RowModel {
        scenario,
        backend: e.backend.name@,
        phase: "call:"@ + call.name@,
        initcode_bytes: e.initcode_bytes,
        runtime_bytecode_bytes: e.deploy.runtime_bytecode@.len() as usize,
        gas_used_minus_tx_base: (call.outcome.gas_used - BASE_TRANSACTION_GAS) as u64,
    }
}

/// The rows of the first `n` calls of one execution.
pub open spec fn call_rows(scenario: Seq<char>, e: RuntimeExecution, n: nat) -> Seq<RowModel>
    decreases n,
{
    if n == 0 {
        Seq::empty()
    } else {
        call_rows(scenario, e, (n - 1) as nat).push(
            call_row(scenario, e, e.calls@[n - 1]),
        )
    }
}

/// The deployment rows of several executions, in their order.
pub open spec fn deploy_rows(scenario: Seq<char>, es: Seq<RuntimeExecution>) -> Seq<RowModel> {
    es.map_values(|e: RuntimeExecution| deploy_row(scenario, e))
}

/// The rows of call `c` of several executions, in their order.
pub open spec fn call_rows_at(scenario: Seq<char>, es: Seq<RuntimeExecution>, c: int) -> Seq<RowModel> {
    es.map_values(|e: RuntimeExecution| call_row(scenario, e, e.calls@[c]))
}

/// The rows of the first `n` calls of several executions: call by call, and
/// for each call execution by execution.
pub open spec fn interleaved_call_rows(scenario: Seq<char>, es: Seq<RuntimeExecution>, n: nat) -> Seq<
    RowModel,
>
    decreases n,
{
    if n == 0 {
        Seq::empty()
    } else {
        interleaved_call_rows(scenario, es, (n - 1) as nat) + call_rows_at(scenario, es, n - 1)
    }
}

/// The gas used beyond the transaction's base gas.
fn subtract_tx_base(gas_used: u64) -> (g: u64)
    requires
        gas_used >= BASE_TRANSACTION_GAS,
    ensures
        g == gas_used - BASE_TRANSACTION_GAS,
{
    gas_used - BASE_TRANSACTION_GAS
}

fn copy_string(s: &str) -> (r: String)
    ensures
        r@ == s@,
{
    String::from_str(s)
}

/// The header and separator lines of the Markdown table.
pub open spec fn markdown_header() -> Seq<char> {
    "| scenario | backend | phase | init bytes | runtime bytes | gas used (-"@ + decimal(
        BASE_TRANSACTION_GAS as nat,
    ) + " tx base) |\n"@ + "| --- | --- | --- | ---: | ---: | ---: |\n"@
}

/// The Markdown table line of one row.
pub open spec fn markdown_line(r: RowModel) -> Seq<char> {
    "| "@ + r.scenario + " | "@ + r.backend + " | "@ + r.phase + " | "@ + decimal(
        r.initcode_bytes as nat,
    ) + " | "@ + decimal(r.runtime_bytecode_bytes as nat) + " | "@ + decimal(
        r.gas_used_minus_tx_base as nat,
    ) + " |\n"@
}

/// The Markdown table lines of several rows.
pub open spec fn markdown_lines(rows: Seq<RowModel>) -> Seq<char>
    decreases rows.len(),
{
    if rows.len() == 0 {
        Seq::empty()
    } else {
        markdown_lines(rows.drop_last()) + markdown_line(rows.last())
    }
}

/// The report as a Markdown table.
pub open spec fn markdown(rows: Seq<RowModel>) -> Seq<char> {
    markdown_header() + markdown_lines(rows)
}

/// The JSON object of one row.
#[verifier::opaque]
pub open spec fn json_row(r: RowModel) -> Seq<char> {
    "    {\"scenario\": "@ + json_quoted(r.scenario) + ", \"backend\": "@ + json_quoted(r.backend)
        + ", \"phase\": "@ + json_quoted(r.phase) + ", \"initcode_bytes\": "@ + decimal(
        r.initcode_bytes as nat,
    ) + ", \"runtime_bytecode_bytes\": "@ + decimal(r.runtime_bytecode_bytes as nat)
        + ", \"gas_used_minus_tx_base\": "@ + decimal(r.gas_used_minus_tx_base as nat) + "}"@
}

/// The JSON objects of several rows, separated by a comma and a new line.
pub open spec fn json_rows(rows: Seq<RowModel>) -> Seq<char>
    decreases rows.len(),
{
    if rows.len() == 0 {
        Seq::empty()
    } else if rows.len() == 1 {
        json_row(rows[0])
    } else {
        json_rows(rows.drop_last()) + ",\n"@ + json_row(rows.last())
    }
}

/// The report as a JSON document.
pub open spec fn json(rows: Seq<RowModel>) -> Seq<char> {
    "{\n  \"transaction_base_gas_subtracted\": "@ + decimal(BASE_TRANSACTION_GAS as nat)
        + ",\n  \"rows\": [\n"@ + json_rows(rows) + "\n  ]\n}\n"@
}

fn push_markdown_line(s: &mut String, row: &GasReportRow)
    ensures
        final(s)@ == old(s)@ + markdown_line(row@),
{
    let ghost start = s@;
    s.append("| ");
    s.append(row.scenario.as_str());
    s.append(" | ");
    s.append(row.backend.as_str());
    s.append(" | ");
    s.append(row.phase.as_str());
    s.append(" | ");
    push_decimal(s, row.initcode_bytes as u64);
    s.append(" | ");
    push_decimal(s, row.runtime_bytecode_bytes as u64);
    s.append(" | ");
    push_decimal(s, row.gas_used_minus_tx_base);
    s.append(" |\n");
    assert(s@ =~= start + markdown_line(row@));
}

fn push_json_row(s: &mut String, row: &GasReportRow)
    ensures
        final(s)@ == old(s)@ + json_row(row@),
{
    let ghost start = s@;
    s.append("    {\"scenario\": ");
    s.append(json_string(row.scenario.as_str()).as_str());
    s.append(", \"backend\": ");
    s.append(json_string(row.backend.as_str()).as_str());
    s.append(", \"phase\": ");
    s.append(json_string(row.phase.as_str()).as_str());
    s.append(", \"initcode_bytes\": ");
    push_decimal(s, row.initcode_bytes as u64);
    s.append(", \"runtime_bytecode_bytes\": ");
    push_decimal(s, row.runtime_bytecode_bytes as u64);
    s.append(", \"gas_used_minus_tx_base\": ");
    push_decimal(s, row.gas_used_minus_tx_base);
    s.append("}");
    proof {
        reveal(json_row);
    }
    assert(s@ =~= start + json_row(row@));
}

impl GasReport {
    /// The report as a Markdown table: a header, a separator, and one line
    /// per row.
    pub fn to_markdown(&self) -> (table: String)
        ensures
            table@ == markdown(self@),
    {
        let mut table = String::new();
        table.append("| scenario | backend | phase | init bytes | runtime bytes | gas used (-");
        push_decimal(&mut table, BASE_TRANSACTION_GAS);
        table.append(" tx base) |\n");
        table.append("| --- | --- | --- | ---: | ---: | ---: |\n");
        let ghost rows = self@;
        assert(table@ =~= markdown_header() + markdown_lines(rows.take(0)));
        let mut i: usize = 0;
        while i < self.rows.len()
            invariant
                rows == self@,
                rows.len() == self.rows@.len(),
                i <= rows.len(),
                table@ == markdown_header() + markdown_lines(rows.take(i as int)),
            decreases rows.len() - i,
        {
            push_markdown_line(&mut table, &self.rows[i]);
            assert(rows.take(i + 1).drop_last() == rows.take(i as int));
            assert(rows[i as int] == self.rows@[i as int]@);
            assert(table@ =~= markdown_header() + markdown_lines(rows.take(i + 1)));
            i = i + 1;
        }
        assert(rows.take(rows.len() as int) == rows);
        table
    }

    /// The report as a JSON document with the base gas that was subtracted
    /// and the rows.
    pub fn to_json(&self) -> (out: String)
        ensures
            out@ == json(self@),
    {
        let mut out = String::new();
        out.append("{\n  \"transaction_base_gas_subtracted\": ");
        push_decimal(&mut out, BASE_TRANSACTION_GAS);
        out.append(",\n  \"rows\": [\n");
        let ghost prefix = out@;
        let ghost rows = self@;
        assert(out@ =~= prefix + json_rows(rows.take(0)));
        let mut i: usize = 0;
        while i < self.rows.len()
            invariant
                rows == self@,
                rows.len() == self.rows@.len(),
                i <= rows.len(),
                out@ == prefix + json_rows(rows.take(i as int)),
            decreases rows.len() - i,
        {
            if i > 0 {
                out.append(",\n");
            }
            push_json_row(&mut out, &self.rows[i]);
            assert(rows.take(i + 1).drop_last() == rows.take(i as int));
            assert(rows[i as int] == self.rows@[i as int]@);
            assert(out@ =~= prefix + json_rows(rows.take(i + 1)));
            i = i + 1;
        }
        assert(rows.take(rows.len() as int) == rows);
        out.append("\n  ]\n}\n");
        out
    }

    /// An empty report.
    pub fn new() -> (r: GasReport)
        ensures
            r.rows@.len() == 0,
            r@ == Seq::<RowModel>::empty(),
    {
        GasReport { rows: Vec::new() }
    }

    fn push_row(&mut self, row: GasReportRow)
        ensures
            final(self)@ == old(self)@.push(row@),
    {
        self.rows.push(row);
        assert(rows_model(self.rows@) =~= rows_model(old(self).rows@).push(row@));
    }

    fn push_runtime_deploy(&mut self, scenario: &str, execution: &RuntimeExecution)
        requires
            gas_covers_base(*execution),
        ensures
            final(self)@ == old(self)@.push(deploy_row(scenario@, *execution)),
    {
        let row = GasReportRow {
            scenario: copy_string(scenario),
            backend: copy_string(execution.backend.name),
            phase: copy_string("deploy"),
            initcode_bytes: execution.initcode_bytes,
            runtime_bytecode_bytes: execution.deploy.runtime_bytecode.len(),
            gas_used_minus_tx_base: subtract_tx_base(execution.deploy.init.gas_used),
        };
        self.push_row(row);
    }

    fn push_runtime_call(&mut self, scenario: &str, execution: &RuntimeExecution, call: &CallExecution)
        requires
            execution.deploy.init.gas_used >= BASE_TRANSACTION_GAS,
            call.outcome.gas_used >= BASE_TRANSACTION_GAS,
        ensures
            final(self)@ == old(self)@.push(call_row(scenario@, *execution, *call)),
    {
        let mut phase = copy_string("call:");
        phase.append(call.name.as_str());
        let row = GasReportRow {
            scenario: copy_string(scenario),
            backend: copy_string(execution.backend.name),
            phase,
            initcode_bytes: execution.initcode_bytes,
            runtime_bytecode_bytes: execution.deploy.runtime_bytecode.len(),
            gas_used_minus_tx_base: subtract_tx_base(call.outcome.gas_used),
        };
        self.push_row(row);
    }

    /// Adds the rows of one execution: its deployment, then its calls.
    pub fn push_runtime(&mut self, scenario: &str, execution: &RuntimeExecution)
        requires
            gas_covers_base(*execution),
        ensures
            final(self)@ == old(self)@.push(deploy_row(scenario@, *execution)) + call_rows(
                scenario@,
                *execution,
                execution.calls@.len(),
            ),
    {
        self.push_runtime_deploy(scenario, execution);
        let ghost after_deploy = self@;
        let mut c: usize = 0;
        while c < execution.calls.len()
            invariant
                gas_covers_base(*execution),
                c <= execution.calls@.len(),
                self@ == after_deploy + call_rows(scenario@, *execution, c as nat),
            decreases execution.calls@.len() - c,
        {
            assert(execution.calls@[c as int].outcome.gas_used >= BASE_TRANSACTION_GAS);
            self.push_runtime_call(scenario, execution, &execution.calls[c]);
            c = c + 1;
        }
    }

    /// Adds the rows of several executions of one scenario: every
    /// deployment, then call by call the row of each execution.
    pub fn push_runtime_executions(&mut self, scenario: &str, executions: &[RuntimeExecution])
        requires
            forall|x: int| 0 <= x < executions@.len() ==> #[trigger] gas_covers_base(executions@[x]),
            forall|x: int|
                0 <= x < executions@.len() ==> (#[trigger] executions@[x]).calls@.len()
                    == executions@[0].calls@.len(),
        ensures
            executions@.len() == 0 ==> final(self)@ == old(self)@,
            executions@.len() > 0 ==> final(self)@ == old(self)@ + deploy_rows(scenario@, executions@)
                + interleaved_call_rows(scenario@, executions@, executions@[0].calls@.len()),
    {
        if executions.len() == 0 {
            return;
        }
        let ghost es = executions@;
        let call_count = executions[0].calls.len();
        let mut x: usize = 0;
        while x < executions.len()
            invariant
                es == executions@,
                x <= es.len(),
                forall|j: int| 0 <= j < es.len() ==> #[trigger] gas_covers_base(es[j]),
                self@ == old(self)@ + deploy_rows(scenario@, es.take(x as int)),
            decreases es.len() - x,
        {
            assert(gas_covers_base(es[x as int]));
            self.push_runtime_deploy(scenario, &executions[x]);
            assert(deploy_rows(scenario@, es.take(x + 1)) =~= deploy_rows(scenario@, es.take(x as int)).push(
                deploy_row(scenario@, es[x as int]),
            ));
            x = x + 1;
        }
        assert(es.take(es.len() as int) == es);
        let ghost after_deploys = self@;
        let mut c: usize = 0;
        while c < call_count
            invariant
                es == executions@,
                es.len() > 0,
                call_count == es[0].calls@.len(),
                c <= call_count,
                forall|j: int| 0 <= j < es.len() ==> #[trigger] gas_covers_base(es[j]),
                forall|j: int| 0 <= j < es.len() ==> (#[trigger] es[j]).calls@.len() == es[0].calls@.len(),
                self@ == after_deploys + interleaved_call_rows(scenario@, es, c as nat),
            decreases call_count - c,
        {
            let ghost before_call = self@;
            let mut x: usize = 0;
            while x < executions.len()
                invariant
                    es == executions@,
                    es.len() > 0,
                    call_count == es[0].calls@.len(),
                    c < call_count,
                    x <= es.len(),
                    forall|j: int| 0 <= j < es.len() ==> #[trigger] gas_covers_base(es[j]),
                    forall|j: int| 0 <= j < es.len() ==> (#[trigger] es[j]).calls@.len() == es[0].calls@.len(),
                    self@ == before_call + call_rows_at(scenario@, es.take(x as int), c as int),
                decreases es.len() - x,
            {
                let execution = &executions[x];
                assert(gas_covers_base(es[x as int]));
                assert(es[x as int].calls@.len() == call_count);
                assert(execution.calls@[c as int].outcome.gas_used >= BASE_TRANSACTION_GAS);
                self.push_runtime_call(scenario, execution, &execution.calls[c]);
                assert(call_rows_at(scenario@, es.take(x + 1), c as int) =~= call_rows_at(
                    scenario@,
                    es.take(x as int),
                    c as int,
                ).push(call_row(scenario@, es[x as int], es[x as int].calls@[c as int])));
                x = x + 1;
            }
            assert(es.take(es.len() as int) == es);
            c = c + 1;
        }
    }
}

/// The keys of a row's JSON object, in order.
pub open spec fn row_keys() -> Seq<Seq<char>> {
    seq![
        "scenario"@,
        "backend"@,
        "phase"@,
        "initcode_bytes"@,
        "runtime_bytecode_bytes"@,
        "gas_used_minus_tx_base"@,
    ]
}

/// The texts of a row's member values, in order.
pub open spec fn row_value_texts(r: RowModel) -> Seq<Seq<char>> {
    seq![
        json_quoted(r.scenario),
        json_quoted(r.backend),
        json_quoted(r.phase),
        decimal(r.initcode_bytes as nat),
        decimal(r.runtime_bytecode_bytes as nat),
        decimal(r.gas_used_minus_tx_base as nat),
    ]
}

/// A row's member values, in order.
pub open spec fn row_values(r: RowModel) -> Seq<Json> {
    seq![
        Json::Str(r.scenario),
        Json::Str(r.backend),
        Json::Str(r.phase),
        Json::Num(r.initcode_bytes as nat),
        Json::Num(r.runtime_bytecode_bytes as nat),
        Json::Num(r.gas_used_minus_tx_base as nat),
    ]
}

/// The JSON object of a row: its strings and numbers under their names.
pub open spec fn row_json_value(r: RowModel) -> Json {
    Json::Object(zip_members(row_keys(), row_values(r)))
}

/// The JSON value of a report: the base gas subtracted, and the rows in
/// order.
pub open spec fn report_json_value(rows: Seq<RowModel>) -> Json {
    Json::Object(
        seq![
            ("transaction_base_gas_subtracted"@, Json::Num(BASE_TRANSACTION_GAS as nat)),
            ("rows"@, Json::Array(rows.map_values(|r: RowModel| row_json_value(r)))),
        ],
    )
}

/// The text of a row's object, without the indentation before it.
pub open spec fn row_object_text(r: RowModel) -> Seq<char> {
    seq!['{'] + members_text(row_keys(), row_value_texts(r), seq![',', ' ']) + seq!['}']
}

#[verifier::spinoff_prover]
#[verifier::rlimit(40)]
proof fn lemma_plain_keys()
    ensures
        json_escape_all("scenario"@) == "scenario"@,
        json_escape_all("backend"@) == "backend"@,
        json_escape_all("phase"@) == "phase"@,
        json_escape_all("initcode_bytes"@) == "initcode_bytes"@,
        json_escape_all("runtime_bytecode_bytes"@) == "runtime_bytecode_bytes"@,
        json_escape_all("gas_used_minus_tx_base"@) == "gas_used_minus_tx_base"@,
        json_escape_all("transaction_base_gas_subtracted"@) == "transaction_base_gas_subtracted"@,
        json_escape_all("rows"@) == "rows"@,
{
    reveal_strlit("scenario");
    reveal_strlit("backend");
    reveal_strlit("phase");
    reveal_strlit("initcode_bytes");
    reveal_strlit("runtime_bytecode_bytes");
    reveal_strlit("gas_used_minus_tx_base");
    reveal_strlit("transaction_base_gas_subtracted");
    reveal_strlit("rows");
    reveal_with_fuel(json_escape_all, 32);
    assert(json_escape_all("scenario"@) =~= "scenario"@);
    assert(json_escape_all("backend"@) =~= "backend"@);
    assert(json_escape_all("phase"@) =~= "phase"@);
    assert(json_escape_all("initcode_bytes"@) =~= "initcode_bytes"@);
    assert(json_escape_all("runtime_bytecode_bytes"@) =~= "runtime_bytecode_bytes"@);
    assert(json_escape_all("gas_used_minus_tx_base"@) =~= "gas_used_minus_tx_base"@);
    assert(json_escape_all("transaction_base_gas_subtracted"@) =~= "transaction_base_gas_subtracted"@);
    assert(json_escape_all("rows"@) =~= "rows"@);
}

proof fn lemma_key_piece(lit: Seq<char>, pre: Seq<char>, key: Seq<char>)
    requires
        lit == pre + seq!['"'] + key + seq!['"', ':', ' '],
        json_escape_all(key) == key,
    ensures
        lit == pre + json_quoted(key) + seq![':', ' '],
{
    assert(lit =~= pre + json_quoted(key) + seq![':', ' ']);
}

#[verifier::spinoff_prover]
#[verifier::rlimit(40)]
proof fn lemma_row_pieces()
    ensures
        "    {\"scenario\": "@ == seq![' ', ' ', ' ', ' ', '{'] + json_quoted("scenario"@) + seq![':', ' '],
        ", \"backend\": "@ == seq![',', ' '] + json_quoted("backend"@) + seq![':', ' '],
        ", \"phase\": "@ == seq![',', ' '] + json_quoted("phase"@) + seq![':', ' '],
        ", \"initcode_bytes\": "@ == seq![',', ' '] + json_quoted("initcode_bytes"@) + seq![':', ' '],
        ", \"runtime_bytecode_bytes\": "@ == seq![',', ' '] + json_quoted("runtime_bytecode_bytes"@) + seq![':', ' '],
        ", \"gas_used_minus_tx_base\": "@ == seq![',', ' '] + json_quoted("gas_used_minus_tx_base"@) + seq![':', ' '],
        "}"@ == seq!['}'],
{
    lemma_plain_keys();
    reveal_strlit("    {\"scenario\": ");
    reveal_strlit(", \"backend\": ");
    reveal_strlit(", \"phase\": ");
    reveal_strlit(", \"initcode_bytes\": ");
    reveal_strlit(", \"runtime_bytecode_bytes\": ");
    reveal_strlit(", \"gas_used_minus_tx_base\": ");
    reveal_strlit("}");
    reveal_strlit("scenario");
    reveal_strlit("backend");
    reveal_strlit("phase");
    reveal_strlit("initcode_bytes");
    reveal_strlit("runtime_bytecode_bytes");
    reveal_strlit("gas_used_minus_tx_base");
    let sep = seq![',', ' '];
    assert("    {\"scenario\": "@ =~= seq![' ', ' ', ' ', ' ', '{'] + seq!['"'] + "scenario"@ + seq!['"', ':', ' ']);
    lemma_key_piece("    {\"scenario\": "@, seq![' ', ' ', ' ', ' ', '{'], "scenario"@);
    assert(", \"backend\": "@ =~= sep + seq!['"'] + "backend"@ + seq!['"', ':', ' ']);
    lemma_key_piece(", \"backend\": "@, sep, "backend"@);
    assert(", \"phase\": "@ =~= sep + seq!['"'] + "phase"@ + seq!['"', ':', ' ']);
    lemma_key_piece(", \"phase\": "@, sep, "phase"@);
    assert(", \"initcode_bytes\": "@ =~= sep + seq!['"'] + "initcode_bytes"@ + seq!['"', ':', ' ']);
    lemma_key_piece(", \"initcode_bytes\": "@, sep, "initcode_bytes"@);
    assert(", \"runtime_bytecode_bytes\": "@ =~= sep + seq!['"'] + "runtime_bytecode_bytes"@ + seq!['"', ':', ' ']);
    lemma_key_piece(", \"runtime_bytecode_bytes\": "@, sep, "runtime_bytecode_bytes"@);
    assert(", \"gas_used_minus_tx_base\": "@ =~= sep + seq!['"'] + "gas_used_minus_tx_base"@ + seq!['"', ':', ' ']);
    lemma_key_piece(", \"gas_used_minus_tx_base\": "@, sep, "gas_used_minus_tx_base"@);
    assert("}"@ =~= seq!['}']);
}

#[verifier::spinoff_prover]
#[verifier::rlimit(40)]
proof fn lemma_row_members(r: RowModel)
    ensures
        ({
            let k = row_keys();
            let v = row_value_texts(r);
            let sep = seq![',', ' '];
            members_text(k, v, sep) == member_text(k[0], v[0]) + sep + member_text(k[1], v[1]) + sep
                + member_text(k[2], v[2]) + sep + member_text(k[3], v[3]) + sep + member_text(k[4], v[4])
                + sep + member_text(k[5], v[5])
        }),
{
    let k = row_keys();
    let v = row_value_texts(r);
    let sep = seq![',', ' '];
    let k1 = k.skip(1);
    let k2 = k1.skip(1);
    let k3 = k2.skip(1);
    let k4 = k3.skip(1);
    let k5 = k4.skip(1);
    let v1 = v.skip(1);
    let v2 = v1.skip(1);
    let v3 = v2.skip(1);
    let v4 = v3.skip(1);
    let v5 = v4.skip(1);
    assert(k5.len() == 1 && k5[0] == k[5] && v5[0] == v[5]);
    assert(members_text(k5, v5, sep) == member_text(k[5], v[5]));
    assert(k4[0] == k[4] && v4[0] == v[4] && k4.skip(1) == k5 && v4.skip(1) == v5);
    assert(members_text(k4, v4, sep) == member_text(k[4], v[4]) + sep + members_text(k5, v5, sep));
    assert(k3[0] == k[3] && v3[0] == v[3] && k3.skip(1) == k4 && v3.skip(1) == v4);
    assert(members_text(k3, v3, sep) == member_text(k[3], v[3]) + sep + members_text(k4, v4, sep));
    assert(k2[0] == k[2] && v2[0] == v[2] && k2.skip(1) == k3 && v2.skip(1) == v3);
    assert(members_text(k2, v2, sep) == member_text(k[2], v[2]) + sep + members_text(k3, v3, sep));
    assert(k1[0] == k[1] && v1[0] == v[1] && k1.skip(1) == k2 && v1.skip(1) == v2);
    assert(members_text(k1, v1, sep) == member_text(k[1], v[1]) + sep + members_text(k2, v2, sep));
    assert(members_text(k, v, sep) == member_text(k[0], v[0]) + sep + members_text(k1, v1, sep));
    assert(members_text(k, v, sep) =~= member_text(k[0], v[0]) + sep + member_text(k[1], v[1]) + sep
        + member_text(k[2], v[2]) + sep + member_text(k[3], v[3]) + sep + member_text(k[4], v[4]) + sep
        + member_text(k[5], v[5]));
}

/// The text of a row, as it is written, up to its closing brace.
spec fn row_written(r: RowModel) -> Seq<char> {
    "    {\"scenario\": "@ + json_quoted(r.scenario) + ", \"backend\": "@ + json_quoted(r.backend)
        + ", \"phase\": "@ + json_quoted(r.phase) + ", \"initcode_bytes\": "@ + decimal(
        r.initcode_bytes as nat,
    ) + ", \"runtime_bytecode_bytes\": "@ + decimal(r.runtime_bytecode_bytes as nat)
        + ", \"gas_used_minus_tx_base\": "@ + decimal(r.gas_used_minus_tx_base as nat)
}

#[verifier::spinoff_prover]
#[verifier::rlimit(40)]
proof fn lemma_row_written(r: RowModel)
    ensures
        row_written(r) == seq![' ', ' ', ' ', ' ', '{'] + members_text(row_keys(), row_value_texts(r), seq![',', ' ']),
{
    lemma_row_pieces();
    lemma_row_members(r);
    let k = row_keys();
    let v = row_value_texts(r);
    let sep = seq![',', ' '];
    let p = seq![' ', ' ', ' ', ' ', '{'];
    let y1 = member_text(k[0], v[0]);
    let y2 = y1 + sep + member_text(k[1], v[1]);
    let y3 = y2 + sep + member_text(k[2], v[2]);
    let y4 = y3 + sep + member_text(k[3], v[3]);
    let y5 = y4 + sep + member_text(k[4], v[4]);
    let y6 = y5 + sep + member_text(k[5], v[5]);
    let a1 = "    {\"scenario\": "@ + json_quoted(r.scenario);
    assert(a1 =~= p + y1);
    let a2 = a1 + ", \"backend\": "@ + json_quoted(r.backend);
    assert(a2 =~= p + y2);
    let a3 = a2 + ", \"phase\": "@ + json_quoted(r.phase);
    assert(a3 =~= p + y3);
    let a4 = a3 + ", \"initcode_bytes\": "@ + decimal(r.initcode_bytes as nat);
    assert(a4 =~= p + y4);
    let a5 = a4 + ", \"runtime_bytecode_bytes\": "@ + decimal(r.runtime_bytecode_bytes as nat);
    assert(a5 =~= p + y5);
    let a6 = a5 + ", \"gas_used_minus_tx_base\": "@ + decimal(r.gas_used_minus_tx_base as nat);
    assert(a6 =~= p + y6);
}

#[verifier::spinoff_prover]
#[verifier::rlimit(40)]
proof fn lemma_row_text(r: RowModel)
    ensures
        json_row(r) == seq![' ', ' ', ' ', ' '] + row_object_text(r),
{
    lemma_row_written(r);
    assert(json_row(r) == row_written(r) + "}"@) by {
        reveal(json_row);
    }
    reveal_strlit("}");
    assert(json_row(r) =~= seq![' ', ' ', ' ', ' '] + row_object_text(r));
}

proof fn lemma_items_text_push(texts: Seq<Seq<char>>, sep: Seq<char>, x: Seq<char>)
    requires
        texts.len() >= 1,
    ensures
        items_text(texts.push(x), sep) == items_text(texts, sep) + sep + x,
    decreases texts.len(),
{
    let t2 = texts.push(x);
    assert(t2.skip(1) =~= texts.skip(1).push(x));
    if texts.len() == 1 {
        assert(t2.skip(1) =~= seq![x]);
        assert(items_text(t2.skip(1), sep) == x);
        assert(items_text(texts, sep) == texts[0]);
        assert(t2[0] == texts[0]);
        assert(items_text(t2, sep) == t2[0] + sep + items_text(t2.skip(1), sep));
    } else {
        lemma_items_text_push(texts.skip(1), sep, x);
        assert(items_text(t2, sep) =~= items_text(texts, sep) + sep + x);
    }
}

/// The separator between rows: a comma, a new line and the indentation.
pub open spec fn rows_separator() -> Seq<char> {
    seq![',', '\n', ' ', ' ', ' ', ' ']
}

#[verifier::spinoff_prover]
#[verifier::rlimit(40)]
proof fn lemma_rows_text(rows: Seq<RowModel>)
    requires
        rows.len() >= 1,
    ensures
        json_rows(rows) == seq![' ', ' ', ' ', ' '] + items_text(
            rows.map_values(|r: RowModel| row_object_text(r)),
            rows_separator(),
        ),
    decreases rows.len(),
{
    let texts = rows.map_values(|r: RowModel| row_object_text(r));
    let spaces = seq![' ', ' ', ' ', ' '];
    let last = row_object_text(rows.last());
    lemma_row_text(rows.last());
    if rows.len() == 1 {
        assert(texts =~= seq![last]);
        assert(items_text(texts, rows_separator()) == last);
        assert(json_rows(rows) == json_row(rows[0]));
    } else {
        let d = rows.drop_last();
        lemma_rows_text(d);
        let dtexts = d.map_values(|r: RowModel| row_object_text(r));
        assert(texts =~= dtexts.push(last));
        lemma_items_text_push(dtexts, rows_separator(), last);
        let items_d = items_text(dtexts, rows_separator());
        assert(json_rows(rows) == json_rows(d) + ",\n"@ + json_row(rows.last()));
        assert(json_rows(d) == spaces + items_d);
        assert(items_text(texts, rows_separator()) == items_d + rows_separator() + last);
        reveal_strlit(",\n");
        assert(",\n"@ + spaces =~= rows_separator());
        assert(json_rows(rows) =~= spaces + items_text(texts, rows_separator()));
    }
}

#[verifier::spinoff_prover]
#[verifier::rlimit(40)]
proof fn lemma_row_reads(r: RowModel)
    ensures
        reads_as(row_object_text(r), row_json_value(r)),
        row_object_text(r).len() > 0,
        row_object_text(r)[0] == '{',
{
    let k = row_keys();
    let v = row_value_texts(r);
    let vals = row_values(r);
    lemma_reads_string(r.scenario);
    lemma_reads_string(r.backend);
    lemma_reads_string(r.phase);
    lemma_reads_number(r.initcode_bytes as nat);
    lemma_reads_number(r.runtime_bytecode_bytes as nat);
    lemma_reads_number(r.gas_used_minus_tx_base as nat);
    assert forall|i: int| 0 <= i < k.len() implies reads_as(#[trigger] v[i], vals[i]) by {
        if i == 0 {
        } else if i == 1 {
        } else if i == 2 {
        } else if i == 3 {
        } else if i == 4 {
        } else {
        }
    }
    let sep = seq![',', ' '];
    assert(sep.skip(1) =~= seq![' ']);
    assert(all_ws(sep.skip(1)));
    assert(separator(sep));
    assert(all_ws(Seq::<char>::empty()));
    lemma_reads_object(Seq::empty(), k, v, vals, sep, Seq::empty());
    assert(seq!['{'] + Seq::<char>::empty() + members_text(k, v, sep) + Seq::<char>::empty() + seq!['}']
        =~= row_object_text(r));
}

/// The text of the rows' array in the document.
pub open spec fn rows_array_text(rows: Seq<RowModel>) -> Seq<char> {
    seq!['['] + seq!['\n'] + json_rows(rows) + seq!['\n', ' ', ' '] + seq![']']
}

#[verifier::spinoff_prover]
#[verifier::rlimit(40)]
proof fn lemma_rows_array_reads(rows: Seq<RowModel>)
    ensures
        reads_as(rows_array_text(rows), Json::Array(rows.map_values(|r: RowModel| row_json_value(r)))),
{
    let values = rows.map_values(|r: RowModel| row_json_value(r));
    let texts = rows.map_values(|r: RowModel| row_object_text(r));
    let rows_text = rows_array_text(rows);
    if rows.len() == 0 {
        assert(json_rows(rows) =~= Seq::<char>::empty());
        let inner = seq!['\n', '\n', ' ', ' '];
        assert(all_ws(inner));
        lemma_reads_empty_array(inner);
        assert(rows_text =~= seq!['['] + inner + seq![']']);
        assert(values =~= Seq::<Json>::empty());
    } else {
        lemma_rows_text(rows);
        assert forall|i: int| 0 <= i < texts.len() implies reads_as(#[trigger] texts[i], values[i]) by {
            lemma_row_reads(rows[i]);
        }
        assert forall|i: int| 0 <= i < texts.len() implies (#[trigger] texts[i]).len() > 0 && !crate::json::is_ws(
            texts[i][0],
        ) by {
            lemma_row_reads(rows[i]);
        }
        let sep = rows_separator();
        assert(sep.skip(1) =~= seq!['\n', ' ', ' ', ' ', ' ']);
        assert(all_ws(sep.skip(1)));
        let open_ws = seq!['\n', ' ', ' ', ' ', ' '];
        let close_ws = seq!['\n', ' ', ' '];
        assert(all_ws(open_ws));
        assert(all_ws(close_ws));
        lemma_reads_array(open_ws, texts, values, sep, close_ws);
        assert(rows_text =~= seq!['['] + open_ws + items_text(texts, sep) + close_ws + seq![']']);
    }
}

/// The keys of the document's object, in order.
pub open spec fn report_keys() -> Seq<Seq<char>> {
    seq!["transaction_base_gas_subtracted"@, "rows"@]
}

#[verifier::spinoff_prover]
#[verifier::rlimit(40)]
proof fn lemma_doc_text(rows: Seq<RowModel>)
    ensures
        json(rows) == seq!['{'] + seq!['\n', ' ', ' '] + members_text(
            report_keys(),
            seq![decimal(BASE_TRANSACTION_GAS as nat), rows_array_text(rows)],
            seq![',', '\n', ' ', ' '],
        ) + seq!['\n'] + seq!['}'] + seq!['\n'],
{
    lemma_plain_keys();
    reveal_strlit("{\n  \"transaction_base_gas_subtracted\": ");
    reveal_strlit(",\n  \"rows\": [\n");
    reveal_strlit("\n  ]\n}\n");
    reveal_strlit("transaction_base_gas_subtracted");
    reveal_strlit("rows");
    let keys = report_keys();
    let vtexts = seq![decimal(BASE_TRANSACTION_GAS as nat), rows_array_text(rows)];
    let sep = seq![',', '\n', ' ', ' '];
    assert(keys.skip(1) =~= seq!["rows"@]);
    assert(vtexts.skip(1) =~= seq![rows_array_text(rows)]);
    assert(members_text(keys.skip(1), vtexts.skip(1), sep) == member_text("rows"@, rows_array_text(rows)));
    assert(members_text(keys, vtexts, sep) == member_text(keys[0], vtexts[0]) + sep + members_text(
        keys.skip(1),
        vtexts.skip(1),
        sep,
    ));
    assert("{\n  \"transaction_base_gas_subtracted\": "@ =~= seq!['{', '\n', ' ', ' '] + seq!['"']
        + "transaction_base_gas_subtracted"@ + seq!['"', ':', ' ']);
    lemma_key_piece(
        "{\n  \"transaction_base_gas_subtracted\": "@,
        seq!['{', '\n', ' ', ' '],
        "transaction_base_gas_subtracted"@,
    );
    assert(",\n  \"rows\": [\n"@ =~= sep + (seq!['"'] + "rows"@ + seq!['"', ':', ' ']) + seq!['[', '\n']);
    assert(json(rows) =~= seq!['{'] + seq!['\n', ' ', ' '] + members_text(keys, vtexts, sep) + seq!['\n']
        + seq!['}'] + seq!['\n']);
}

/// The JSON document that `to_json` writes reads, as JSON reads it, as an
/// object that holds the base gas subtracted and, in order, one object per
/// row with its scenario, backend and phase as strings and its sizes and gas
/// as numbers.
#[verifier::spinoff_prover]
#[verifier::rlimit(40)]
pub proof fn lemma_json_reads_back(rows: Seq<RowModel>)
    ensures
        json_parse(json(rows)) == Some(report_json_value(rows)),
{
    let values = rows.map_values(|r: RowModel| row_json_value(r));
    let keys = report_keys();
    let vtexts = seq![decimal(BASE_TRANSACTION_GAS as nat), rows_array_text(rows)];
    let vals = seq![Json::Num(BASE_TRANSACTION_GAS as nat), Json::Array(values)];
    lemma_rows_array_reads(rows);
    lemma_reads_number(BASE_TRANSACTION_GAS as nat);
    assert forall|i: int| 0 <= i < keys.len() implies reads_as(#[trigger] vtexts[i], vals[i]) by {
        if i == 0 {
        } else {
        }
    }
    let sep = seq![',', '\n', ' ', ' '];
    assert(sep.skip(1) =~= seq!['\n', ' ', ' ']);
    assert(all_ws(sep.skip(1)));
    let open_ws = seq!['\n', ' ', ' '];
    let close_ws = seq!['\n'];
    assert(all_ws(open_ws));
    assert(all_ws(close_ws));
    lemma_reads_object(open_ws, keys, vtexts, vals, sep, close_ws);
    lemma_doc_text(rows);
    let doc = seq!['{'] + open_ws + members_text(keys, vtexts, sep) + close_ws + seq!['}'];
    assert(json(rows) =~= doc + seq!['\n']);
    lemma_document(doc, Json::Object(zip_members(keys, vals)));
    assert(zip_members(keys, vals) =~= seq![
        ("transaction_base_gas_subtracted"@, Json::Num(BASE_TRANSACTION_GAS as nat)),
        ("rows"@, Json::Array(values)),
    ]);
}

/// The rows of one execution: the deployment's row reports the deployment's
/// gas, and the row of call `c` is named after that call and reports its
/// gas; every row carries the scenario, the execution's backend, its
/// initcode size and the size of the runtime code it deployed.
pub proof fn lemma_execution_rows(scenario: Seq<char>, e: RuntimeExecution)
    requires
        gas_covers_base(e),
    ensures
        ({
            let d = deploy_row(scenario, e);
            &&& d.scenario == scenario
            &&& d.backend == e.backend.name@
            &&& d.phase == "deploy"@
            &&& d.initcode_bytes == e.initcode_bytes
            &&& d.runtime_bytecode_bytes == e.deploy.runtime_bytecode@.len() as usize
            &&& d.gas_used_minus_tx_base + BASE_TRANSACTION_GAS == e.deploy.init.gas_used
        }),
        call_rows(scenario, e, e.calls@.len()).len() == e.calls@.len(),
        forall|c: int|
            0 <= c < e.calls@.len() ==> {
                let r = #[trigger] call_rows(scenario, e, e.calls@.len())[c];
                &&& r.scenario == scenario
                &&& r.backend == e.backend.name@
                &&& r.phase == "call:"@ + e.calls@[c].name@
                &&& r.initcode_bytes == e.initcode_bytes
                &&& r.runtime_bytecode_bytes == e.deploy.runtime_bytecode@.len() as usize
                &&& r.gas_used_minus_tx_base + BASE_TRANSACTION_GAS == e.calls@[c].outcome.gas_used
            },
{
    lemma_call_rows_fields(scenario, e, e.calls@.len());
}

proof fn lemma_call_rows_fields(scenario: Seq<char>, e: RuntimeExecution, n: nat)
    requires
        gas_covers_base(e),
        n <= e.calls@.len(),
    ensures
        call_rows(scenario, e, n).len() == n,
        forall|c: int|
            0 <= c < n ==> {
                let r = #[trigger] call_rows(scenario, e, n)[c];
                &&& r.scenario == scenario
                &&& r.backend == e.backend.name@
                &&& r.phase == "call:"@ + e.calls@[c].name@
                &&& r.initcode_bytes == e.initcode_bytes
                &&& r.runtime_bytecode_bytes == e.deploy.runtime_bytecode@.len() as usize
                &&& r.gas_used_minus_tx_base + BASE_TRANSACTION_GAS == e.calls@[c].outcome.gas_used
            },
    decreases n,
{
    if n > 0 {
        lemma_call_rows_fields(scenario, e, (n - 1) as nat);
        let last = n - 1;
        assert(e.calls@[last].outcome.gas_used >= BASE_TRANSACTION_GAS);
        assert forall|c: int| 0 <= c < n implies {
            let r = #[trigger] call_rows(scenario, e, n)[c];
            &&& r.scenario == scenario
            &&& r.backend == e.backend.name@
            &&& r.phase == "call:"@ + e.calls@[c].name@
            &&& r.initcode_bytes == e.initcode_bytes
            &&& r.runtime_bytecode_bytes == e.deploy.runtime_bytecode@.len() as usize
            &&& r.gas_used_minus_tx_base + BASE_TRANSACTION_GAS == e.calls@[c].outcome.gas_used
        } by {
            if c < n - 1 {
                assert(call_rows(scenario, e, n)[c] == call_rows(scenario, e, (n - 1) as nat)[c]);
            }
        }
    }
}

/// The call rows of several executions come call by call and, for each
/// call, execution by execution: row `c * k + x` (with `k` executions) is
/// that of call `c` of execution `x`, with its name and gas and the
/// execution's backend and code sizes.
pub proof fn lemma_interleaved_rows(scenario: Seq<char>, es: Seq<RuntimeExecution>, n: nat)
    requires
        forall|x: int| 0 <= x < es.len() ==> #[trigger] gas_covers_base(es[x]),
        forall|x: int| 0 <= x < es.len() ==> n <= (#[trigger] es[x]).calls@.len(),
    ensures
        interleaved_call_rows(scenario, es, n).len() == n * es.len(),
        forall|c: int, x: int|
            0 <= c < n && 0 <= x < es.len() ==> {
                let r = #[trigger] interleaved_call_rows(scenario, es, n)[c * es.len() + x];
                let e = #[trigger] es[x];
                &&& r.scenario == scenario
                &&& r.backend == e.backend.name@
                &&& r.phase == "call:"@ + e.calls@[c].name@
                &&& r.initcode_bytes == e.initcode_bytes
                &&& r.runtime_bytecode_bytes == e.deploy.runtime_bytecode@.len() as usize
                &&& r.gas_used_minus_tx_base + BASE_TRANSACTION_GAS == e.calls@[c].outcome.gas_used
            },
    decreases n,
{
    if n > 0 {
        let k = es.len();
        lemma_interleaved_rows(scenario, es, (n - 1) as nat);
        let prev = interleaved_call_rows(scenario, es, (n - 1) as nat);
        let at = call_rows_at(scenario, es, n - 1);
        assert(interleaved_call_rows(scenario, es, n) == prev + at);
        assert(prev.len() == (n - 1) * k);
        assert((n - 1) * k + k == n * k) by (nonlinear_arith);
        assert forall|c: int, x: int| 0 <= c < n && 0 <= x < es.len() implies {
            let r = #[trigger] interleaved_call_rows(scenario, es, n)[c * es.len() + x];
            let e = #[trigger] es[x];
            &&& r.scenario == scenario
            &&& r.backend == e.backend.name@
            &&& r.phase == "call:"@ + e.calls@[c].name@
            &&& r.initcode_bytes == e.initcode_bytes
            &&& r.runtime_bytecode_bytes == e.deploy.runtime_bytecode@.len() as usize
            &&& r.gas_used_minus_tx_base + BASE_TRANSACTION_GAS == e.calls@[c].outcome.gas_used
        } by {
            let i = c * k + x;
            assert(gas_covers_base(es[x]));
            if c < n - 1 {
                assert(c * k + x < (n - 1) * k) by (nonlinear_arith)
                    requires
                        c < n - 1,
                        x < k,
                        0 <= c,
                ;
                assert(interleaved_call_rows(scenario, es, n)[i] == prev[i]);
            } else {
                assert(c * k == (n - 1) * k);
                assert(interleaved_call_rows(scenario, es, n)[i] == at[x]);
                assert(es[x].calls@[c].outcome.gas_used >= BASE_TRANSACTION_GAS);
            }
        }
    }
}

} // verus!
