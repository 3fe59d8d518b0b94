# plank-bytecode-tests

A harness that compiles Plank contracts with the SIR and Sonatina backends,
deploys and calls them on an in-memory EVM (revm), and checks that every
backend behaves alike and as each scenario expects. It also reports the gas
and code size of each deployment and call.

Layout:

- `src/` is the verified library (Verus):
  - `bytes.rs`: EVM words, calldata, byte-string order;
  - `evm.rs`: execution outcomes, behaviours, sorted storage changes;
  - `harness.rs`: the in-memory EVM (revm behind small trusted wrappers);
  - `assertions.rs`: scenarios, expectations, the checks across backends;
  - `report.rs`, `text.rs`: gas reports as Markdown and JSON;
  - `json.rs`: JSON text as a reader takes it, to state what a report's
    JSON holds;
  - `compile.rs`, `driver.rs`: fixtures and the compiler driver's choices;
  - `lowering.rs`: the plan of the Sonatina module built from MIR.
- `app/` drives the Plank compiler and Sonatina, prints, writes files and
  turns the library's check results into panics.
- `tests/` exercises the library on concrete values.
