use plank_bytecode_tests::driver::{render_backend_ir, sona_opt_level, IrDump, SonaOptLevel};
use plank_bytecode_tests::{
    check_stage, finish_compile, gas_backends, sir_csud, sona_o2, BackendCase, BackendKind,
    CompileError, CompiledContract, PlankFixture,
};

#[test]
fn fixture_starts_with_its_entry_file() {
    let f = PlankFixture::new("init {}");
    assert_eq!(f.entry_path(), "main.plk");
    assert_eq!(f.files().len(), 1);
    assert_eq!(f.files()[0].path, "main.plk");
    assert_eq!(f.files()[0].content, "init {}");
    assert!(f.modules().is_empty());
    assert_eq!(f.std_root(), None);
    let g = PlankFixture::with_entry("src/a.plk", "x");
    assert_eq!(g.entry_path(), "src/a.plk");
}

#[test]
fn fixture_builders_add_files_modules_and_std() {
    let f = PlankFixture::new("main")
        .add_file("lib/b.plk", "b")
        .add_module("m", "/lib")
        .with_std(&[("math.plk", "fn max"), ("mem.plk", "fn copy")]);
    let paths: Vec<&str> = f.files().iter().map(|x| x.path.as_str()).collect();
    assert_eq!(paths, vec!["main.plk", "lib/b.plk", "/std/math.plk", "/std/mem.plk"]);
    assert_eq!(f.files()[3].content, "fn copy");
    assert_eq!(f.modules().len(), 1);
    assert_eq!(f.modules()[0].name, "m");
    assert_eq!(f.modules()[0].root, "/lib");
    assert_eq!(f.std_root(), Some("/std"));
}

#[test]
fn stages_stop_on_errors_and_backends_name_their_failures() {
    assert!(check_stage(true, false, String::new()).is_ok());
    match check_stage(false, false, "error: could not open entry file".to_string()) {
        Err(CompileError::Diagnostics { diagnostics }) => assert_eq!(diagnostics, "error: could not open entry file"),
        other => panic!("unexpected {other:?}"),
    }
    assert!(matches!(check_stage(true, true, "e".into()), Err(CompileError::Diagnostics { .. })));
    let ok = finish_compile(sona_o2(), Ok(vec![0x60, 0x00])).expect("compiled");
    assert_eq!(ok.bytecode, vec![0x60, 0x00]);
    assert_eq!(ok.backend.name, "sona-o2");
    match finish_compile(sona_o2(), Err("no init section".to_string())) {
        Err(CompileError::Backend { backend, message }) => {
            assert_eq!(backend, "sona-o2");
            assert_eq!(message, "no init section");
        }
        other => panic!("unexpected {other:?}"),
    }
}

#[test]
fn gas_backends_are_sir_then_sona() {
    let bs = gas_backends();
    assert_eq!(bs.len(), 2);
    assert_eq!(bs[0].name, "sir-csud");
    assert_eq!(bs[0].backend, BackendKind::Sir);
    assert_eq!(bs[0].optimizations, Some("csud"));
    assert_eq!(bs[1].name, "sona-o2");
    assert_eq!(bs[1].backend, BackendKind::Sona);
    assert_eq!(sir_csud().optimizations, Some("csud"));
    assert_eq!(BackendKind::default(), BackendKind::Sir);
}

#[test]
fn driver_choices() {
    assert_eq!(sona_opt_level(Some("o2")), SonaOptLevel::O2);
    assert_eq!(sona_opt_level(Some("")), SonaOptLevel::O2);
    assert_eq!(sona_opt_level(None), SonaOptLevel::O0);
    assert_eq!(IrDump::SirIn.title(), "SIR IN");
    assert_eq!(IrDump::SirLast.title(), "SIR LAST");
    assert_eq!(IrDump::SonaIr.title(), "SONA IR");
    assert_eq!(IrDump::SonaIrOpt.title(), "SONA IR OPT");
}

#[test]
fn backend_ir_banner_centres_the_title() {
    let slashes = "/".repeat(64);
    let expected = format!("\n\n{slashes}\n//{:^60}//\n{slashes}\nBODY\n", "SIR IN");
    assert_eq!(render_backend_ir("SIR IN", true, "BODY"), expected);
    assert_eq!(render_backend_ir("SIR IN", false, "BODY"), "BODY\n");
    let odd = render_backend_ir("ABC", true, "");
    assert!(odd.contains(&format!("//{}ABC{}//", " ".repeat(28), " ".repeat(29))));
}

fn compile_stub(fixture: &PlankFixture, backend: BackendCase) -> Result<CompiledContract, CompileError> {
    if backend.name == "sona-o2" {
        Err(CompileError::Backend { backend: backend.name, message: fixture.entry_path().to_string() })
    } else {
        Ok(CompiledContract { backend, bytecode: fixture.entry_path().as_bytes().to_vec() })
    }
}

#[test]
fn compile_all_compiles_each_backend_in_order_and_stops_at_an_error() {
    let f = PlankFixture::new("init {}");
    let all = f.compile_all(compile_stub, &[sir_csud(), sir_csud()]).expect("compiles");
    assert_eq!(all.len(), 2);
    assert_eq!(all[0].bytecode, b"main.plk".to_vec());
    assert_eq!(all[1].backend.name, "sir-csud");
    assert!(f.compile_all(compile_stub, &[]).expect("compiles").is_empty());
    match f.compile_all(compile_stub, &[sir_csud(), sona_o2(), sir_csud()]) {
        Err(CompileError::Backend { backend, message }) => {
            assert_eq!(backend, "sona-o2");
            assert_eq!(message, "main.plk");
        }
        other => panic!("unexpected {other:?}"),
    }
}
