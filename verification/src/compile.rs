//! Plank fixtures: the sources of a contract, and the backends it is
//! compiled with. The compiler itself runs outside the library; the
//! library decides, stage by stage, whether compilation goes on.

use crate::driver::BackendKind;
use vstd::prelude::*;

verus! {

/// A backend together with the optimisations it runs, under a name used in
/// reports.
#[derive(Debug, Clone, Copy)]
pub struct BackendCase {
    pub name: &'static str,
    pub backend: BackendKind,
    pub optimizations: Option<&'static str>,
}

/// The SIR backend with the `csud` optimisation passes.
pub fn sir_csud() -> (b: BackendCase)
    ensures
        b.name@ == "sir-csud"@,
        b.backend == BackendKind::Sir,
        b.optimizations matches Some(o) && o@ == "csud"@,
{
    BackendCase { name: "sir-csud", backend: BackendKind::Sir, optimizations: Some("csud") }
}

/// The Sonatina backend at optimisation level two.
pub fn sona_o2() -> (b: BackendCase)
    ensures
        b.name@ == "sona-o2"@,
        b.backend == BackendKind::Sona,
        b.optimizations matches Some(o) && o@ == "o2"@,
{
    BackendCase { name: "sona-o2", backend: BackendKind::Sona, optimizations: Some("o2") }
}

/// The backends whose gas use is compared: SIR with `csud`, then Sonatina at
/// level two.
pub fn gas_backends() -> (bs: Vec<BackendCase>)
    ensures
        bs@.len() == 2,
        bs@[0].name@ == "sir-csud"@,
        bs@[0].backend == BackendKind::Sir,
        bs@[1].name@ == "sona-o2"@,
        bs@[1].backend == BackendKind::Sona,
{
    let mut bs: Vec<BackendCase> = Vec::new();
    bs.push(sir_csud());
    bs.push(sona_o2());
    bs
}

/// A source file of a fixture.
#[derive(Debug, Clone)]
pub struct FixtureFile {
    pub path: String,
    pub content: String,
}

/// A module registered under a name, with the directory of its sources.
#[derive(Debug, Clone)]
pub struct ModuleRoot {
    pub name: String,
    pub root: String,
}

/// The sources of a contract: an entry file, other files, registered
/// modules and, optionally, the standard library.
#[derive(Debug, Clone)]
pub struct PlankFixture {
    entry_path: String,
    files: Vec<FixtureFile>,
    modules: Vec<ModuleRoot>,
    std_root: Option<String>,
}

/// A fixture's file as a path and its contents.
pub open spec fn file_model(f: FixtureFile) -> (Seq<char>, Seq<char>) {
    (f.path@, f.content@)
}

/// A registered module as its name and its root.
pub open spec fn module_model(m: ModuleRoot) -> (Seq<char>, Seq<char>) {
    (m.name@, m.root@)
}

/// The directory under which the standard library's files are placed.
pub open spec fn std_root() -> Seq<char> {
    "/std"@
}

/// The path of a standard library file.
pub open spec fn std_path(name: Seq<char>) -> Seq<char> {
    "/std/"@ + name
}

impl PlankFixture {
    /// The path of the entry file.
    pub closed spec fn entry_view(&self) -> Seq<char> {
        self.entry_path@
    }

    /// The files, each as its path and its contents, in the order they were
    /// added.
    pub closed spec fn files_view(&self) -> Seq<(Seq<char>, Seq<char>)> {
        self.files@.map_values(|f: FixtureFile| file_model(f))
    }

    /// The registered modules, each as its name and its root.
    pub closed spec fn modules_view(&self) -> Seq<(Seq<char>, Seq<char>)> {
        self.modules@.map_values(|m: ModuleRoot| module_model(m))
    }

    /// The root of the standard library, where it is included.
    pub closed spec fn std_root_view(&self) -> Option<Seq<char>> {
        match self.std_root {
            Some(r) => Some(r@),
            None => None,
        }
    }

    /// The path of the entry file.
    pub fn entry_path(&self) -> (p: &str)
        ensures
            p@ == self.entry_view(),
    {
        self.entry_path.as_str()
    }

    /// The files, in the order they were added.
    pub fn files(&self) -> (fs: &[FixtureFile])
        ensures
            fs@.map_values(|f: FixtureFile| file_model(f)) == self.files_view(),
    {
        self.files.as_slice()
    }

    /// The registered modules, in the order they were added.
    pub fn modules(&self) -> (ms: &[ModuleRoot])
        ensures
            ms@.map_values(|m: ModuleRoot| module_model(m)) == self.modules_view(),
    {
        self.modules.as_slice()
    }

    /// The root of the standard library, where it is included.
    pub fn std_root(&self) -> (r: Option<&str>)
        ensures
            match r {
                Some(p) => self.std_root_view() == Some(p@),
                None => self.std_root_view() is None,
            },
    {
        match &self.std_root {
            Some(root) => Some(root.as_str()),
            None => None,
        }
    }

    /// A fixture whose entry file is `main.plk`, holding `source`.
    pub fn new(source: &str) -> (f: PlankFixture)
        ensures
            f.entry_view() == "main.plk"@,
            f.files_view() == seq![("main.plk"@, source@)],
            f.modules_view().len() == 0,
            f.std_root_view() is None,
    {
        Self::with_entry("main.plk", source)
    }

    /// A fixture whose entry file is `path`, holding `source`.
    pub fn with_entry(path: &str, source: &str) -> (f: PlankFixture)
        ensures
            f.entry_view() == path@,
            f.files_view() == seq![(path@, source@)],
            f.modules_view().len() == 0,
            f.std_root_view() is None,
    {
        let mut files: Vec<FixtureFile> = Vec::new();
        files.push(FixtureFile { path: String::from_str(path), content: String::from_str(source) });
        let f = PlankFixture {
            entry_path: String::from_str(path),
            files,
            modules: Vec::new(),
            std_root: None,
        };
        assert(f.files_view() =~= seq![(path@, source@)]);
        f
    }

    /// The same fixture with one more file.
    pub fn add_file(self, path: &str, content: &str) -> (f: PlankFixture)
        ensures
            f.entry_view() == self.entry_view(),
            f.files_view() == self.files_view().push((path@, content@)),
            f.modules_view() == self.modules_view(),
            f.std_root_view() == self.std_root_view(),
    {
        let mut f = self;
        f.files.push(FixtureFile { path: String::from_str(path), content: String::from_str(content) });
        assert(f.files_view() =~= self.files_view().push((path@, content@)));
        f
    }

    /// The same fixture with one more module, registered under `name`.
    pub fn add_module(self, name: &str, root: &str) -> (f: PlankFixture)
        ensures
            f.entry_view() == self.entry_view(),
            f.files_view() == self.files_view(),
            f.modules_view() == self.modules_view().push((name@, root@)),
            f.std_root_view() == self.std_root_view(),
    {
        let mut f = self;
        f.modules.push(ModuleRoot { name: String::from_str(name), root: String::from_str(root) });
        assert(f.modules_view() =~= self.modules_view().push((name@, root@)));
        f
    }

    /// The same fixture with the standard library: each of its files, given
    /// by name and contents, is placed under `/std`, which becomes the
    /// standard library's root.
    pub fn with_std(self, std_files: &[(&str, &str)]) -> (f: PlankFixture)
        ensures
            f.entry_view() == self.entry_view(),
            f.files_view() == self.files_view() + std_files@.map_values(
                |p: (&str, &str)| (std_path(p.0@), p.1@),
            ),
            f.modules_view() == self.modules_view(),
            f.std_root_view() == Some(std_root()),
    {
        let mut f = self;
        let ghost start = f.files_view();
        let mut i: usize = 0;
        while i < std_files.len()
            invariant
                i <= std_files@.len(),
                f.entry_view() == self.entry_view(),
                f.modules_view() == self.modules_view(),
                f.std_root_view() == self.std_root_view(),
                f.files_view() == start + std_files@.take(i as int).map_values(
                    |p: (&str, &str)| (std_path(p.0@), p.1@),
                ),
            decreases std_files@.len() - i,
        {
            let entry = std_files[i];
            let name = entry.0;
            let content = entry.1;
            let mut path = String::from_str("/std/");
            path.append(name);
            let ghost before = f.files_view();
            let file = FixtureFile { path, content: String::from_str(content) };
            assert(file_model(file) == (std_path(std_files@[i as int].0@), std_files@[i as int].1@));
            f.files.push(file);
            assert(f.files_view() =~= before.push(file_model(file)));
            assert(std_files@.take(i + 1) == std_files@.take(i as int).push(std_files@[i as int]));
            assert(f.files_view() =~= start + std_files@.take(i + 1).map_values(
                |p: (&str, &str)| (std_path(p.0@), p.1@),
            ));
            i = i + 1;
        }
        assert(std_files@.take(std_files@.len() as int) == std_files@);
        f.std_root = Some(String::from_str("/std"));
        f
    }
}

/// A contract compiled by one backend.
#[derive(Debug, Clone)]
pub struct CompiledContract {
    pub backend: BackendCase,
    pub bytecode: Vec<u8>,
}

/// Why a fixture did not compile.
#[derive(Debug, Clone)]
pub enum CompileError {
    /// The front end reported errors; they are rendered as plain text.
    Diagnostics { diagnostics: String },
    /// The backend could not emit bytecode.
    Backend { backend: &'static str, message: String },
}

/// Decides whether compilation goes on after a front-end stage (loading the
/// project, lowering to HIR, evaluating to MIR): it stops, with the rendered
/// diagnostics, when the stage produced nothing or the session has errors.
pub fn check_stage(produced: bool, has_errors: bool, rendered: String) -> (r: Result<(), CompileError>)
    ensures
        r is Ok <==> produced && !has_errors,
        r matches Err(e) ==> e matches CompileError::Diagnostics { diagnostics: d } && d == rendered,
{
    if !produced || has_errors {
        Err(CompileError::Diagnostics { diagnostics: rendered })
    } else {
        Ok(())
    }
}

/// The end of compilation: the contract, or the backend's error under the
/// backend's name.
pub fn finish_compile(backend: BackendCase, emitted: Result<Vec<u8>, String>) -> (r: Result<
    CompiledContract,
    CompileError,
>)
    ensures
        match emitted {
            Ok(bytes) => r matches Ok(c) && c.backend == backend && c.bytecode == bytes,
            Err(message) => r matches Err(e) && e matches CompileError::Backend { backend: name, message: m }
                && name == backend.name && m == message,
        },
{
    match emitted {
        Ok(bytecode) => Ok(CompiledContract { backend, bytecode }),
        Err(message) => Err(CompileError::Backend { backend: backend.name, message }),
    }
}

impl PlankFixture {
    /// Compiles the fixture with every backend in turn, through `compile`,
    /// stopping at the first error.
    pub fn compile_all<F: Fn(&PlankFixture, BackendCase) -> Result<CompiledContract, CompileError>>(
        &self,
        compile: F,
        backends: &[BackendCase],
    ) -> (r: Result<Vec<CompiledContract>, CompileError>)
        requires
            forall|b: BackendCase| call_requires(compile, (self, b)),
        ensures
            r matches Ok(v) ==> v@.len() == backends@.len() && forall|k: int|
                0 <= k < v@.len() ==> call_ensures(
                    compile,
                    (self, backends@[k]),
                    Ok::<CompiledContract, CompileError>(#[trigger] v@[k]),
                ),
            r matches Err(e) ==> exists|k: int|
                0 <= k < backends@.len() && call_ensures(
                    compile,
                    (self, #[trigger] backends@[k]),
                    Err::<CompiledContract, CompileError>(e),
                ) && compiled_before(compile, self, backends@, k),
    {
        let mut compiled: Vec<CompiledContract> = Vec::new();
        let mut i: usize = 0;
        while i < backends.len()
            invariant
                forall|b: BackendCase| call_requires(compile, (self, b)),
                i <= backends@.len(),
                compiled@.len() == i,
                forall|k: int|
                    0 <= k < i ==> call_ensures(
                        compile,
                        (self, backends@[k]),
                        Ok::<CompiledContract, CompileError>(#[trigger] compiled@[k]),
                    ),
            decreases backends@.len() - i,
        {
            match compile(self, backends[i]) {
                Ok(c) => compiled.push(c),
                Err(e) => {
                    proof {
                        assert forall|j: int| 0 <= j < i implies #[trigger] compiles(compile, self, backends@[j])
                            by {
                            assert(call_ensures(
                                compile,
                                (self, backends@[j]),
                                Ok::<CompiledContract, CompileError>(compiled@[j]),
                            ));
                        }
                    }
                    return Err(e);
                },
            }
            i = i + 1;
        }
        Ok(compiled)
    }
}

/// Every backend before the `k`-th compiled.
pub open spec fn compiled_before<F: Fn(&PlankFixture, BackendCase) -> Result<CompiledContract, CompileError>>(
    compile: F,
    fixture: &PlankFixture,
    backends: Seq<BackendCase>,
    k: int,
) -> bool {
    forall|j: int| 0 <= j < k ==> #[trigger] compiles(compile, fixture, backends[j])
}

/// `compile` can give a contract for `backend`.
pub open spec fn compiles<F: Fn(&PlankFixture, BackendCase) -> Result<CompiledContract, CompileError>>(
    compile: F,
    fixture: &PlankFixture,
    backend: BackendCase,
) -> bool {
    exists|c: CompiledContract| #[trigger]
        call_ensures(compile, (fixture, backend), Ok::<CompiledContract, CompileError>(c))
}

} // verus!
