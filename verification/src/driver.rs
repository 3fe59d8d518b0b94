//! The compiler driver's choices: which backend emits the bytecode, how
//! much it optimises, and how intermediate forms are framed when shown.

use crate::text::push_char;
use vstd::prelude::*;

verus! {

/// The backend that turns MIR into EVM bytecode.
#[derive(Debug, Clone, Copy, PartialEq, Eq, Structural)]
pub enum BackendKind {
    Sir,
    Sona,
}

impl Default for BackendKind {
    /// SIR, the backend used when none is chosen.
    fn default() -> (k: BackendKind)
        ensures
            k == BackendKind::Sir,
    {
        BackendKind::Sir
    }
}

/// The optimisation level of the Sonatina backend.
#[derive(Debug, Clone, Copy, PartialEq, Eq, Structural)]
pub enum SonaOptLevel {
    O0,
    O2,
}

/// Sonatina optimises at level two when any optimisations are asked for, and
/// not at all otherwise.
pub fn sona_opt_level(optimizations: Option<&str>) -> (level: SonaOptLevel)
    ensures
        level == if optimizations is Some {
            SonaOptLevel::O2
        } else {
            SonaOptLevel::O0
        },
{
    match optimizations {
        Some(_) => SonaOptLevel::O2,
        None => SonaOptLevel::O0,
    }
}

/// An intermediate form that the driver shows while emitting bytecode.
#[derive(Debug, Clone, Copy, PartialEq, Eq, Structural)]
pub enum IrDump {
    /// SIR as lowered from MIR, before any pass.
    SirIn,
    /// SIR after the SSA transform and the optimisation passes.
    SirLast,
    /// Sonatina IR at level zero.
    SonaIr,
    /// Sonatina IR at the level that emission uses.
    SonaIrOpt,
}

/// The title under which a dump is shown.
pub open spec fn dump_title(d: IrDump) -> Seq<char> {
    match d {
        IrDump::SirIn => "SIR IN"@,
        IrDump::SirLast => "SIR LAST"@,
        IrDump::SonaIr => "SONA IR"@,
        IrDump::SonaIrOpt => "SONA IR OPT"@,
    }
}

impl IrDump {
    /// The title under which this dump is shown.
    pub fn title(&self) -> (t: &'static str)
        ensures
            t@ == dump_title(*self),
    {
        match self {
            IrDump::SirIn => "SIR IN",
            IrDump::SirLast => "SIR LAST",
            IrDump::SonaIr => "SONA IR",
            IrDump::SonaIrOpt => "SONA IR OPT",
        }
    }
}

/// A line of sixty-four slashes.
pub open spec fn slash_line() -> Seq<char> {
    Seq::new(64, |i: int| '/')
}

/// `title` centred in sixty columns: the padding is split in two, the
/// smaller half on the left. A title of sixty characters or more is kept
/// as it is.
pub open spec fn centered(title: Seq<char>) -> Seq<char> {
    if title.len() >= 60 {
        title
    } else {
        let pad = 60 - title.len();
        Seq::new((pad / 2) as nat, |i: int| ' ') + title + Seq::new((pad - pad / 2) as nat, |i: int| ' ')
    }
}

/// The text written to standard error to show an intermediate form: with
/// separators, two blank lines and a banner of slashes around the centred
/// title come first; then the form itself and a new line.
pub open spec fn ir_display(title: Seq<char>, separators: bool, ir: Seq<char>) -> Seq<char> {
    (if separators {
        "\n\n"@ + slash_line() + "\n"@ + "//"@ + centered(title) + "//\n"@ + slash_line() + "\n"@
    } else {
        Seq::empty()
    }) + ir + "\n"@
}

fn push_repeated(s: &mut String, c: char, n: usize)
    ensures
        final(s)@ == old(s)@ + Seq::new(n as nat, |i: int| c),
{
    let mut k: usize = 0;
    while k < n
        invariant
            k <= n,
            s@ == old(s)@ + Seq::new(k as nat, |i: int| c),
        decreases n - k,
    {
        push_char(s, c);
        assert(Seq::new((k + 1) as nat, |i: int| c) =~= Seq::new(k as nat, |i: int| c).push(c));
        k = k + 1;
    }
}

/// The text that shows an intermediate form, as `ir_display` states it.
pub fn render_backend_ir(title: &str, separators: bool, ir: &str) -> (out: String)
    ensures
        out@ == ir_display(title@, separators, ir@),
{
    let mut out = String::new();
    if separators {
        out.append("\n\n");
        push_repeated(&mut out, '/', 64);
        out.append("\n");
        out.append("//");
        let len = title.unicode_len();
        let ghost before_title = out@;
        if len >= 60 {
            out.append(title);
        } else {
            let pad: usize = 60 - len;
            push_repeated(&mut out, ' ', pad / 2);
            out.append(title);
            push_repeated(&mut out, ' ', pad - pad / 2);
        }
        assert(out@ =~= before_title + centered(title@));
        out.append("//\n");
        push_repeated(&mut out, '/', 64);
        out.append("\n");
    }
    out.append(ir);
    out.append("\n");
    assert(out@ =~= ir_display(title@, separators, ir@));
    out
}

} // verus!
