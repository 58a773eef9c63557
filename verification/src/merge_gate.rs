//! Whether a merge may land, from the counts of the coverage, verification,
//! contract and trace passes, the reasons a merge is refused (none: it
//! passes).
use vstd::prelude::*;

use crate::graph::strs;
use crate::ident::{decimal, push_decimal};
use crate::text::{push_str, to_owned};

verus! {

/// What the passes counted.
#[derive(Debug, Clone, Copy)]
pub struct GateCounts {
    /// Intents on the board.
    pub intents: usize,
    /// Intents not realized in every layer.
    pub gaps: usize,
    /// Controls with no validation.
    pub control_holes: usize,
    /// Green test-backed validations.
    pub green: usize,
    /// Red validations.
    pub red: usize,
    /// Validations whose test file is missing.
    pub validation_holes: usize,
    /// Contract violations.
    pub violations: usize,
    /// `at:` pointers to missing files.
    pub dangling: usize,
    /// Source files no node claims.
    pub orphans: usize,
}

/// One reason when `on`, else none.
pub open spec fn reason(on: bool, r: Seq<char>) -> Seq<Seq<char>> {
    if on { seq![r] } else { Seq::empty() }
}

/// The reasons a merge is refused, in order: no intents; intents not
/// realized everywhere; controls without validation; nothing measured
/// green; red validations; validations without their test file; contract
/// violations; dangling pointers; orphan source files.
pub open spec fn gate_reasons(c: GateCounts) -> Seq<Seq<char>> {
    reason(c.intents == 0, "no intents on the board — nothing to gate against"@) + reason(
        c.gaps > 0,
        decimal(c.gaps as nat) + " intent(s) not realized in every layer"@,
    ) + reason(
        c.control_holes > 0,
        decimal(c.control_holes as nat) + " control(s) with NO validation (reproduction holes)"@,
    ) + reason(c.green == 0 && c.intents > 0, "no green test-backed validation — nothing is measured"@)
        + reason(c.red > 0, decimal(c.red as nat) + " validation(s) red"@) + reason(
        c.validation_holes > 0,
        decimal(c.validation_holes as nat) + " validation(s) whose test file is missing"@,
    ) + reason(c.violations > 0, decimal(c.violations as nat) + " contract violation(s)"@) + reason(
        c.dangling > 0,
        decimal(c.dangling as nat) + " dangling at: pointer(s) — the board points at missing files"@,
    ) + reason(
        c.orphans > 0,
        decimal(c.orphans as nat) + " orphan src file(s) — code no node claims (unspecced work)"@,
    )
}

fn add_reason(out: &mut Vec<String>, on: bool, n: usize, text: &str, numbered: bool)
    ensures
        strs(final(out)@) == strs(old(out)@) + reason(
            on,
            if numbered { decimal(n as nat) + text@ } else { text@ },
        ),
{
    if on {
        let mut s = String::new();
        if numbered {
            push_decimal(&mut s, n as u64);
        }
        push_str(&mut s, text);
        let ghost po = strs(out@);
        let ghost sv = s@;
        out.push(s);
        assert(strs(out@) =~= po + seq![sv]);
        assert(Seq::<char>::empty() + text@ =~= text@);
    } else {
        assert(strs(out@) =~= strs(out@) + Seq::<Seq<char>>::empty());
    }
}

/// Why the merge is refused; empty when it passes.
pub fn gate_failures(c: GateCounts) -> (r: Vec<String>)
    ensures
        strs(r@) == gate_reasons(c),
{
    let mut out: Vec<String> = Vec::new();
    add_reason(&mut out, c.intents == 0, 0, "no intents on the board — nothing to gate against", false);
    add_reason(&mut out, c.gaps > 0, c.gaps, " intent(s) not realized in every layer", true);
    add_reason(
        &mut out,
        c.control_holes > 0,
        c.control_holes,
        " control(s) with NO validation (reproduction holes)",
        true,
    );
    add_reason(
        &mut out,
        c.green == 0 && c.intents > 0,
        0,
        "no green test-backed validation — nothing is measured",
        false,
    );
    add_reason(&mut out, c.red > 0, c.red, " validation(s) red", true);
    add_reason(
        &mut out,
        c.validation_holes > 0,
        c.validation_holes,
        " validation(s) whose test file is missing",
        true,
    );
    add_reason(&mut out, c.violations > 0, c.violations, " contract violation(s)", true);
    add_reason(
        &mut out,
        c.dangling > 0,
        c.dangling,
        " dangling at: pointer(s) — the board points at missing files",
        true,
    );
    add_reason(
        &mut out,
        c.orphans > 0,
        c.orphans,
        " orphan src file(s) — code no node claims (unspecced work)",
        true,
    );
    assert(strs(out@) =~= gate_reasons(c));
    out
}

} // verus!
