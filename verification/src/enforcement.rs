//! The enforced / declared / deferred legend of the language's fences.
//!
//! The catalog below is the single source of truth the panel is generated
//! from. For the two enforced fences a live `garnet check` probe re-confirms,
//! in this run, that the static gate still fires; a probe confirms only when
//! the check ran and emitted the code the catalog names for that fence.

use vstd::prelude::*;
use vstd::string::*;
use crate::report::{velocity_error, no_cli_message, VelocityCheckReport};
use crate::text::str_eq;

verus! {

/// Whether a fence is runtime-enforced, merely declared, or deferred.
#[derive(Debug, Clone, Copy, PartialEq, Eq, Structural)]
pub enum FenceStatus {
    Enforced,
    Declared,
    Deferred,
}

/// One row of the legend.
#[derive(Debug, Clone)]
pub struct EnforcementFence {
    pub name: String,
    pub status: FenceStatus,
    pub backends: String,
    pub basis: String,
    /// How the runtime trap of an enforced fence is attested; empty otherwise.
    pub runtime_attested_by: String,
    /// The check code the live probe re-confirms; empty when there is none.
    pub probe_code: String,
}

/// The result of one live static-gate probe.
#[derive(Debug, Clone)]
pub struct EnforcementProbe {
    pub fence: String,
    pub expected_code: String,
    /// The check ran and emitted `expected_code`.
    pub confirmed: bool,
    /// The check ran at all; when false the probe is inconclusive.
    pub ran: bool,
    pub exit_code: i32,
    pub observed_codes: Vec<String>,
}

/// The legend payload.
#[derive(Debug, Clone)]
pub struct EnforcementLegend {
    pub fences: Vec<EnforcementFence>,
    pub probes: Vec<EnforcementProbe>,
    pub cli_available: bool,
}

/// The fields of a legend row, as text.
pub open spec fn fence_view(f: EnforcementFence) -> (
    Seq<char>,
    FenceStatus,
    Seq<char>,
    Seq<char>,
    Seq<char>,
    Seq<char>,
) {
    (f.name@, f.status, f.backends@, f.basis@, f.runtime_attested_by@, f.probe_code@)
}

/// The rows of a list of fences, as text.
pub open spec fn fence_views(v: Seq<EnforcementFence>) -> Seq<
    (Seq<char>, FenceStatus, Seq<char>, Seq<char>, Seq<char>, Seq<char>),
> {
    v.map_values(|f: EnforcementFence| fence_view(f))
}

/// The catalog, row by row.
pub open spec fn catalog() -> Seq<(Seq<char>, FenceStatus, Seq<char>, Seq<char>, Seq<char>, Seq<char>)> {
    seq![
        ("@caps"@, FenceStatus::Enforced, "VM + interpreter"@, "Deny-by-default host authority: an undeclared fs/net/env/proc primitive traps at the boundary. The static caps-coverage gate flags a function that transitively requires a capability it does not declare."@, "S100 require_capability trap (VM + interp); S114-FIX-2 deny-by-default at active_frames == 0; red-team"@, "check.caps_coverage"@),
        ("@max_depth"@, FenceStatus::Enforced, "VM + interpreter"@, "Per-function recursion ceiling, trapped at depth N+1. The static gate enforces the 1..=64 range at check time."@, "S99 recursion-depth trap (VM + interp); red-team"@, "check.annotation_error"@),
        ("@bounded"@, FenceStatus::Declared, "Wasmtime fuel only"@, "Lowers to Wasmtime fuel metering on the VM path (S39); not enforced on the interpreter. Declared, not a cross-backend trap."@, ""@, ""@),
        ("@mailbox"@, FenceStatus::Declared, "actor runtime"@, "Overrides the default 1024-message inbox cap for an actor; not enforced at the host-authority boundary."@, ""@, ""@),
        ("memory"@, FenceStatus::Declared, "—"@, "Named-deferred resource ceiling: declared in source, no runtime trap."@, ""@, ""@),
        ("time"@, FenceStatus::Declared, "—"@, "Named-deferred resource ceiling: `check` flags top-level under-declaration, but there is no runtime trap."@, ""@, ""@),
        ("OS sandbox (macOS / Windows)"@, FenceStatus::Deferred, "Linux seccomp only"@, "Platform OS-sandbox application is deferred off Linux. Linux applies a seccomp policy; macOS and Windows do not apply an OS sandbox."@, ""@, ""@),
    ]
}

/// Probe fixture: a `@caps()` function that transitively reads a file.
pub const CAPS_PROBE_SRC: &'static str = "@caps()\ndef caller() -> String {\n  read_file(\"/tmp/garnet-studio-legend-probe\")\n}\n";

/// Probe fixture: `@max_depth(100)` is outside the enforced range.
pub const DEPTH_PROBE_SRC: &'static str = "@max_depth(100)\n@caps()\ndef f() -> Bool { true }\n";

/// Builds one legend row.
fn fence(
    name: &str,
    status: FenceStatus,
    backends: &str,
    basis: &str,
    runtime_attested_by: &str,
    probe_code: &str,
) -> (f: EnforcementFence)
    ensures
        fence_view(f) == (name@, status, backends@, basis@, runtime_attested_by@, probe_code@),
{
    EnforcementFence {
        name: name.to_owned(),
        status,
        backends: backends.to_owned(),
        basis: basis.to_owned(),
        runtime_attested_by: runtime_attested_by.to_owned(),
        probe_code: probe_code.to_owned(),
    }
}

/// The fence catalog.
pub fn enforcement_catalog() -> (fences: Vec<EnforcementFence>)
    ensures
        fence_views(fences@) == catalog(),
{
    let v = vec![
        fence(
            "@caps",
            FenceStatus::Enforced,
            "VM + interpreter",
            "Deny-by-default host authority: an undeclared fs/net/env/proc primitive traps at the boundary. The static caps-coverage gate flags a function that transitively requires a capability it does not declare.",
            "S100 require_capability trap (VM + interp); S114-FIX-2 deny-by-default at active_frames == 0; red-team",
            "check.caps_coverage",
        ),
        fence(
            "@max_depth",
            FenceStatus::Enforced,
            "VM + interpreter",
            "Per-function recursion ceiling, trapped at depth N+1. The static gate enforces the 1..=64 range at check time.",
            "S99 recursion-depth trap (VM + interp); red-team",
            "check.annotation_error",
        ),
        fence(
            "@bounded",
            FenceStatus::Declared,
            "Wasmtime fuel only",
            "Lowers to Wasmtime fuel metering on the VM path (S39); not enforced on the interpreter. Declared, not a cross-backend trap.",
            "",
            "",
        ),
        fence(
            "@mailbox",
            FenceStatus::Declared,
            "actor runtime",
            "Overrides the default 1024-message inbox cap for an actor; not enforced at the host-authority boundary.",
            "",
            "",
        ),
        fence(
            "memory",
            FenceStatus::Declared,
            "—",
            "Named-deferred resource ceiling: declared in source, no runtime trap.",
            "",
            "",
        ),
        fence(
            "time",
            FenceStatus::Declared,
            "—",
            "Named-deferred resource ceiling: `check` flags top-level under-declaration, but there is no runtime trap.",
            "",
            "",
        ),
        fence(
            "OS sandbox (macOS / Windows)",
            FenceStatus::Deferred,
            "Linux seccomp only",
            "Platform OS-sandbox application is deferred off Linux. Linux applies a seccomp policy; macOS and Windows do not apply an OS sandbox.",
            "",
            "",
        ),
    ];
    assert(fence_views(v@) =~= catalog());
    v
}

/// The catalog is honest: a row is enforced exactly when it carries both a
/// probe code and a runtime attestation, and a declared or deferred row
/// carries neither; the enforced rows are `@caps` and `@max_depth`.
pub proof fn lemma_catalog_honest()
    ensures
        forall|i: int|
            0 <= i < catalog().len() ==> ((#[trigger] catalog()[i]).1 == FenceStatus::Enforced
                <==> catalog()[i].5.len() > 0) && (catalog()[i].1 == FenceStatus::Enforced
                <==> catalog()[i].4.len() > 0),
        forall|i: int|
            0 <= i < catalog().len() && (#[trigger] catalog()[i]).1 == FenceStatus::Enforced
                ==> i == 0 || i == 1,
        catalog()[0].0 == "@caps"@,
        catalog()[1].0 == "@max_depth"@,
{
    reveal_strlit("S100 require_capability trap (VM + interp); S114-FIX-2 deny-by-default at active_frames == 0; red-team");
    reveal_strlit("check.caps_coverage");
    reveal_strlit("S99 recursion-depth trap (VM + interp); red-team");
    reveal_strlit("check.annotation_error");
    reveal_strlit("");
    reveal_strlit("@caps");
    reveal_strlit("@max_depth");
    let c = catalog();
    assert(c.len() == 7);
    assert forall|i: int| 0 <= i < c.len() implies ((#[trigger] c[i]).1 == FenceStatus::Enforced
        <==> c[i].5.len() > 0) && (c[i].1 == FenceStatus::Enforced <==> c[i].4.len() > 0) by {
        if i == 0 {
        } else if i == 1 {
        } else if i == 2 {
        } else if i == 3 {
        } else if i == 4 {
        } else if i == 5 {
        } else {
        }
    }
    assert forall|i: int| 0 <= i < c.len() && (#[trigger] c[i]).1 == FenceStatus::Enforced
        implies i == 0 || i == 1 by {
        if i == 2 {
        } else if i == 3 {
        } else if i == 4 {
        } else if i == 5 {
        } else if i == 6 {
        }
    }
}

/// The codes of a report's diagnostics, in order.
pub open spec fn observed_codes(report: VelocityCheckReport) -> Seq<Seq<char>> {
    report.diagnostics@.map_values(|d: crate::report::VelocityDiagnostic| d.code@)
}

/// A probe's verdict on a check report: it confirms only when the check ran
/// and the expected code is among the emitted ones; a check that did not
/// run is inconclusive whatever it carries.
pub fn probe_from_report(fence: &str, expected_code: &str, report: &VelocityCheckReport) -> (p: EnforcementProbe)
    ensures
        p.fence@ == fence@,
        p.expected_code@ == expected_code@,
        crate::text::string_views(p.observed_codes@) == observed_codes(*report),
        p.confirmed == (report.ran && observed_codes(*report).contains(expected_code@)),
        p.ran == report.ran,
        p.exit_code == report.exit_code,
{
    let mut observed: Vec<String> = Vec::new();
    let mut found = false;
    let mut i: usize = 0;
    while i < report.diagnostics.len()
        invariant
            i <= report.diagnostics@.len(),
            crate::text::string_views(observed@) == observed_codes(*report).subrange(0, i as int),
            found == observed_codes(*report).subrange(0, i as int).contains(expected_code@),
        decreases report.diagnostics@.len() - i,
    {
        let code = report.diagnostics[i].code.clone();
        let hit = str_eq(code.as_str(), expected_code);
        let ghost prev = observed@;
        observed.push(code);
        proof {
            let all = observed_codes(*report);
            assert(all[i as int] == report.diagnostics@[i as int].code@);
            let pre = all.subrange(0, i as int);
            let next = all.subrange(0, i as int + 1);
            assert(next =~= pre.push(all[i as int]));
            assert(crate::text::string_views(observed@) =~= next) by {
                assert(observed@ == prev.push(code));
            }
            if next.contains(expected_code@) && !hit {
                let k = choose|k: int| 0 <= k < next.len() && next[k] == expected_code@;
                assert(k < i);
                assert(pre[k] == expected_code@);
            }
            if hit {
                assert(next[i as int] == expected_code@);
            }
            if found {
                let k = choose|k: int| 0 <= k < pre.len() && pre[k] == expected_code@;
                assert(next[k] == expected_code@);
            }
        }
        found = found || hit;
        i = i + 1;
    }
    assert(observed_codes(*report).subrange(0, i as int) =~= observed_codes(*report));
    EnforcementProbe {
        fence: fence.to_owned(),
        expected_code: expected_code.to_owned(),
        confirmed: report.ran && found,
        ran: report.ran,
        exit_code: report.exit_code,
        observed_codes: observed,
    }
}

/// The probe code the catalog gives the fence named `name`, if a row has
/// that name.
fn catalog_probe_code(fences: &Vec<EnforcementFence>, name: &str) -> (code: Option<String>)
    ensures
        match code {
            Some(c) => exists|i: int|
                0 <= i < fences@.len() && fences@[i].name@ == name@ && c@ == fences@[i].probe_code@
                    && forall|j: int| 0 <= j < i ==> fences@[j].name@ != name@,
            None => forall|i: int| 0 <= i < fences@.len() ==> fences@[i].name@ != name@,
        },
{
    let mut i: usize = 0;
    while i < fences.len()
        invariant
            i <= fences@.len(),
            forall|j: int| 0 <= j < i ==> fences@[j].name@ != name@,
        decreases fences@.len() - i,
    {
        if str_eq(fences[i].name.as_str(), name) {
            return Some(fences[i].probe_code.clone());
        }
        i = i + 1;
    }
    None
}

/// The fixtures of the two static-gate probes: the fence they back and the
/// source whose check must reproduce that fence's catalog code.
pub fn probe_fixtures() -> (v: Vec<(&'static str, &'static str)>)
    ensures
        v@.len() == 2,
        v@[0].0@ == "@caps"@,
        v@[0].1@ == CAPS_PROBE_SRC@,
        v@[1].0@ == "@max_depth"@,
        v@[1].1@ == DEPTH_PROBE_SRC@,
{
    vec![("@caps", CAPS_PROBE_SRC), ("@max_depth", DEPTH_PROBE_SRC)]
}

/// The legend, given the check reports of the two probe fixtures (in
/// fixture order) when a CLI ran them, or `None` when no CLI is available:
/// every fence is listed either way, and without a CLI every probe is
/// inconclusive. Each probe's expected code is the catalog's code for its
/// fence.
pub fn studio_enforcement_legend_with_cli(reports: Option<(VelocityCheckReport, VelocityCheckReport)>) -> (legend: EnforcementLegend)
    ensures
        fence_views(legend.fences@) == catalog(),
        legend.cli_available == reports is Some,
        legend.probes@.len() == 2,
        legend.probes@[0].fence@ == "@caps"@,
        legend.probes@[0].expected_code@ == catalog()[0].5,
        legend.probes@[1].fence@ == "@max_depth"@,
        legend.probes@[1].expected_code@ == catalog()[1].5,
        match reports {
            Some((caps, depth)) => legend.probes@[0].ran == caps.ran && legend.probes@[0].confirmed == (caps.ran
                && observed_codes(caps).contains(catalog()[0].5)) && legend.probes@[1].ran
                == depth.ran && legend.probes@[1].confirmed == (depth.ran && observed_codes(
                depth,
            ).contains(catalog()[1].5))
                && legend.probes@[0].exit_code == caps.exit_code
                && crate::text::string_views(legend.probes@[0].observed_codes@) == observed_codes(caps)
                && legend.probes@[1].exit_code == depth.exit_code
                && crate::text::string_views(legend.probes@[1].observed_codes@) == observed_codes(depth),
            None => !legend.probes@[0].ran && !legend.probes@[0].confirmed
                && !legend.probes@[1].ran && !legend.probes@[1].confirmed
                && legend.probes@[0].exit_code == -1 && legend.probes@[0].observed_codes@.len() == 0
                && legend.probes@[1].exit_code == -1 && legend.probes@[1].observed_codes@.len() == 0,
        },
{
    let fences = enforcement_catalog();
    let cli_available = reports.is_some();
    let (caps_report, depth_report) = match reports {
        Some(pair) => pair,
        None => (
            velocity_error(
                String::from_str("Garnet CLI not found. Set GARNET_CLI or add garnet to PATH."),
                -1,
            ),
            velocity_error(
                String::from_str("Garnet CLI not found. Set GARNET_CLI or add garnet to PATH."),
                -1,
            ),
        ),
    };
    proof {
        lemma_catalog_names();
        assert(catalog().len() == 7);
        assert(fence_views(fences@).len() == fences@.len());
        assert(fences@.len() == 7);
        assert(fence_views(fences@)[0] == fence_view(fences@[0]));
        assert(fence_views(fences@)[1] == fence_view(fences@[1]));
        assert forall|i: int| 0 <= i < fences@.len() implies fence_view(#[trigger] fences@[i]) == catalog()[i] by {
            assert(fence_views(fences@)[i] == fence_view(fences@[i]));
        }
        assert(fences@[0].name@ == "@caps"@);
        assert(fences@[1].name@ == "@max_depth"@);
    }
    let caps_code = match catalog_probe_code(&fences, "@caps") {
        Some(c) => c,
        None => String::new(),
    };
    let depth_code = match catalog_probe_code(&fences, "@max_depth") {
        Some(c) => c,
        None => String::new(),
    };
    proof {
        assert(caps_code@ == fences@[0].probe_code@);
        assert(depth_code@ == fences@[1].probe_code@);
    }
    let caps_probe = probe_from_report("@caps", caps_code.as_str(), &caps_report);
    let depth_probe = probe_from_report("@max_depth", depth_code.as_str(), &depth_report);
    let ghost cp = caps_probe;
    let ghost dp = depth_probe;
    let probes = vec![caps_probe, depth_probe];
    assert(probes@[0] == cp && probes@[1] == dp);
    assert(crate::text::string_views(probes@[0].observed_codes@) == observed_codes(caps_report));
    assert(crate::text::string_views(probes@[1].observed_codes@) == observed_codes(depth_report));
    proof {
        if reports is None {
            assert(observed_codes(caps_report).len() == 0);
            assert(crate::text::string_views(probes@[0].observed_codes@).len() == probes@[0].observed_codes@.len());
            assert(crate::text::string_views(probes@[1].observed_codes@).len() == probes@[1].observed_codes@.len());
        }
    }
    EnforcementLegend { fences, probes, cli_available }
}

/// The first two rows are `@caps` and `@max_depth`, and no other row has
/// either name.
proof fn lemma_catalog_names()
    ensures
        catalog()[0].0 == "@caps"@,
        catalog()[1].0 == "@max_depth"@,
        catalog()[0].0 != catalog()[1].0,
        forall|i: int| 1 <= i < catalog().len() ==> (#[trigger] catalog()[i]).0 != "@caps"@,
        forall|i: int| 2 <= i < catalog().len() ==> (#[trigger] catalog()[i]).0 != "@max_depth"@,
{
    reveal_strlit("@caps");
    reveal_strlit("@max_depth");
    reveal_strlit("@bounded");
    reveal_strlit("@mailbox");
    reveal_strlit("memory");
    reveal_strlit("time");
    reveal_strlit("OS sandbox (macOS / Windows)");
    let c = catalog();
    assert forall|i: int| 1 <= i < c.len() implies (#[trigger] c[i]).0 != "@caps"@ by {
        if i == 1 {
            assert(c[i].0.len() != "@caps"@.len());
        } else if i == 2 {
            assert(c[i].0[1] != "@caps"@[1]);
        } else if i == 3 {
            assert(c[i].0[1] != "@caps"@[1]);
        } else if i == 4 {
            assert(c[i].0.len() != "@caps"@.len());
        } else if i == 5 {
            assert(c[i].0.len() != "@caps"@.len());
        } else {
            assert(c[i].0.len() != "@caps"@.len());
        }
    }
    assert forall|i: int| 2 <= i < c.len() implies (#[trigger] c[i]).0 != "@max_depth"@ by {
        assert(c[i].0.len() != "@max_depth"@.len());
    }
}

} // verus!
