//! What the Studio makes of the CLI's machine output: the live check
//! (`garnet check --format json`) behind the velocity editor, and the
//! capability-diff verdict (`garnet diff-caps --machine`).
//!
//! Both take the JSON as the CLI decided it; nothing here reclassifies a
//! diagnostic or recomputes a verdict. Decoding the JSON text into these
//! types happens at the edge; the functions below receive the decoded value
//! (or its absence) together with the raw run.

use vstd::prelude::*;
use vstd::string::*;
use crate::command::CommandResult;
use crate::text::{is_blank, push_signed_decimal, signed_decimal, trim};

verus! {

/// A `(start, len)` byte span of a diagnostic.
#[derive(Debug, Clone, Copy, PartialEq, Eq, Structural)]
pub struct DiagSpan {
    pub start: usize,
    pub len: usize,
}

/// One diagnostic of the check JSON, verbatim.
#[derive(Debug, Clone)]
pub struct VelocityDiagnostic {
    pub severity: String,
    pub code: String,
    pub message: String,
    pub span: Option<DiagSpan>,
}

/// The summary counts of the check JSON.
#[derive(Debug, Clone, Copy, PartialEq, Eq, Structural)]
pub struct VelocitySummary {
    pub errors: usize,
    pub warnings: usize,
    pub infos: usize,
    pub ok: bool,
}

impl Default for VelocitySummary {
    fn default() -> (s: VelocitySummary)
        ensures
            s == (VelocitySummary { errors: 0, warnings: 0, infos: 0, ok: false }),
    {
        VelocitySummary { errors: 0, warnings: 0, infos: 0, ok: false }
    }
}

/// The wire form of `garnet check --format json`: both keys required.
#[derive(Debug, Clone)]
pub struct CheckJson {
    pub diagnostics: Vec<VelocityDiagnostic>,
    pub summary: VelocitySummary,
}

/// What the velocity editor receives. `ran` is true exactly when the CLI
/// emitted parseable diagnostics JSON.
#[derive(Debug, Clone)]
pub struct VelocityCheckReport {
    pub ran: bool,
    pub diagnostics: Vec<VelocityDiagnostic>,
    pub errors: usize,
    pub warnings: usize,
    pub infos: usize,
    pub ok: bool,
    pub exit_code: i32,
    pub stderr: String,
}

/// Whether `r` is the report of a check that could not run, with `message`.
pub open spec fn is_velocity_error(r: VelocityCheckReport, message: Seq<char>, exit_code: i32) -> bool {
    &&& !r.ran
    &&& r.diagnostics@.len() == 0
    &&& r.errors == 0
    &&& r.warnings == 0
    &&& r.infos == 0
    &&& !r.ok
    &&& r.exit_code == exit_code
    &&& r.stderr@ == message
}

/// The report of a check that could not run.
pub fn velocity_error(message: String, exit_code: i32) -> (r: VelocityCheckReport)
    ensures
        is_velocity_error(r, message@, exit_code),
{
    VelocityCheckReport {
        ran: false,
        diagnostics: Vec::new(),
        errors: 0,
        warnings: 0,
        infos: 0,
        ok: false,
        exit_code,
        stderr: message,
    }
}

/// The explanation of a run that produced no diagnostics JSON and no error
/// text of its own.
pub open spec fn no_json_message(exit_code: i32) -> Seq<char> {
    "garnet check produced no diagnostics JSON (exit "@ + signed_decimal(exit_code as int)
        + "); the CLI may be missing or the check timed out."@
}

/// The report of a check run, given the run and the decoding of its trimmed
/// standard output (`None` when it is not the check JSON). Diagnostics
/// present is the check working, whatever the exit code.
pub fn velocity_report_from(result: CommandResult, parsed: Option<CheckJson>) -> (r: VelocityCheckReport)
    ensures
        match parsed {
            Some(p) => r.ran && r.diagnostics@ == p.diagnostics@ && r.errors == p.summary.errors
                && r.warnings == p.summary.warnings && r.infos == p.summary.infos && r.ok
                == p.summary.ok && r.exit_code == result.exit_code && r.stderr@ == result.stderr@,
            None => is_velocity_error(
                r,
                if trim(result.stderr@).len() == 0 {
                    no_json_message(result.exit_code)
                } else {
                    result.stderr@
                },
                result.exit_code,
            ),
        },
{
    match parsed {
        Some(p) => VelocityCheckReport {
            ran: true,
            errors: p.summary.errors,
            warnings: p.summary.warnings,
            infos: p.summary.infos,
            ok: p.summary.ok,
            diagnostics: p.diagnostics,
            exit_code: result.exit_code,
            stderr: result.stderr,
        },
        None => {
            let stderr = if is_blank(result.stderr.as_str()) {
                let mut m = String::from_str("garnet check produced no diagnostics JSON (exit ");
                push_signed_decimal(&mut m, result.exit_code);
                m.append("); the CLI may be missing or the check timed out.");
                m
            } else {
                result.stderr
            };
            velocity_error(stderr, result.exit_code)
        },
    }
}

/// The message when no CLI is available for a live check.
pub open spec fn no_cli_message() -> Seq<char> {
    "Garnet CLI not found. Set GARNET_CLI or add garnet to PATH."@
}

/// The live check's first gate: without a CLI the check cannot run.
pub fn studio_velocity_check_with_cli(cli: Option<String>) -> (r: Result<String, VelocityCheckReport>)
    ensures
        match cli {
            Some(c) => r is Ok && r->Ok_0@ == c@,
            None => r is Err && is_velocity_error(r->Err_0, no_cli_message(), -1i32),
        },
{
    match cli {
        Some(path) => Ok(path),
        None => Err(
            velocity_error(
                String::from_str("Garnet CLI not found. Set GARNET_CLI or add garnet to PATH."),
                -1,
            ),
        ),
    }
}

/// The check's arguments for a scratch file.
pub fn velocity_check_args(scratch_file: String) -> (v: Vec<String>)
    ensures
        crate::text::string_views(v@) == seq!["check"@, "--format"@, "json"@, scratch_file@],
{
    let v = vec![
        String::from_str("check"),
        String::from_str("--format"),
        String::from_str("json"),
        scratch_file,
    ];
    assert(crate::text::string_views(v@) =~= seq!["check"@, "--format"@, "json"@, v@[3]@]);
    v
}

// ---------------------------------------------------------------------------
// Capability diff
// ---------------------------------------------------------------------------

/// One function whose declared capabilities grew.
#[derive(Debug, Clone)]
pub struct DiffCapsFnExpansion {
    pub name: String,
    pub gained: Vec<String>,
}

/// The `garnet.diff-caps.machine/1` verdict, as the CLI emitted it.
#[derive(Debug, Clone)]
pub struct DiffCapsVerdict {
    pub schema: String,
    pub verdict: String,
    pub authority_expanded: bool,
    pub capability_band: String,
    pub exit_code: i32,
    pub aggregate_gained: Vec<String>,
    pub aggregate_removed: Vec<String>,
    pub wildcard_introduced: bool,
    pub functions_added: Vec<String>,
    pub functions_removed: Vec<String>,
    pub functions_caps_expanded: Vec<DiffCapsFnExpansion>,
    pub scope: String,
}

/// What the capability-diff panel receives.
#[derive(Debug, Clone)]
pub struct DiffCapsReport {
    pub ran: bool,
    pub verdict: Option<DiffCapsVerdict>,
    pub exit_code: i32,
    pub stderr: String,
    pub evidence_path: Option<String>,
    pub command: Vec<String>,
}

/// Whether an exit code carries a verdict (zero: nothing widened; one:
/// authority widened). Other codes mean the command was misused.
pub open spec fn is_verdict_exit(code: i32) -> bool {
    code == 0 || code == 1
}

/// The panel's error text for a run without a usable verdict.
pub open spec fn diff_caps_stderr(result: CommandResult, has_verdict: bool) -> Seq<char> {
    if has_verdict {
        result.stderr@
    } else if is_verdict_exit(result.exit_code) && result.truncated {
        match result.evidence_path {
            Some(path) => "diff-caps emitted a verdict (exit "@ + signed_decimal(
                result.exit_code as int,
            )
                + ") but its machine JSON was truncated at the display cap; the full verdict is in the evidence bundle at "@
                + path@ + "."@,
            None => "diff-caps emitted a verdict (exit "@ + signed_decimal(result.exit_code as int)
                + ") but its machine JSON was truncated at the display cap."@,
        }
    } else if trim(result.stderr@).len() == 0 {
        "diff-caps did not emit a verdict (exit "@ + signed_decimal(result.exit_code as int)
            + "); check that both paths are valid .garnet files or directories."@
    } else {
        result.stderr@
    }
}

/// The panel report of a capability-diff run, given the run and the
/// decoding of its trimmed standard output. Both verdict codes count as
/// success; any other code leaves the decoding unread. When the
/// JSON of a verdict was cut at the display cap, the paths are not blamed.
pub fn diff_caps_report_from(result: CommandResult, parsed: Option<DiffCapsVerdict>) -> (r: DiffCapsReport)
    ensures
        r.verdict == (if is_verdict_exit(result.exit_code) {
            parsed
        } else {
            None
        }),
        r.ran == r.verdict is Some,
        r.exit_code == result.exit_code,
        r.stderr@ == diff_caps_stderr(result, r.verdict is Some),
        r.evidence_path == result.evidence_path,
        r.command@ == result.command@,
{
    let verdict = if result.exit_code == 0 || result.exit_code == 1 {
        parsed
    } else {
        None
    };
    let stderr = if verdict.is_some() {
        result.stderr
    } else if (result.exit_code == 0 || result.exit_code == 1) && result.truncated {
        match &result.evidence_path {
            Some(path) => {
                let mut m = String::from_str("diff-caps emitted a verdict (exit ");
                push_signed_decimal(&mut m, result.exit_code);
                m.append(
                    ") but its machine JSON was truncated at the display cap; the full verdict is in the evidence bundle at ",
                );
                m.append(path.as_str());
                m.append(".");
                m
            },
            None => {
                let mut m = String::from_str("diff-caps emitted a verdict (exit ");
                push_signed_decimal(&mut m, result.exit_code);
                m.append(") but its machine JSON was truncated at the display cap.");
                m
            },
        }
    } else if is_blank(result.stderr.as_str()) {
        let mut m = String::from_str("diff-caps did not emit a verdict (exit ");
        push_signed_decimal(&mut m, result.exit_code);
        m.append("); check that both paths are valid .garnet files or directories.");
        m
    } else {
        result.stderr
    };
    let ran = verdict.is_some();
    DiffCapsReport {
        ran,
        verdict,
        exit_code: result.exit_code,
        stderr,
        evidence_path: result.evidence_path,
        command: result.command,
    }
}

/// The CLI arguments of a capability diff between two paths.
pub fn diff_caps_args(old_path: String, new_path: String) -> (v: Vec<String>)
    ensures
        crate::text::string_views(v@) == seq!["diff-caps"@, "--machine"@, old_path@, new_path@],
{
    let v = vec![String::from_str("diff-caps"), String::from_str("--machine"), old_path, new_path];
    assert(crate::text::string_views(v@) =~= seq![
        "diff-caps"@,
        "--machine"@,
        v@[2]@,
        v@[3]@,
    ]);
    v
}

} // verus!
