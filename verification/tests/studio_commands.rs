use garnet::bootstrap::{
    bootstrap_repo_gate, bootstrap_step_files, studio_bootstrap_plan_from_health,
    studio_bootstrap_run_step_impl, studio_bootstrap_run_step_resolved, BootstrapStep,
    HealthStatus,
};
use garnet::command::{
    advisory_assist_plan_impl, cli_convert_impl, contract_error, get_language_taxonomy, list,
    report_script_args, truncate_for_payload, CommandResult, PAYLOAD_STREAM_CAP,
    PAYLOAD_TRUNCATION_MARKER_NO_BUNDLE, PAYLOAD_TRUNCATION_MARKER_WITH_BUNDLE,
};
use garnet::enforcement::{
    enforcement_catalog, probe_from_report, studio_enforcement_legend_with_cli, FenceStatus,
};
use garnet::evidence::evidence_path_precheck;
use garnet::report::{
    diff_caps_report_from, studio_velocity_check_with_cli, velocity_report_from, CheckJson,
    DiagSpan, DiffCapsFnExpansion, DiffCapsVerdict, VelocityCheckReport, VelocityDiagnostic,
    VelocitySummary,
};
use serde_json::Value;

// ---- decoding the CLI's JSON the way the Studio's serde types do ----

fn str_list(v: Option<&Value>) -> Option<Vec<String>> {
    match v {
        None => Some(Vec::new()),
        Some(Value::Array(items)) => items
            .iter()
            .map(|i| i.as_str().map(|s| s.to_string()))
            .collect(),
        Some(_) => None,
    }
}

fn decode_verdict(text: &str) -> Option<DiffCapsVerdict> {
    let v: Value = serde_json::from_str(text).ok()?;
    let o = v.as_object()?;
    let expansions = match o.get("functions_caps_expanded") {
        None => Vec::new(),
        Some(Value::Array(items)) => {
            let mut out = Vec::new();
            for i in items {
                let e = i.as_object()?;
                out.push(DiffCapsFnExpansion {
                    name: e.get("name")?.as_str()?.to_string(),
                    gained: str_list(e.get("gained"))?,
                });
            }
            out
        }
        Some(_) => return None,
    };
    Some(DiffCapsVerdict {
        schema: o.get("schema")?.as_str()?.to_string(),
        verdict: o.get("verdict")?.as_str()?.to_string(),
        authority_expanded: o.get("authority_expanded")?.as_bool()?,
        capability_band: o.get("capability_band")?.as_str()?.to_string(),
        exit_code: o.get("exit_code")?.as_i64()? as i32,
        aggregate_gained: str_list(o.get("aggregate_gained"))?,
        aggregate_removed: str_list(o.get("aggregate_removed"))?,
        wildcard_introduced: match o.get("wildcard_introduced") {
            None => false,
            Some(b) => b.as_bool()?,
        },
        functions_added: str_list(o.get("functions_added"))?,
        functions_removed: str_list(o.get("functions_removed"))?,
        functions_caps_expanded: expansions,
        scope: match o.get("scope") {
            None => String::new(),
            Some(s) => s.as_str()?.to_string(),
        },
    })
}

fn decode_check(text: &str) -> Option<CheckJson> {
    let v: Value = serde_json::from_str(text).ok()?;
    let o = v.as_object()?;
    let mut diagnostics = Vec::new();
    for d in o.get("diagnostics")?.as_array()? {
        let d = d.as_object()?;
        let span = match d.get("span") {
            None | Some(Value::Null) => None,
            Some(s) => {
                let s = s.as_object()?;
                Some(DiagSpan {
                    start: s.get("start")?.as_u64()? as usize,
                    len: s.get("len")?.as_u64()? as usize,
                })
            }
        };
        diagnostics.push(VelocityDiagnostic {
            severity: d.get("severity")?.as_str()?.to_string(),
            code: d.get("code")?.as_str()?.to_string(),
            message: d.get("message")?.as_str()?.to_string(),
            span,
        });
    }
    let s = o.get("summary")?.as_object()?;
    let count = |k: &str| -> Option<usize> {
        match s.get(k) {
            None => Some(0),
            Some(v) => v.as_u64().map(|n| n as usize),
        }
    };
    Some(CheckJson {
        diagnostics,
        summary: VelocitySummary {
            errors: count("errors")?,
            warnings: count("warnings")?,
            infos: count("infos")?,
            ok: match s.get("ok") {
                None => false,
                Some(b) => b.as_bool()?,
            },
        },
    })
}

fn diff_caps_from(result: CommandResult) -> garnet::report::DiffCapsReport {
    let parsed = decode_verdict(result.stdout.trim());
    diff_caps_report_from(result, parsed)
}

fn velocity_from(result: CommandResult) -> VelocityCheckReport {
    let parsed = decode_check(result.stdout.trim());
    velocity_report_from(result, parsed)
}

#[test]
fn convert_rejects_advisory_languages() {
    let result = cli_convert_impl("sample.ts".to_string(), "TypeScript".to_string()).unwrap_err();
    assert!(!result.success);
    assert!(result.stderr.contains("not available"));
}

fn diff_caps_command_result(stdout: &str, stderr: &str, exit_code: i32) -> CommandResult {
    CommandResult {
        success: exit_code == 0,
        stdout: stdout.to_string(),
        stderr: stderr.to_string(),
        exit_code,
        command: vec![
            "garnet".to_string(),
            "diff-caps".to_string(),
            "--machine".to_string(),
        ],
        evidence_path: Some("C:/dogfood/diff-caps-20260628".to_string()),
        timed_out: false,
        duration_ms: 7,
        truncated: false,
    }
}

const DIFF_CAPS_SCOPE: &str = "declared-surface-only; does not prove absence of undeclared authority; bound annotations are not part of this surface";

const DIFF_CAPS_EXPANDED: &str = r#"{"schema":"garnet.diff-caps.machine/1","verdict":"authority-expanded","authority_expanded":true,"capability_band":"2/5","exit_code":1,"aggregate_gained":["net","proc"],"aggregate_removed":[],"wildcard_introduced":false,"functions_added":[],"functions_removed":[],"functions_caps_expanded":[{"name":"handle_request","gained":["net"]}],"scope":"declared-surface-only; does not prove absence of undeclared authority; bound annotations are not part of this surface"}"#;

#[test]
fn diff_caps_treats_exit_1_expansion_as_a_valid_verdict_not_a_failure() {
    let report = diff_caps_from(diff_caps_command_result(DIFF_CAPS_EXPANDED, "", 1));
    assert!(report.ran, "exit 1 must parse a verdict");
    let v = report.verdict.expect("verdict present");
    assert_eq!(v.capability_band, "2/5");
    assert_eq!(v.verdict, "authority-expanded");
    assert!(v.authority_expanded);
    assert_eq!(
        v.aggregate_gained,
        vec!["net".to_string(), "proc".to_string()]
    );
    assert_eq!(v.functions_caps_expanded[0].name, "handle_request");
    assert_eq!(v.functions_caps_expanded[0].gained, vec!["net".to_string()]);
    assert_eq!(
        report.evidence_path.as_deref(),
        Some("C:/dogfood/diff-caps-20260628")
    );
}

#[test]
fn diff_caps_parses_clean_verdict_from_exit_0() {
    let json = r#"{"schema":"garnet.diff-caps.machine/1","verdict":"no-authority-expansion","authority_expanded":false,"capability_band":"5/5","exit_code":0,"aggregate_gained":[],"aggregate_removed":[],"wildcard_introduced":false,"functions_added":[],"functions_removed":[],"functions_caps_expanded":[],"scope":"declared-surface-only; does not prove absence of undeclared authority; bound annotations are not part of this surface"}"#;
    let report = diff_caps_from(diff_caps_command_result(json, "", 0));
    assert!(report.ran);
    let v = report.verdict.unwrap();
    assert_eq!(v.capability_band, "5/5");
    assert_eq!(v.verdict, "no-authority-expansion");
    assert!(!v.authority_expanded);
    assert_eq!(v.scope, DIFF_CAPS_SCOPE);
}

#[test]
fn diff_caps_reports_usage_error_without_a_verdict() {
    let report = diff_caps_from(diff_caps_command_result("", "path not found", 2));
    assert!(!report.ran);
    assert!(report.verdict.is_none());
    assert_eq!(report.exit_code, 2);
    assert!(report.stderr.contains("path not found"));
}

#[test]
fn diff_caps_surfaces_the_cli_band_verbatim_never_recomputed() {
    let report = diff_caps_from(diff_caps_command_result(DIFF_CAPS_EXPANDED, "", 1));
    let v = report.verdict.unwrap();
    assert_eq!(v.scope, DIFF_CAPS_SCOPE);
    assert_eq!(v.schema, "garnet.diff-caps.machine/1");
}

#[test]
fn diff_caps_truncated_machine_json_does_not_blame_the_paths() {
    let mut result = diff_caps_command_result("{\"schema\":\"garnet.dif…[truncated]", "", 1);
    result.truncated = true;
    let report = diff_caps_from(result);
    assert!(!report.ran);
    assert!(report.stderr.contains("truncated"));
    assert!(report.stderr.contains("evidence bundle"));
    assert!(!report.stderr.contains("check that both paths"));
}

#[test]
fn diff_caps_unparseable_success_output_degrades_to_no_verdict() {
    for exit in [0, 1] {
        let report = diff_caps_from(diff_caps_command_result("not json at all", "", exit));
        assert!(!report.ran, "exit {exit} garbage stdout must not parse");
        assert!(report.verdict.is_none());
        assert!(report.stderr.contains("did not emit a verdict"));
    }
    let partial = r#"{"schema":"garnet.diff-caps.machine/1","capability_band":"2/5"}"#;
    let report = diff_caps_from(diff_caps_command_result(partial, "", 1));
    assert!(!report.ran);
}

#[test]
fn diff_caps_synthetic_message_fires_on_empty_streams() {
    let report = diff_caps_from(diff_caps_command_result("", "", 2));
    assert!(report.stderr.contains("did not emit a verdict"));
    assert!(report.stderr.contains("exit 2"));
}

#[test]
fn diff_caps_ignores_a_verdict_on_a_usage_error_exit() {
    let report = diff_caps_from(diff_caps_command_result(DIFF_CAPS_EXPANDED, "", 2));
    assert!(!report.ran);
    assert_eq!(
        report.stderr,
        "diff-caps did not emit a verdict (exit 2); check that both paths are valid .garnet files or directories."
    );
    let mut result = diff_caps_command_result("{", "", 1);
    result.truncated = true;
    result.evidence_path = None;
    let report = diff_caps_from(result);
    assert_eq!(
        report.stderr,
        "diff-caps emitted a verdict (exit 1) but its machine JSON was truncated at the display cap."
    );
}

fn velocity_cmd_result(stdout: &str, stderr: &str, exit_code: i32) -> CommandResult {
    CommandResult {
        success: exit_code == 0,
        stdout: stdout.to_string(),
        stderr: stderr.to_string(),
        exit_code,
        command: vec![
            "garnet".to_string(),
            "check".to_string(),
            "--format".to_string(),
            "json".to_string(),
        ],
        evidence_path: None,
        timed_out: false,
        duration_ms: 5,
        truncated: false,
    }
}

#[test]
fn velocity_parses_a_check_diagnostic_with_no_span() {
    let json = r#"{"diagnostics":[{"severity":"error","code":"check.caps_coverage","message":"fs::read_file requires @caps(fs)","span":null}],"summary":{"errors":1,"warnings":0,"infos":0,"ok":false}}"#;
    let report = velocity_from(velocity_cmd_result(json, "", 1));
    assert!(report.ran);
    assert_eq!(report.errors, 1);
    assert!(!report.ok);
    let d = &report.diagnostics[0];
    assert_eq!(d.severity, "error");
    assert_eq!(d.code, "check.caps_coverage");
    assert!(d.span.is_none(), "check diagnostics are message-only today");
}

#[test]
fn velocity_parses_a_parse_diagnostic_with_a_byte_span() {
    let json = r#"{"diagnostics":[{"severity":"error","code":"parse.reserved_word","message":"reserved word","span":{"start":12,"len":3}}],"summary":{"errors":1,"warnings":0,"infos":0,"ok":false}}"#;
    let report = velocity_from(velocity_cmd_result(json, "", 1));
    assert!(report.ran);
    let span = report.diagnostics[0]
        .span
        .as_ref()
        .expect("parse span present");
    assert_eq!(span.start, 12);
    assert_eq!(span.len, 3);
}

#[test]
fn velocity_clean_buffer_is_ok_with_no_diagnostics() {
    let json = r#"{"diagnostics":[],"summary":{"errors":0,"warnings":0,"infos":0,"ok":true}}"#;
    let report = velocity_from(velocity_cmd_result(json, "", 0));
    assert!(report.ran);
    assert!(report.ok);
    assert!(report.diagnostics.is_empty());
}

#[test]
fn velocity_exit_1_diagnostics_is_a_result_not_a_failure() {
    let json = r#"{"diagnostics":[{"severity":"warning","code":"check.boundary_note","message":"note","span":null}],"summary":{"errors":0,"warnings":1,"infos":0,"ok":true}}"#;
    let report = velocity_from(velocity_cmd_result(json, "", 1));
    assert!(
        report.ran,
        "diagnostics present (exit 1) is the check working"
    );
    assert_eq!(report.warnings, 1);
}

#[test]
fn velocity_non_json_output_degrades_to_ran_false() {
    let report = velocity_from(velocity_cmd_result("garnet: command not found", "boom", -1));
    assert!(!report.ran);
    assert!(report.diagnostics.is_empty());
    assert_eq!(report.stderr, "boom");
}

#[test]
fn velocity_empty_streams_get_actionable_guidance() {
    let report = velocity_from(velocity_cmd_result("", "", 2));
    assert!(!report.ran);
    assert!(report.stderr.contains("no diagnostics JSON"));
    assert!(report.stderr.contains("exit 2"));
}

#[test]
fn velocity_rejects_a_bare_json_object_as_not_a_check_report() {
    for junk in [
        "{}",
        "[]",
        r#"{"hello":"world"}"#,
        r#"{"summary":{"ok":true}}"#,
    ] {
        let report = velocity_from(velocity_cmd_result(junk, "", 0));
        assert!(!report.ran, "{junk:?} must not parse as a check report");
    }
}

#[test]
fn velocity_check_refuses_without_a_cli_and_writes_no_temp_file() {
    let report = studio_velocity_check_with_cli(None).unwrap_err();
    assert!(!report.ran);
    assert_eq!(report.exit_code, -1);
    assert!(report.stderr.contains("Garnet CLI not found"));
}

#[test]
fn velocity_negative_exit_is_rendered_with_its_sign() {
    let report = velocity_from(velocity_cmd_result("", "  \n", -1));
    assert_eq!(
        report.stderr,
        "garnet check produced no diagnostics JSON (exit -1); the CLI may be missing or the check timed out."
    );
}

fn legend_report(ran: bool, codes: &[&str]) -> VelocityCheckReport {
    VelocityCheckReport {
        ran,
        diagnostics: codes
            .iter()
            .map(|c| VelocityDiagnostic {
                severity: "error".to_string(),
                code: (*c).to_string(),
                message: "x".to_string(),
                span: None,
            })
            .collect(),
        errors: codes.len(),
        warnings: 0,
        infos: 0,
        ok: false,
        exit_code: if codes.is_empty() { 0 } else { 1 },
        stderr: String::new(),
    }
}

#[test]
fn enforcement_catalog_covers_every_fence_with_an_honest_status() {
    let fences = enforcement_catalog();
    let names: Vec<&str> = fences.iter().map(|f| f.name.as_str()).collect();
    for expected in [
        "@caps",
        "@max_depth",
        "@bounded",
        "@mailbox",
        "memory",
        "time",
        "OS sandbox (macOS / Windows)",
    ] {
        assert!(names.contains(&expected), "missing fence: {expected}");
    }

    for f in &fences {
        match f.status {
            FenceStatus::Enforced => {
                assert!(!f.probe_code.is_empty(), "{} needs a probe code", f.name);
                assert!(
                    !f.runtime_attested_by.is_empty(),
                    "{} needs a runtime attestation",
                    f.name
                );
            }
            FenceStatus::Declared | FenceStatus::Deferred => {
                assert!(
                    f.probe_code.is_empty(),
                    "{} is not enforced; it must not carry a probe code",
                    f.name
                );
                assert!(
                    f.runtime_attested_by.is_empty(),
                    "{} is not enforced; it must not claim a runtime trap",
                    f.name
                );
            }
        }
    }

    let enforced: Vec<&str> = fences
        .iter()
        .filter(|f| f.status == FenceStatus::Enforced)
        .map(|f| f.name.as_str())
        .collect();
    assert_eq!(
        enforced,
        vec!["@caps", "@max_depth"],
        "only @caps and @max_depth are enforced"
    );
}

#[test]
fn enforcement_probe_confirms_only_on_the_expected_code_from_a_run_that_ran() {
    let hit = probe_from_report(
        "@caps",
        "check.caps_coverage",
        &legend_report(true, &["check.caps_coverage"]),
    );
    assert!(hit.confirmed);
    assert!(hit.ran);
    assert_eq!(hit.observed_codes, vec!["check.caps_coverage".to_string()]);

    let miss = probe_from_report(
        "@caps",
        "check.caps_coverage",
        &legend_report(true, &["parse.reserved_word"]),
    );
    assert!(!miss.confirmed);

    let stale = probe_from_report(
        "@caps",
        "check.caps_coverage",
        &legend_report(false, &["check.caps_coverage"]),
    );
    assert!(!stale.confirmed, "a check that did not run cannot confirm");
    assert!(!stale.ran);
}

#[test]
fn enforcement_legend_without_a_cli_renders_but_marks_probes_inconclusive() {
    let legend = studio_enforcement_legend_with_cli(None);
    assert!(!legend.cli_available);
    assert_eq!(legend.fences.len(), 7);
    assert_eq!(legend.probes.len(), 2);
    for p in &legend.probes {
        assert!(!p.ran, "{} probe cannot run without a CLI", p.fence);
        assert!(!p.confirmed, "{} probe must not be confirmed", p.fence);
    }
}

#[test]
fn enforcement_probe_expected_code_is_sourced_from_the_catalog() {
    let legend = studio_enforcement_legend_with_cli(None);
    for probe in &legend.probes {
        let fence = legend
            .fences
            .iter()
            .find(|f| f.name == probe.fence)
            .expect("every probe's fence is in the catalog");
        assert_eq!(
            probe.expected_code, fence.probe_code,
            "{}: probe expected_code must equal the catalog probe_code",
            probe.fence
        );
        assert!(
            !probe.expected_code.is_empty(),
            "{}: empty code",
            probe.fence
        );
    }
}

#[test]
fn enforcement_probe_confirms_amid_noise_but_not_on_an_empty_run() {
    let noisy = probe_from_report(
        "@caps",
        "check.caps_coverage",
        &legend_report(true, &["check.caps_coverage", "check.boundary_note"]),
    );
    assert!(
        noisy.confirmed,
        "expected code present among others must confirm"
    );

    let empty = probe_from_report("@caps", "check.caps_coverage", &legend_report(true, &[]));
    assert!(!empty.confirmed, "a run with no diagnostics cannot confirm");
    assert!(empty.ran);
}

#[test]
fn enforcement_legend_with_reports_confirms_each_gate_from_its_own_run() {
    let legend = studio_enforcement_legend_with_cli(Some((
        legend_report(true, &["check.caps_coverage"]),
        legend_report(true, &["check.caps_coverage"]),
    )));
    assert!(legend.cli_available);
    assert!(legend.probes[0].confirmed);
    assert!(!legend.probes[1].confirmed, "@max_depth needs check.annotation_error");
    assert_eq!(legend.probes[1].expected_code, "check.annotation_error");
}

#[test]
fn bootstrap_step_parse_rejects_anything_off_the_allowlist() {
    for bad in [
        "rm -rf /",
        "install-everything",
        "build",
        "",
        "preflight; calc",
    ] {
        let err = BootstrapStep::parse(bad).unwrap_err();
        assert!(err.contains("unknown bootstrap step"), "got: {err}");
        assert!(
            err.contains("preflight"),
            "error must list allowed steps: {err}"
        );
    }
}

#[test]
fn bootstrap_step_parse_accepts_exactly_the_four_typed_ids() {
    assert_eq!(
        BootstrapStep::parse("preflight"),
        Ok(BootstrapStep::Preflight)
    );
    assert_eq!(
        BootstrapStep::parse("install-python"),
        Ok(BootstrapStep::InstallPython)
    );
    assert_eq!(
        BootstrapStep::parse("  build-cli  "),
        Ok(BootstrapStep::BuildCli)
    );
    assert_eq!(
        BootstrapStep::parse("configure-env"),
        Ok(BootstrapStep::ConfigureEnv)
    );
}

#[test]
fn bootstrap_step_parse_quotes_the_rejected_id_like_debug() {
    let err = BootstrapStep::parse("  a\"b  ").unwrap_err();
    assert_eq!(
        err,
        "unknown bootstrap step \"a\\\"b\"; allowed steps: preflight, install-python, build-cli, configure-env"
    );
}

#[test]
fn bootstrap_repo_gate_blocks_repo_steps_when_no_checkout_is_found() {
    for step in [BootstrapStep::BuildCli, BootstrapStep::ConfigureEnv] {
        let err = bootstrap_repo_gate(step, None).unwrap_err();
        assert!(err.contains(step.id()), "error must name the step: {err}");
        assert!(
            err.contains("Garnet repo"),
            "error must explain the cause: {err}"
        );
    }
}

#[test]
fn bootstrap_repo_gate_lets_repoless_steps_run_and_passes_a_repo_through() {
    assert_eq!(
        bootstrap_repo_gate(BootstrapStep::Preflight, None),
        Ok(None)
    );
    assert_eq!(
        bootstrap_repo_gate(BootstrapStep::InstallPython, None),
        Ok(None)
    );
    let repo = Some("/some/garnet".to_string());
    assert_eq!(
        bootstrap_repo_gate(BootstrapStep::BuildCli, repo.clone()),
        Ok(repo)
    );
}

#[test]
fn bootstrap_step_intent_mapping_is_stable() {
    assert!(BootstrapStep::BuildCli.needs_repo());
    assert!(BootstrapStep::ConfigureEnv.needs_repo());
    assert!(!BootstrapStep::Preflight.needs_repo());
    assert!(!BootstrapStep::InstallPython.needs_repo());
    assert!(BootstrapStep::BuildCli.is_long_running());
    assert!(!BootstrapStep::Preflight.is_long_running());
    assert!(!BootstrapStep::ConfigureEnv.is_long_running());
}

#[test]
fn bootstrap_run_step_impl_refuses_unknown_step_before_spawning_anything() {
    let result = studio_bootstrap_run_step_impl("install-everything".to_string()).unwrap_err();
    assert!(!result.success);
    assert!(result.stderr.contains("unknown bootstrap step"));
    assert!(result.evidence_path.is_none());
    assert_eq!(result.exit_code, -1);
}

fn sample_health() -> HealthStatus {
    HealthStatus {
        cli_found: true,
        cli_path: "C:/Garnet/bin/garnet.exe".to_string(),
        cli_version: "garnet 0.8.1".to_string(),
        repo_found: true,
        repo_path: "C:/Garnet".to_string(),
        python_found: true,
        python_version: "Python 3.12.0".to_string(),
        evidence_dir: "C:/dogfood/garnet-studio-windows-linux".to_string(),
        platform: "windows".to_string(),
        arch: "x86_64".to_string(),
    }
}

#[test]
fn bootstrap_run_step_resolved_refuses_a_repo_step_without_a_checkout() {
    for step in [BootstrapStep::BuildCli, BootstrapStep::ConfigureEnv] {
        let result = studio_bootstrap_run_step_resolved(step, None, true, Some("pwsh".to_string()))
            .unwrap_err();
        assert!(!result.success, "{} should be refused", step.id());
        assert!(result.stderr.contains("needs a Garnet repo"));
        assert!(
            result.evidence_path.is_none(),
            "no bundle may be created for a refused step"
        );
        assert_eq!(result.exit_code, -1);
    }
}

#[test]
fn bootstrap_run_step_resolved_refuses_off_windows_instead_of_faking_success() {
    let result = studio_bootstrap_run_step_resolved(BootstrapStep::Preflight, None, false, None)
        .unwrap_err();
    assert!(!result.success);
    assert!(result.stderr.contains("only run on Windows"));
    assert!(result.evidence_path.is_none());
}

#[test]
fn bootstrap_run_step_resolved_needs_a_powershell_host_and_then_launches() {
    let refused =
        studio_bootstrap_run_step_resolved(BootstrapStep::Preflight, None, true, None).unwrap_err();
    assert!(refused.stderr.contains("no PowerShell host"));
    let launch = studio_bootstrap_run_step_resolved(
        BootstrapStep::BuildCli,
        Some("C:/Garnet".to_string()),
        true,
        Some("powershell".to_string()),
    )
    .unwrap();
    assert_eq!(launch.step, BootstrapStep::BuildCli);
    assert_eq!(launch.powershell, "powershell");
    assert_eq!(launch.repo_root.as_deref(), Some("C:/Garnet"));
}

#[test]
fn repo_scripts_declare_the_param_block_first() {
    let health = sample_health();
    for step in [BootstrapStep::BuildCli, BootstrapStep::ConfigureEnv] {
        let body = step.script_contents(&health);
        let first = body
            .lines()
            .map(str::trim)
            .find(|line| !line.is_empty() && !line.starts_with('#'))
            .unwrap_or("");
        assert!(
            first.starts_with("param("),
            "{} must open with param(): got {first:?}",
            step.id()
        );
        let param_at = body.find("param(").unwrap();
        let eap_at = body.find("$ErrorActionPreference").unwrap();
        assert!(
            param_at < eap_at,
            "{}: param() must precede $ErrorActionPreference",
            step.id()
        );
    }
}

#[test]
fn bootstrap_step_files_are_the_single_source_for_write_and_run() {
    let health = sample_health();
    let files = bootstrap_step_files(&health);
    let names: Vec<_> = files.iter().map(|(name, _)| *name).collect();
    let expected: Vec<_> = BootstrapStep::all().iter().map(|s| s.script_name()).collect();
    assert_eq!(
        names, expected,
        "the write path must emit exactly the enum's scripts"
    );
    for (step, (_, body)) in BootstrapStep::all().iter().zip(files.iter()) {
        assert_eq!(*body, step.script_contents(&health));
    }
}

#[test]
fn scripts_quote_found_paths_for_powershell() {
    let mut health = sample_health();
    health.repo_path = "C:/it's here".to_string();
    let body = BootstrapStep::BuildCli.script_contents(&health);
    assert!(body.starts_with("param(\n  [string]$Repo = 'C:/it''s here',\n"));
    health.repo_found = false;
    health.cli_found = false;
    let body = BootstrapStep::ConfigureEnv.script_contents(&health);
    assert!(body.starts_with(
        "param(\n  [string]$Repo = $env:GARNET_REPO,\n  [string]$Cli = (Join-Path $env:LOCALAPPDATA 'Garnet\\bin\\garnet.exe')\n)\n"
    ));
}

#[test]
fn advisory_plan_rejects_active_conversion_languages() {
    let result = advisory_assist_plan_impl("sample.rs".to_string(), "Rust".to_string()).unwrap_err();
    assert!(!result.success);
    assert!(result.stderr.contains("not available"));
}

#[test]
fn language_gates_pass_the_normal_form() {
    assert_eq!(
        cli_convert_impl("a.py".to_string(), "  Python ".to_string()).unwrap(),
        "python"
    );
    assert_eq!(
        advisory_assist_plan_impl("a.ts".to_string(), "TypeScript".to_string()).unwrap(),
        vec!["--language", "typescript", "--source", "a.ts"]
    );
    let refused = cli_convert_impl("a.x".to_string(), "Cobol".to_string()).unwrap_err();
    assert_eq!(
        refused.stderr,
        "Cobol is not available for this action. Active conversion is Rust, Ruby, Python, and Go; advisory planning is separated."
    );
}

#[test]
fn taxonomy_preserves_copy_truth() {
    let taxonomy = get_language_taxonomy();
    assert_eq!(
        taxonomy[0].languages,
        list(&["Rust", "Ruby", "Python", "Go"])
    );
    assert!(taxonomy[1].languages.contains(&"TypeScript".to_string()));
    assert!(taxonomy[2].languages.contains(&"CUDA".to_string()));
    assert!(taxonomy[3].languages.contains(&"Wasm".to_string()));
}

#[test]
fn report_script_args_preserve_output_format_and_extra_garnet_cli() {
    let args = report_script_args(
        "bundle-dir".to_string(),
        "markdown",
        vec!["--garnet".to_string(), "target/release/garnet".to_string()],
    );

    assert_eq!(
        args,
        vec![
            "--output-dir",
            "bundle-dir",
            "--format",
            "markdown",
            "--garnet",
            "target/release/garnet"
        ]
    );
}

#[test]
fn bootstrap_plan_turns_missing_health_into_actionable_setup_steps() {
    let health = HealthStatus {
        cli_found: false,
        cli_path: String::new(),
        cli_version: String::new(),
        repo_found: false,
        repo_path: String::new(),
        python_found: false,
        python_version: String::new(),
        evidence_dir: "C:/dogfood/garnet-studio-windows-linux".to_string(),
        platform: "windows".to_string(),
        arch: "x86_64".to_string(),
    };

    let plan = studio_bootstrap_plan_from_health(&health);
    assert!(!plan.ready);
    assert_eq!(0, plan.ready_count);
    assert_eq!(3, plan.total_count);
    assert!(plan
        .requirements
        .iter()
        .any(|step| step.id == "garnet-cli" && step.action.contains("Install Garnet CLI")));
    assert!(plan
        .requirements
        .iter()
        .any(|step| step.id == "repo" && step.action.contains("Set GARNET_REPO")));
    assert!(plan
        .requirements
        .iter()
        .any(|step| step.id == "python" && step.action.contains("Install Python")));
    assert!(plan
        .safety_notes
        .iter()
        .any(|note| note.contains("No provider APIs are called")));
}

#[test]
fn bootstrap_plan_of_a_ready_machine_says_so() {
    let plan = studio_bootstrap_plan_from_health(&sample_health());
    assert!(plan.ready);
    assert_eq!(plan.ready_count, 3);
    assert_eq!(plan.requirements[0].command, "C:/Garnet/bin/garnet.exe version");
    assert_eq!(plan.requirements[1].command, "$env:GARNET_REPO = 'C:/Garnet'");
    assert!(plan.summary.starts_with("All local prerequisites are detected."));
    let mut partial = sample_health();
    partial.python_found = false;
    let plan = studio_bootstrap_plan_from_health(&partial);
    assert!(plan.summary.starts_with("2 of 3 prerequisites are detected."));
}

#[test]
fn payload_truncation_caps_oversized_output_and_marks_it_honestly() {
    let oversized = "g".repeat(PAYLOAD_STREAM_CAP + 64);
    let (text, truncated) = truncate_for_payload(oversized.clone(), true);
    assert!(truncated);
    assert!(text.ends_with(PAYLOAD_TRUNCATION_MARKER_WITH_BUNDLE));
    assert!(text.len() <= PAYLOAD_STREAM_CAP + PAYLOAD_TRUNCATION_MARKER_WITH_BUNDLE.len());

    let (text, truncated) = truncate_for_payload(oversized, false);
    assert!(truncated);
    assert!(text.ends_with(PAYLOAD_TRUNCATION_MARKER_NO_BUNDLE));

    let small = "ok".to_string();
    let (text, truncated) = truncate_for_payload(small.clone(), true);
    assert!(!truncated);
    assert_eq!(text, small);
}

#[test]
fn payload_truncation_never_splits_a_character() {
    // 'é' is two bytes: the cap falls inside the last one, which must go whole
    let text = format!("{}é", "a".repeat(PAYLOAD_STREAM_CAP - 1));
    let (out, truncated) = truncate_for_payload(text, false);
    assert!(truncated);
    assert_eq!(
        out,
        format!("{}{}", "a".repeat(PAYLOAD_STREAM_CAP - 1), PAYLOAD_TRUNCATION_MARKER_NO_BUNDLE)
    );
    let exact = "b".repeat(PAYLOAD_STREAM_CAP);
    assert_eq!(truncate_for_payload(exact.clone(), true), (exact, false));
}

#[test]
fn evidence_reader_rejects_paths_outside_evidence_roots() {
    let err = evidence_path_precheck("  ").expect_err("an empty path must be rejected");
    assert!(err.contains("empty"));
    assert_eq!(evidence_path_precheck("  /tmp/x ").unwrap(), "/tmp/x");
    assert!(garnet::evidence::outside_roots().contains("outside the Studio evidence roots"));
}

#[test]
fn contract_errors_never_claim_a_run() {
    let r = contract_error("nope".to_string());
    assert!(!r.success);
    assert_eq!(r.exit_code, -1);
    assert_eq!(r.stderr, "nope");
    assert!(r.command.is_empty());
    assert!(r.evidence_path.is_none());
}
