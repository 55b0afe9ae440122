//! Studio bootstrap: the prerequisite plan derived from a health probe, the
//! four typed setup steps, their PowerShell scripts and the gates a step
//! passes before anything is written or spawned.
//!
//! Studio never runs an arbitrary shell string: a step is one of four typed
//! values, parsed from an allowlist, and its script body is the single
//! source for both "Write scripts" and "Run".

use vstd::prelude::*;
use vstd::string::*;
use crate::command::{contract_error, is_refusal, CommandResult};
use crate::settings::StudioSettings;
use crate::text::{decimal, push_decimal, str_eq, string_push, trim, trim_str};

verus! {

/// What the health probe found on this machine.
#[derive(Debug, Clone)]
pub struct HealthStatus {
    pub cli_found: bool,
    pub cli_path: String,
    pub cli_version: String,
    pub repo_found: bool,
    pub repo_path: String,
    pub python_found: bool,
    pub python_version: String,
    pub evidence_dir: String,
    pub platform: String,
    pub arch: String,
}

/// One prerequisite row of the bootstrap plan.
#[derive(Debug, Clone)]
pub struct BootstrapRequirement {
    pub id: String,
    pub label: String,
    pub found: bool,
    pub detected: String,
    pub action: String,
    pub command: String,
    pub evidence_note: String,
}

/// The bootstrap plan the Studio displays.
#[derive(Debug, Clone)]
pub struct BootstrapPlan {
    pub ready: bool,
    pub ready_count: usize,
    pub total_count: usize,
    pub evidence_dir: String,
    pub summary: String,
    pub requirements: Vec<BootstrapRequirement>,
    pub safety_notes: Vec<String>,
}

// ---------------------------------------------------------------------------
// PowerShell quoting
// ---------------------------------------------------------------------------

/// `s` with every single quote doubled.
pub open spec fn double_quotes(s: Seq<char>) -> Seq<char>
    decreases s.len(),
{
    if s.len() == 0 {
        Seq::empty()
    } else {
        double_quotes(s.drop_last()) + if s.last() == '\'' {
            seq!['\'', '\'']
        } else {
            seq![s.last()]
        }
    }
}

/// A PowerShell single-quoted string literal denoting `s`.
pub open spec fn ps_quoted(s: Seq<char>) -> Seq<char> {
    seq!['\''] + double_quotes(s) + seq!['\'']
}

/// Quotes `value` as a PowerShell single-quoted literal.
pub fn ps_quote(value: &str) -> (q: String)
    ensures
        q@ == ps_quoted(value@),
{
    let chars = crate::text::chars_vec(value);
    let mut out = String::new();
    string_push(&mut out, '\'');
    let mut i: usize = 0;
    while i < chars.len()
        invariant
            chars@ == value@,
            i <= chars@.len(),
            out@ == seq!['\''] + double_quotes(value@.subrange(0, i as int)),
        decreases chars@.len() - i,
    {
        let c = chars[i];
        if c == '\'' {
            string_push(&mut out, '\'');
            string_push(&mut out, '\'');
        } else {
            string_push(&mut out, c);
        }
        proof {
            let pre = value@.subrange(0, i as int + 1);
            assert(pre.drop_last() =~= value@.subrange(0, i as int));
            assert(pre.last() == c);
        }
        i = i + 1;
        proof {
            assert(out@ =~= seq!['\''] + double_quotes(value@.subrange(0, i as int)));
        }
    }
    assert(value@.subrange(0, i as int) =~= value@);
    string_push(&mut out, '\'');
    out
}

// ---------------------------------------------------------------------------
// The plan
// ---------------------------------------------------------------------------

/// The fields of a requirement row, as text.
pub open spec fn requirement_view(r: BootstrapRequirement) -> (
    Seq<char>,
    Seq<char>,
    bool,
    Seq<char>,
    Seq<char>,
    Seq<char>,
    Seq<char>,
) {
    (r.id@, r.label@, r.found, r.detected@, r.action@, r.command@, r.evidence_note@)
}

/// The Garnet CLI row for a health probe.
pub open spec fn cli_requirement(h: HealthStatus) -> (
    Seq<char>,
    Seq<char>,
    bool,
    Seq<char>,
    Seq<char>,
    Seq<char>,
    Seq<char>,
) {
    (
        "garnet-cli"@,
        "Garnet CLI"@,
        h.cli_found,
        if h.cli_found { h.cli_path@ } else { "not found"@ },
        if h.cli_found {
            "Keep this CLI on PATH or in GARNET_CLI."@
        } else {
            "Install Garnet CLI from the repo build, then set GARNET_CLI."@
        },
        if h.cli_found { h.cli_path@ + " version"@ } else { "cargo build --release -p garnet-cli"@ },
        "Required before Parse / Check / Run and domain proof actions can execute."@,
    )
}

/// The repository row for a health probe.
pub open spec fn repo_requirement(h: HealthStatus) -> (
    Seq<char>,
    Seq<char>,
    bool,
    Seq<char>,
    Seq<char>,
    Seq<char>,
    Seq<char>,
) {
    (
        "repo"@,
        "Repository checkout"@,
        h.repo_found,
        if h.repo_found { h.repo_path@ } else { "not found"@ },
        if h.repo_found {
            "Keep this checkout in GARNET_REPO."@
        } else {
            "Set GARNET_REPO to the local Garnet checkout before running repo reporters."@
        },
        if h.repo_found {
            "$env:GARNET_REPO = "@ + ps_quoted(h.repo_path@)
        } else {
            "[Environment]::SetEnvironmentVariable('GARNET_REPO', '<path-to-garnet>', 'User')"@
        },
        "Required for readiness reporters, Studio evidence readers, and build-from-repo CLI setup."@,
    )
}

/// The Python row for a health probe.
pub open spec fn python_requirement(h: HealthStatus) -> (
    Seq<char>,
    Seq<char>,
    bool,
    Seq<char>,
    Seq<char>,
    Seq<char>,
    Seq<char>,
) {
    (
        "python"@,
        "Python interpreter"@,
        h.python_found,
        if h.python_found { h.python_version@ } else { "not found"@ },
        if h.python_found {
            "Keep Python available on PATH."@
        } else {
            "Install Python with winget or another operator-approved installer."@
        },
        if h.python_found {
            "python --version"@
        } else {
            "winget install --id Python.Python.3.12 -e --source winget"@
        },
        "Required for the repo-owned readiness, converter, and handoff scripts."@,
    )
}

/// How many of the three prerequisites the probe found.
pub open spec fn found_count(h: HealthStatus) -> nat {
    (if h.cli_found { 1nat } else { 0nat }) + (if h.repo_found { 1nat } else { 0nat }) + (
    if h.python_found { 1nat } else { 0nat })
}

/// The plan's one-line summary.
pub open spec fn plan_summary(ready_count: nat, total_count: nat) -> Seq<char> {
    if ready_count == total_count {
        "All local prerequisites are detected. Studio can run CLI-backed actions on this machine."@
    } else {
        decimal(ready_count) + " of "@ + decimal(total_count)
            + " prerequisites are detected. Generate Setup Scripts for local, operator-run bootstrap commands."@
    }
}

/// The safety notes every plan carries.
pub open spec fn safety_notes() -> Seq<Seq<char>> {
    seq![
        "No provider APIs are called."@,
        "No source files are bundled by default."@,
        "Generated scripts are written to dogfood evidence and must be run explicitly by the operator."@,
        "The Tauri shell/plugin permission surface is unchanged."@,
    ]
}

/// Builds one requirement row from its text.
fn requirement(
    id: &str,
    label: &str,
    found: bool,
    detected: String,
    action: &str,
    command: String,
    evidence_note: &str,
) -> (r: BootstrapRequirement)
    ensures
        requirement_view(r) == (id@, label@, found, detected@, action@, command@, evidence_note@),
{
    BootstrapRequirement {
        id: id.to_owned(),
        label: label.to_owned(),
        found,
        detected,
        action: action.to_owned(),
        command,
        evidence_note: evidence_note.to_owned(),
    }
}

/// The bootstrap plan for a health probe: one row per prerequisite (CLI,
/// repository, Python), each saying what was detected and what to do; the
/// plan is ready exactly when all three were found.
pub fn studio_bootstrap_plan_from_health(health: &HealthStatus) -> (plan: BootstrapPlan)
    ensures
        plan.requirements@.len() == 3,
        requirement_view(plan.requirements@[0]) == cli_requirement(*health),
        requirement_view(plan.requirements@[1]) == repo_requirement(*health),
        requirement_view(plan.requirements@[2]) == python_requirement(*health),
        plan.ready_count == found_count(*health),
        plan.total_count == 3,
        plan.ready == (plan.ready_count == plan.total_count),
        plan.ready == (health.cli_found && health.repo_found && health.python_found),
        plan.evidence_dir@ == health.evidence_dir@,
        plan.summary@ == plan_summary(plan.ready_count as nat, plan.total_count as nat),
        crate::text::string_views(plan.safety_notes@) == safety_notes(),
{
    let cli = requirement(
        "garnet-cli",
        "Garnet CLI",
        health.cli_found,
        if health.cli_found { health.cli_path.clone() } else { String::from_str("not found") },
        if health.cli_found {
            "Keep this CLI on PATH or in GARNET_CLI."
        } else {
            "Install Garnet CLI from the repo build, then set GARNET_CLI."
        },
        if health.cli_found {
            let mut c = health.cli_path.clone();
            c.append(" version");
            c
        } else {
            String::from_str("cargo build --release -p garnet-cli")
        },
        "Required before Parse / Check / Run and domain proof actions can execute.",
    );
    let repo = requirement(
        "repo",
        "Repository checkout",
        health.repo_found,
        if health.repo_found { health.repo_path.clone() } else { String::from_str("not found") },
        if health.repo_found {
            "Keep this checkout in GARNET_REPO."
        } else {
            "Set GARNET_REPO to the local Garnet checkout before running repo reporters."
        },
        if health.repo_found {
            let mut c = String::from_str("$env:GARNET_REPO = ");
            c.append(ps_quote(health.repo_path.as_str()).as_str());
            c
        } else {
            String::from_str(
                "[Environment]::SetEnvironmentVariable('GARNET_REPO', '<path-to-garnet>', 'User')",
            )
        },
        "Required for readiness reporters, Studio evidence readers, and build-from-repo CLI setup.",
    );
    let python = requirement(
        "python",
        "Python interpreter",
        health.python_found,
        if health.python_found {
            health.python_version.clone()
        } else {
            String::from_str("not found")
        },
        if health.python_found {
            "Keep Python available on PATH."
        } else {
            "Install Python with winget or another operator-approved installer."
        },
        if health.python_found {
            String::from_str("python --version")
        } else {
            String::from_str("winget install --id Python.Python.3.12 -e --source winget")
        },
        "Required for the repo-owned readiness, converter, and handoff scripts.",
    );
    let ready_count: usize = (if health.cli_found { 1usize } else { 0usize }) + (if health.repo_found {
        1usize
    } else {
        0usize
    }) + (if health.python_found { 1usize } else { 0usize });
    let total_count: usize = 3;
    let ready = ready_count == total_count;
    let summary = if ready {
        String::from_str(
            "All local prerequisites are detected. Studio can run CLI-backed actions on this machine.",
        )
    } else {
        let mut s = String::new();
        push_decimal(&mut s, ready_count as u64);
        s.append(" of ");
        push_decimal(&mut s, total_count as u64);
        s.append(
            " prerequisites are detected. Generate Setup Scripts for local, operator-run bootstrap commands.",
        );
        s
    };
    let notes = vec![
        String::from_str("No provider APIs are called."),
        String::from_str("No source files are bundled by default."),
        String::from_str(
            "Generated scripts are written to dogfood evidence and must be run explicitly by the operator.",
        ),
        String::from_str("The Tauri shell/plugin permission surface is unchanged."),
    ];
    assert(crate::text::string_views(notes@) =~= safety_notes());
    let requirements = vec![cli, repo, python];
    BootstrapPlan {
        ready,
        ready_count,
        total_count,
        evidence_dir: health.evidence_dir.clone(),
        summary,
        requirements,
        safety_notes: notes,
    }
}

// ---------------------------------------------------------------------------
// Setup scripts
// ---------------------------------------------------------------------------

/// The Python installer script (winget).
pub const INSTALL_PYTHON_WINGET_SCRIPT: &'static str = "$ErrorActionPreference = 'Stop'\n\nWrite-Host 'Garnet Studio Python bootstrap'\nif (Get-Command python -ErrorAction SilentlyContinue) {\n  python --version\n  Write-Host 'Python is already available on PATH.'\n  exit 0\n}\n\nif (-not (Get-Command winget -ErrorAction SilentlyContinue)) {\n  throw 'winget was not found. Install Python manually from python.org or enable App Installer, then rerun CLI Health.'\n}\n\nwinget install --id Python.Python.3.12 -e --source winget\nWrite-Host 'Restart the terminal or Studio, then run: python --version'\n";

/// The preflight script: records what the machine can see.
pub const BOOTSTRAP_PREFLIGHT_SCRIPT: &'static str = "$ErrorActionPreference = 'Continue'\n\nWrite-Host 'Garnet Studio bootstrap preflight'\nWrite-Host \"Host: $([System.Environment]::OSVersion.VersionString)\"\nWrite-Host \"Arch: $env:PROCESSOR_ARCHITECTURE\"\nWrite-Host \"GARNET_REPO=$env:GARNET_REPO\"\nWrite-Host \"GARNET_CLI=$env:GARNET_CLI\"\n\nforeach ($Name in @('python', 'cargo', 'garnet', 'winget')) {\n  $Command = Get-Command $Name -ErrorAction SilentlyContinue\n  if ($Command) {\n    Write-Host \"$Name=$($Command.Source)\"\n    if ($Name -eq 'python') { python --version }\n    if ($Name -eq 'cargo') { cargo --version }\n    if ($Name -eq 'garnet') { garnet version }\n  } else {\n    Write-Host \"$Name=(not found)\"\n  }\n}\n";

/// The build-CLI script after its `$Repo` default.
pub const BUILD_GARNET_CLI_SCRIPT_TAIL: &'static str = ",\n  [string]$InstallDir = (Join-Path $env:LOCALAPPDATA 'Garnet\\bin')\n)\n\n$ErrorActionPreference = 'Stop'\n\nif ([string]::IsNullOrWhiteSpace($Repo) -or -not (Test-Path $Repo)) {\n  throw 'Garnet repo not found. Pass -Repo <path-to-garnet> or set GARNET_REPO first.'\n}\n\nif (-not (Get-Command cargo -ErrorAction SilentlyContinue)) {\n  throw 'Rust cargo was not found. Install Rust with rustup, then rerun this script.'\n}\n\nPush-Location $Repo\ntry {\n  cargo build --release -p garnet-cli\n} finally {\n  Pop-Location\n}\n\n$BuiltCli = Join-Path $Repo 'target\\release\\garnet.exe'\nif (-not (Test-Path $BuiltCli)) {\n  throw \"Expected CLI was not produced at $BuiltCli\"\n}\n\nNew-Item -ItemType Directory -Force -Path $InstallDir | Out-Null\n$InstalledCli = Join-Path $InstallDir 'garnet.exe'\nCopy-Item -LiteralPath $BuiltCli -Destination $InstalledCli -Force\n[Environment]::SetEnvironmentVariable('GARNET_CLI', $InstalledCli, 'User')\n\n$UserPath = [Environment]::GetEnvironmentVariable('Path', 'User')\nif (-not (($UserPath -split ';') -contains $InstallDir)) {\n  [Environment]::SetEnvironmentVariable('Path', \"$UserPath;$InstallDir\", 'User')\n}\n\n& $InstalledCli version\nWrite-Host \"GARNET_CLI set to $InstalledCli\"\n";

/// The configure-environment script after its `$Cli` default.
pub const CONFIGURE_GARNET_ENV_SCRIPT_TAIL: &'static str = "\n)\n\n$ErrorActionPreference = 'Stop'\n\nif ([string]::IsNullOrWhiteSpace($Repo) -or -not (Test-Path $Repo)) {\n  throw 'GARNET_REPO target does not exist. Pass -Repo <path-to-garnet>.'\n}\nif ([string]::IsNullOrWhiteSpace($Cli) -or -not (Test-Path $Cli)) {\n  throw 'GARNET_CLI target does not exist. Build the CLI first or pass -Cli <path-to-garnet.exe>.'\n}\n\n[Environment]::SetEnvironmentVariable('GARNET_REPO', $Repo, 'User')\n[Environment]::SetEnvironmentVariable('GARNET_CLI', $Cli, 'User')\n\n$CliDir = Split-Path -Parent $Cli\n$UserPath = [Environment]::GetEnvironmentVariable('Path', 'User')\nif (-not (($UserPath -split ';') -contains $CliDir)) {\n  [Environment]::SetEnvironmentVariable('Path', \"$UserPath;$CliDir\", 'User')\n}\n\nWrite-Host \"GARNET_REPO set to $Repo\"\nWrite-Host \"GARNET_CLI set to $Cli\"\nWrite-Host 'Restart Garnet Studio and run CLI Health again.'\n";

/// The `$Repo` parameter default: the quoted checkout when found, the
/// environment variable otherwise.
pub open spec fn repo_default(h: HealthStatus) -> Seq<char> {
    if h.repo_found {
        ps_quoted(h.repo_path@)
    } else {
        "$env:GARNET_REPO"@
    }
}

/// The `$Cli` parameter default: the quoted CLI when found, the staged
/// install location otherwise.
pub open spec fn cli_default(h: HealthStatus) -> Seq<char> {
    if h.cli_found {
        ps_quoted(h.cli_path@)
    } else {
        "(Join-Path $env:LOCALAPPDATA 'Garnet\\bin\\garnet.exe')"@
    }
}

/// The build-CLI script for a health probe.
pub open spec fn build_cli_script(h: HealthStatus) -> Seq<char> {
    "param(\n  [string]$Repo = "@ + repo_default(h) + BUILD_GARNET_CLI_SCRIPT_TAIL@
}

/// The configure-environment script for a health probe.
pub open spec fn configure_env_script(h: HealthStatus) -> Seq<char> {
    "param(\n  [string]$Repo = "@ + repo_default(h) + ",\n  [string]$Cli = "@ + cli_default(h)
        + CONFIGURE_GARNET_ENV_SCRIPT_TAIL@
}

/// The `$Repo` parameter default.
fn repo_default_text(health: &HealthStatus) -> (s: String)
    ensures
        s@ == repo_default(*health),
{
    if health.repo_found {
        ps_quote(health.repo_path.as_str())
    } else {
        String::from_str("$env:GARNET_REPO")
    }
}

/// The Python installer script.
pub fn install_python_winget_script() -> (s: String)
    ensures
        s@ == INSTALL_PYTHON_WINGET_SCRIPT@,
{
    String::from_str(INSTALL_PYTHON_WINGET_SCRIPT)
}

/// The preflight script.
pub fn bootstrap_preflight_script() -> (s: String)
    ensures
        s@ == BOOTSTRAP_PREFLIGHT_SCRIPT@,
{
    String::from_str(BOOTSTRAP_PREFLIGHT_SCRIPT)
}

/// The script that builds the CLI from the checkout and stages it.
pub fn build_garnet_cli_script(health: &HealthStatus) -> (s: String)
    ensures
        s@ == build_cli_script(*health),
{
    let mut s = String::from_str("param(\n  [string]$Repo = ");
    s.append(repo_default_text(health).as_str());
    s.append(BUILD_GARNET_CLI_SCRIPT_TAIL);
    s
}

/// The script that writes the user-scoped environment.
pub fn configure_garnet_env_script(health: &HealthStatus) -> (s: String)
    ensures
        s@ == configure_env_script(*health),
{
    let mut s = String::from_str("param(\n  [string]$Repo = ");
    s.append(repo_default_text(health).as_str());
    s.append(",\n  [string]$Cli = ");
    if health.cli_found {
        s.append(ps_quote(health.cli_path.as_str()).as_str());
    } else {
        s.append("(Join-Path $env:LOCALAPPDATA 'Garnet\\bin\\garnet.exe')");
    }
    s.append(CONFIGURE_GARNET_ENV_SCRIPT_TAIL);
    s
}

/// The scripts that take parameters open with their `param(` block, as
/// PowerShell requires of its first statement.
pub proof fn lemma_param_block_first(h: HealthStatus)
    ensures
        build_cli_script(h).len() >= 6,
        build_cli_script(h).subrange(0, 6) == "param("@,
        configure_env_script(h).len() >= 6,
        configure_env_script(h).subrange(0, 6) == "param("@,
{
    reveal_strlit("param(\n  [string]$Repo = ");
    reveal_strlit("param(");
    let head = "param(\n  [string]$Repo = "@;
    assert(build_cli_script(h).subrange(0, 6) =~= head.subrange(0, 6));
    assert(configure_env_script(h).subrange(0, 6) =~= head.subrange(0, 6));
    assert(head.subrange(0, 6) =~= "param("@);
}

// ---------------------------------------------------------------------------
// Steps
// ---------------------------------------------------------------------------

/// The only bootstrap steps the Studio executes.
#[derive(Clone, Copy, Debug, PartialEq, Eq, Structural)]
pub enum BootstrapStep {
    Preflight,
    InstallPython,
    BuildCli,
    ConfigureEnv,
}

/// The stable id of a step.
pub open spec fn step_id(s: BootstrapStep) -> Seq<char> {
    match s {
        BootstrapStep::Preflight => "preflight"@,
        BootstrapStep::InstallPython => "install-python"@,
        BootstrapStep::BuildCli => "build-cli"@,
        BootstrapStep::ConfigureEnv => "configure-env"@,
    }
}

/// The script file of a step.
pub open spec fn step_script_name(s: BootstrapStep) -> Seq<char> {
    match s {
        BootstrapStep::Preflight => "run-bootstrap-preflight.ps1"@,
        BootstrapStep::InstallPython => "install-python-winget.ps1"@,
        BootstrapStep::BuildCli => "build-garnet-cli-from-repo.ps1"@,
        BootstrapStep::ConfigureEnv => "configure-garnet-env.ps1"@,
    }
}

/// The script body of a step for a health probe.
pub open spec fn step_script(s: BootstrapStep, h: HealthStatus) -> Seq<char> {
    match s {
        BootstrapStep::Preflight => BOOTSTRAP_PREFLIGHT_SCRIPT@,
        BootstrapStep::InstallPython => INSTALL_PYTHON_WINGET_SCRIPT@,
        BootstrapStep::BuildCli => build_cli_script(h),
        BootstrapStep::ConfigureEnv => configure_env_script(h),
    }
}

/// The steps in their fixed order.
pub open spec fn all_steps() -> Seq<BootstrapStep> {
    seq![
        BootstrapStep::Preflight,
        BootstrapStep::InstallPython,
        BootstrapStep::BuildCli,
        BootstrapStep::ConfigureEnv,
    ]
}

/// The step a trimmed id names, if any.
pub open spec fn step_named(id: Seq<char>) -> Option<BootstrapStep> {
    if id == step_id(BootstrapStep::Preflight) {
        Some(BootstrapStep::Preflight)
    } else if id == step_id(BootstrapStep::InstallPython) {
        Some(BootstrapStep::InstallPython)
    } else if id == step_id(BootstrapStep::BuildCli) {
        Some(BootstrapStep::BuildCli)
    } else if id == step_id(BootstrapStep::ConfigureEnv) {
        Some(BootstrapStep::ConfigureEnv)
    } else {
        None
    }
}

/// `{id:?}`: a string as Rust's `Debug` formats it (quoted and escaped).
pub uninterp spec fn debug_quoted(s: Seq<char>) -> Seq<char>;

/// `format!("{:?}", s)` of a string slice; a function of the text alone.
#[verifier::external_body]
fn debug_str(s: &str) -> (r: String)
    ensures
        r@ == debug_quoted(s@),
{
    format!("{:?}", s)
}

/// The refusal of an id off the allowlist.
pub open spec fn unknown_step_error(id: Seq<char>) -> Seq<char> {
    "unknown bootstrap step "@ + debug_quoted(id)
        + "; allowed steps: preflight, install-python, build-cli, configure-env"@
}

/// The refusal of a repository step without a checkout.
pub open spec fn repo_gate_error(s: BootstrapStep) -> Seq<char> {
    "bootstrap step '"@ + step_id(s)
        + "' needs a Garnet repo checkout, but none was found. Set GARNET_REPO to a valid Garnet repository (or run the generated script manually)."@
}

/// Step ids are distinct: each names its own step.
pub proof fn lemma_step_ids_distinct(s: BootstrapStep)
    ensures
        step_named(step_id(s)) == Some(s),
{
    reveal_strlit("preflight");
    reveal_strlit("install-python");
    reveal_strlit("build-cli");
    reveal_strlit("configure-env");
    assert("preflight"@[0] != "build-cli"@[0]);
    assert("preflight"@.len() != "install-python"@.len());
    assert("preflight"@.len() != "configure-env"@.len());
    assert("install-python"@.len() != "build-cli"@.len());
    assert("install-python"@.len() != "configure-env"@.len());
    assert("build-cli"@.len() != "configure-env"@.len());
}

impl BootstrapStep {
    /// The steps in their fixed order.
    pub fn all() -> (v: Vec<BootstrapStep>)
        ensures
            v@ == all_steps(),
    {
        let v = vec![
            BootstrapStep::Preflight,
            BootstrapStep::InstallPython,
            BootstrapStep::BuildCli,
            BootstrapStep::ConfigureEnv,
        ];
        assert(v@ =~= all_steps());
        v
    }

    /// The stable id of this step.
    pub fn id(self) -> (r: &'static str)
        ensures
            r@ == step_id(self),
    {
        match self {
            BootstrapStep::Preflight => "preflight",
            BootstrapStep::InstallPython => "install-python",
            BootstrapStep::BuildCli => "build-cli",
            BootstrapStep::ConfigureEnv => "configure-env",
        }
    }

    /// The step named by `raw` once trimmed; anything off the allowlist is
    /// refused with the list of allowed ids.
    pub fn parse(raw: &str) -> (r: Result<BootstrapStep, String>)
        ensures
            match step_named(trim(raw@)) {
                Some(s) => r == Ok::<BootstrapStep, String>(s),
                None => r is Err && r->Err_0@ == unknown_step_error(trim(raw@)),
            },
    {
        let id = trim_str(raw);
        if str_eq(id, "preflight") {
            Ok(BootstrapStep::Preflight)
        } else if str_eq(id, "install-python") {
            Ok(BootstrapStep::InstallPython)
        } else if str_eq(id, "build-cli") {
            Ok(BootstrapStep::BuildCli)
        } else if str_eq(id, "configure-env") {
            Ok(BootstrapStep::ConfigureEnv)
        } else {
            let mut msg = String::from_str("unknown bootstrap step ");
            msg.append(debug_str(id).as_str());
            msg.append("; allowed steps: preflight, install-python, build-cli, configure-env");
            Err(msg)
        }
    }

    /// Whether the step operates on the checkout (build-cli, configure-env).
    pub fn needs_repo(self) -> (r: bool)
        ensures
            r == (self == BootstrapStep::BuildCli || self == BootstrapStep::ConfigureEnv),
    {
        match self {
            BootstrapStep::BuildCli | BootstrapStep::ConfigureEnv => true,
            _ => false,
        }
    }

    /// Whether the step gets the long (matrix) time budget: only the cargo
    /// build.
    pub fn is_long_running(self) -> (r: bool)
        ensures
            r == (self == BootstrapStep::BuildCli),
    {
        match self {
            BootstrapStep::BuildCli => true,
            _ => false,
        }
    }

    /// The script file name of this step.
    pub fn script_name(self) -> (r: &'static str)
        ensures
            r@ == step_script_name(self),
    {
        match self {
            BootstrapStep::Preflight => "run-bootstrap-preflight.ps1",
            BootstrapStep::InstallPython => "install-python-winget.ps1",
            BootstrapStep::BuildCli => "build-garnet-cli-from-repo.ps1",
            BootstrapStep::ConfigureEnv => "configure-garnet-env.ps1",
        }
    }

    /// The exact script body this step runs.
    pub fn script_contents(self, health: &HealthStatus) -> (r: String)
        ensures
            r@ == step_script(self, *health),
    {
        match self {
            BootstrapStep::Preflight => bootstrap_preflight_script(),
            BootstrapStep::InstallPython => install_python_winget_script(),
            BootstrapStep::BuildCli => build_garnet_cli_script(health),
            BootstrapStep::ConfigureEnv => configure_garnet_env_script(health),
        }
    }
}

/// The `(file name, body)` pairs of the four steps, in step order: the one
/// source from which both the write path and the run path take their
/// scripts.
pub fn bootstrap_step_files(health: &HealthStatus) -> (files: Vec<(&'static str, String)>)
    ensures
        files@.len() == 4,
        forall|i: int|
            0 <= i < 4 ==> (#[trigger] files@[i]).0@ == step_script_name(all_steps()[i])
                && files@[i].1@ == step_script(all_steps()[i], *health),
{
    let steps = BootstrapStep::all();
    let mut files: Vec<(&'static str, String)> = Vec::new();
    let mut i: usize = 0;
    while i < steps.len()
        invariant
            steps@ == all_steps(),
            i <= 4,
            files@.len() == i,
            forall|j: int|
                0 <= j < i ==> (#[trigger] files@[j]).0@ == step_script_name(all_steps()[j])
                    && files@[j].1@ == step_script(all_steps()[j], *health),
        decreases 4 - i,
    {
        let step = steps[i];
        files.push((step.script_name(), step.script_contents(health)));
        i = i + 1;
    }
    files
}

/// The repository gate: a step that touches the checkout is refused when no
/// checkout was found; otherwise the (optional) root passes through.
pub fn bootstrap_repo_gate(step: BootstrapStep, repo_root: Option<String>) -> (r: Result<
    Option<String>,
    String,
>)
    ensures
        (step == BootstrapStep::BuildCli || step == BootstrapStep::ConfigureEnv)
            && repo_root is None ==> r is Err && r->Err_0@ == repo_gate_error(step),
        !((step == BootstrapStep::BuildCli || step == BootstrapStep::ConfigureEnv)
            && repo_root is None) ==> r == Ok::<Option<String>, String>(repo_root),
{
    if step.needs_repo() && repo_root.is_none() {
        let mut msg = String::from_str("bootstrap step '");
        msg.append(step.id());
        msg.append(
            "' needs a Garnet repo checkout, but none was found. Set GARNET_REPO to a valid Garnet repository (or run the generated script manually).",
        );
        return Err(msg);
    }
    Ok(repo_root)
}

/// The allowlist gate of a run request: the parsed step, or the refusal
/// (with no evidence bundle and no process) of anything off the list.
pub fn studio_bootstrap_run_step_impl(step: String) -> (r: Result<BootstrapStep, CommandResult>)
    ensures
        match step_named(trim(step@)) {
            Some(s) => r is Ok && r->Ok_0 == s,
            None => r is Err && is_refusal(r->Err_0, unknown_step_error(trim(step@))),
        },
{
    match BootstrapStep::parse(step.as_str()) {
        Ok(s) => Ok(s),
        Err(err) => Err(contract_error(err)),
    }
}

/// The refusal of a run off Windows.
pub open spec fn windows_only_error() -> Seq<char> {
    "Garnet Studio bootstrap steps configure a Windows machine (winget, User-scope environment variables, LOCALAPPDATA) and only run on Windows. Use \"Generate Setup Scripts\" to inspect them, or run your platform's setup manually."@
}

/// The refusal of a run without a PowerShell host.
pub open spec fn no_powershell_error() -> Seq<char> {
    "Garnet Studio bootstrap steps run Windows PowerShell scripts, but no PowerShell host (powershell or pwsh) was found on this machine."@
}

/// Where and with what a permitted step runs.
#[derive(Debug, Clone)]
pub struct BootstrapLaunch {
    pub step: BootstrapStep,
    pub powershell: String,
    pub repo_root: Option<String>,
}

/// The gates a parsed step passes before anything is written or spawned,
/// in order: the repository gate, then Windows only, then a PowerShell host
/// must exist.
pub fn studio_bootstrap_run_step_resolved(
    step: BootstrapStep,
    repo_root: Option<String>,
    on_windows: bool,
    powershell: Option<String>,
) -> (r: Result<BootstrapLaunch, CommandResult>)
    ensures
        (step == BootstrapStep::BuildCli || step == BootstrapStep::ConfigureEnv) && repo_root is None
            ==> r is Err && is_refusal(r->Err_0, repo_gate_error(step)),
        !((step == BootstrapStep::BuildCli || step == BootstrapStep::ConfigureEnv)
            && repo_root is None) && !on_windows ==> r is Err && is_refusal(
            r->Err_0,
            windows_only_error(),
        ),
        !((step == BootstrapStep::BuildCli || step == BootstrapStep::ConfigureEnv)
            && repo_root is None) && on_windows && powershell is None ==> r is Err && is_refusal(
            r->Err_0,
            no_powershell_error(),
        ),
        !((step == BootstrapStep::BuildCli || step == BootstrapStep::ConfigureEnv)
            && repo_root is None) && on_windows && powershell is Some ==> r is Ok && r->Ok_0.step
            == step && r->Ok_0.powershell@ == powershell->0@ && r->Ok_0.repo_root == repo_root,
{
    let repo_root = match bootstrap_repo_gate(step, repo_root) {
        Ok(root) => root,
        Err(err) => return Err(contract_error(err)),
    };
    if !on_windows {
        return Err(
            contract_error(
                String::from_str(
                    "Garnet Studio bootstrap steps configure a Windows machine (winget, User-scope environment variables, LOCALAPPDATA) and only run on Windows. Use \"Generate Setup Scripts\" to inspect them, or run your platform's setup manually.",
                ),
            ),
        );
    }
    match powershell {
        Some(program) => Ok(BootstrapLaunch { step, powershell: program, repo_root }),
        None => Err(
            contract_error(
                String::from_str(
                    "Garnet Studio bootstrap steps run Windows PowerShell scripts, but no PowerShell host (powershell or pwsh) was found on this machine.",
                ),
            ),
        ),
    }
}

/// PowerShell's arguments for running a step's script file.
pub fn bootstrap_run_args(script_path: String) -> (v: Vec<String>)
    ensures
        crate::text::string_views(v@) == seq![
            "-NoProfile"@,
            "-NonInteractive"@,
            "-ExecutionPolicy"@,
            "Bypass"@,
            "-File"@,
            script_path@,
        ],
{
    let v = vec![
        String::from_str("-NoProfile"),
        String::from_str("-NonInteractive"),
        String::from_str("-ExecutionPolicy"),
        String::from_str("Bypass"),
        String::from_str("-File"),
        script_path,
    ];
    assert(crate::text::string_views(v@) =~= seq![
        "-NoProfile"@,
        "-NonInteractive"@,
        "-ExecutionPolicy"@,
        "Bypass"@,
        "-File"@,
        v@[5]@,
    ]);
    v
}

/// The command line recorded for a step's run.
pub fn bootstrap_run_command(step: BootstrapStep) -> (v: Vec<String>)
    ensures
        crate::text::string_views(v@) == seq!["garnet-studio"@, "bootstrap-run"@, step_id(step)],
{
    let v = vec![
        String::from_str("garnet-studio"),
        String::from_str("bootstrap-run"),
        step.id().to_owned(),
    ];
    assert(crate::text::string_views(v@) =~= seq![
        "garnet-studio"@,
        "bootstrap-run"@,
        step_id(step),
    ]);
    v
}

/// A step's time budget: the matrix budget for the cargo build, the command
/// budget otherwise.
pub fn bootstrap_timeout_secs(step: BootstrapStep, settings: &StudioSettings) -> (secs: u64)
    ensures
        secs == if step == BootstrapStep::BuildCli {
            settings.matrix_timeout_secs
        } else {
            settings.command_timeout_secs
        },
{
    if step.is_long_running() {
        settings.matrix_timeout_secs
    } else {
        settings.command_timeout_secs
    }
}

// ---------------------------------------------------------------------------
// The operator README and the written script set
// ---------------------------------------------------------------------------

/// The README's heading, up to the status line's ready count.
pub const README_HEAD: &'static str = "# Garnet Studio Windows Bootstrap Setup\n\nGenerated by Garnet Studio from the CLI Health panel.\n\nStatus: ";

/// The README after the requirement lines.
pub const README_TAIL: &'static str = "\n## Files\n- `install-python-winget.ps1` installs Python through winget when Python is missing.\n- `build-garnet-cli-from-repo.ps1` builds `garnet-cli` from a local checkout and stages `garnet.exe`.\n- `configure-garnet-env.ps1` writes user-scoped `GARNET_REPO`, `GARNET_CLI`, and PATH entries.\n- `run-bootstrap-preflight.ps1` records what the machine can see before and after setup.\n- `bootstrap-plan.json` is the machine-readable plan that Studio displayed.\n\n## Operator Sequence\n1. Inspect every script in this directory.\n2. If Python is missing, run `.\\install-python-winget.ps1`.\n3. If the repo is missing, clone or copy the Garnet checkout locally, then run `.\\configure-garnet-env.ps1 -Repo <path-to-garnet>`.\n4. Run `.\\build-garnet-cli-from-repo.ps1 -Repo <path-to-garnet>`.\n5. Restart Garnet Studio and run CLI Health again.\n\n## Safety Contract\n- No provider APIs are called.\n- No source files are bundled by default.\n- No shell/plugin permission is added to the Tauri app.\n- These scripts are generated evidence and do not run until an operator executes them.\n";

/// One README line per requirement.
pub open spec fn requirement_lines(reqs: Seq<BootstrapRequirement>) -> Seq<char>
    decreases reqs.len(),
{
    if reqs.len() == 0 {
        Seq::empty()
    } else {
        let r = reqs.last();
        requirement_lines(reqs.drop_last()) + "- "@ + r.label@ + ": "@ + r.detected@
            + ". Action: "@ + r.action@ + ". Command: `"@ + r.command@ + "`.\n"@
    }
}

/// The operator README for a probe and its plan.
pub open spec fn readme(h: HealthStatus, p: BootstrapPlan) -> Seq<char> {
    README_HEAD@ + decimal(p.ready_count as nat) + "/"@ + decimal(p.total_count as nat)
        + " prerequisites detected.\nEvidence root: "@ + h.evidence_dir@ + "\nHost: "@ + h.platform@ + " / "@ + h.arch@
        + "\n\n## Requirements\n"@ + requirement_lines(p.requirements@) + README_TAIL@
}

/// The README that accompanies the generated scripts.
pub fn bootstrap_readme(health: &HealthStatus, plan: &BootstrapPlan) -> (s: String)
    ensures
        s@ == readme(*health, *plan),
{
    let mut requirements = String::new();
    let mut i: usize = 0;
    while i < plan.requirements.len()
        invariant
            i <= plan.requirements@.len(),
            requirements@ == requirement_lines(plan.requirements@.subrange(0, i as int)),
        decreases plan.requirements@.len() - i,
    {
        let r = &plan.requirements[i];
        requirements.append("- ");
        requirements.append(r.label.as_str());
        requirements.append(": ");
        requirements.append(r.detected.as_str());
        requirements.append(". Action: ");
        requirements.append(r.action.as_str());
        requirements.append(". Command: `");
        requirements.append(r.command.as_str());
        requirements.append("`.\n");
        proof {
            let pre = plan.requirements@.subrange(0, i as int + 1);
            assert(pre.drop_last() =~= plan.requirements@.subrange(0, i as int));
        }
        i = i + 1;
    }
    assert(plan.requirements@.subrange(0, i as int) =~= plan.requirements@);
    let mut s = String::from_str(README_HEAD);
    push_decimal(&mut s, plan.ready_count as u64);
    s.append("/");
    push_decimal(&mut s, plan.total_count as u64);
    s.append(" prerequisites detected.\nEvidence root: ");
    s.append(health.evidence_dir.as_str());
    s.append("\nHost: ");
    s.append(health.platform.as_str());
    s.append(" / ");
    s.append(health.arch.as_str());
    s.append("\n\n## Requirements\n");
    s.append(requirements.as_str());
    s.append(README_TAIL);
    s
}

/// The files "Write scripts" produces, in order: the plan as JSON, the
/// README, then the four step scripts exactly as the run path uses them.
pub fn bootstrap_write_files(plan_json: String, health: &HealthStatus, plan: &BootstrapPlan) -> (files: Vec<
    (&'static str, String),
>)
    ensures
        files@.len() == 6,
        files@[0].0@ == "bootstrap-plan.json"@,
        files@[0].1@ == plan_json@,
        files@[1].0@ == "README.md"@,
        files@[1].1@ == readme(*health, *plan),
        forall|i: int|
            0 <= i < 4 ==> (#[trigger] files@[i + 2]).0@ == step_script_name(all_steps()[i])
                && files@[i + 2].1@ == step_script(all_steps()[i], *health),
{
    let mut files: Vec<(&'static str, String)> = vec![
        ("bootstrap-plan.json", plan_json),
        ("README.md", bootstrap_readme(health, plan)),
    ];
    let mut steps = bootstrap_step_files(health);
    let ghost head = files@;
    let ghost tail = steps@;
    files.append(&mut steps);
    assert(files@ == head + tail);
    assert forall|i: int| 0 <= i < 4 implies (#[trigger] files@[i + 2]).0@ == step_script_name(
        all_steps()[i],
    ) && files@[i + 2].1@ == step_script(all_steps()[i], *health) by {
        assert(files@[i + 2] == tail[i]);
    }
    files
}

/// The lines of `items` joined with newlines.
pub open spec fn join_lines(items: Seq<Seq<char>>) -> Seq<char>
    decreases items.len(),
{
    if items.len() == 0 {
        Seq::empty()
    } else if items.len() == 1 {
        items[0]
    } else {
        join_lines(items.drop_last()) + "\n"@ + items.last()
    }
}

/// What "Write scripts" reports: the written paths and the operator's next
/// steps.
pub fn bootstrap_write_summary(written: &Vec<String>) -> (s: String)
    ensures
        s@ == "Generated Garnet Studio bootstrap scripts.\n\n"@ + join_lines(
            crate::text::string_views(written@),
        )
            + "\n\nNext: open PowerShell, inspect README.md, run only the scripts you approve, then restart Studio and Run Health Check.\n"@,
{
    let mut joined = String::new();
    let mut i: usize = 0;
    while i < written.len()
        invariant
            i <= written@.len(),
            joined@ == join_lines(crate::text::string_views(written@.subrange(0, i as int))),
        decreases written@.len() - i,
    {
        if i > 0 {
            joined.append("\n");
        }
        joined.append(written[i].as_str());
        proof {
            let pre = crate::text::string_views(written@.subrange(0, i as int + 1));
            assert(pre.drop_last() =~= crate::text::string_views(written@.subrange(0, i as int)));
            assert(pre.last() == written@[i as int]@);
            if i == 0 {
                assert(pre.len() == 1);
                assert(joined@ =~= pre[0]);
            }
        }
        i = i + 1;
    }
    assert(written@.subrange(0, i as int) =~= written@);
    let mut s = String::from_str("Generated Garnet Studio bootstrap scripts.\n\n");
    s.append(joined.as_str());
    s.append(
        "\n\nNext: open PowerShell, inspect README.md, run only the scripts you approve, then restart Studio and Run Health Check.\n",
    );
    s
}

/// The command line recorded for "Write scripts".
pub fn bootstrap_write_command() -> (v: Vec<String>)
    ensures
        crate::text::string_views(v@) == seq!["garnet-studio"@, "bootstrap-setup"@, "write-scripts"@],
{
    let v = vec![
        String::from_str("garnet-studio"),
        String::from_str("bootstrap-setup"),
        String::from_str("write-scripts"),
    ];
    assert(crate::text::string_views(v@) =~= seq![
        "garnet-studio"@,
        "bootstrap-setup"@,
        "write-scripts"@,
    ]);
    v
}

} // verus!
