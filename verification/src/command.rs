//! What the Studio hands back for every command it runs, and the pure
//! decisions around running one: the language gates, argument vectors,
//! timeouts and the display cap on captured output.

use vstd::prelude::*;
use vstd::string::*;
use vstd::utf8::{encode_scalar, encode_utf8};
use crate::settings::StudioSettings;
use crate::text::{
    chars_vec, str_eq, str_views, string_push, string_views, to_lowercase, trim, trim_str,
    unicode_lowercase,
};

verus! {

/// Hard cap, in UTF-8 bytes, on each captured stream returned to the UI.
pub const PAYLOAD_STREAM_CAP: usize = 262144;

/// Appended to a capped stream when an evidence bundle holds the full output.
pub const PAYLOAD_TRUNCATION_MARKER_WITH_BUNDLE: &'static str =
    "\n…[output truncated for display — the full output is in the evidence bundle]";

/// Appended to a capped stream when no evidence bundle was created.
pub const PAYLOAD_TRUNCATION_MARKER_NO_BUNDLE: &'static str =
    "\n…[output truncated for display — no evidence bundle was created for this run]";

/// Cap, in bytes, on in-app evidence file reads.
pub const EVIDENCE_READ_CAP: usize = 524288;

/// Cap on the number of entries in an evidence directory listing.
pub const EVIDENCE_LIST_CAP: usize = 500;

/// The outcome of one command as the UI receives it.
#[derive(Debug, Clone)]
pub struct CommandResult {
    pub success: bool,
    pub stdout: String,
    pub stderr: String,
    pub exit_code: i32,
    pub command: Vec<String>,
    pub evidence_path: Option<String>,
    pub timed_out: bool,
    pub duration_ms: u64,
    pub truncated: bool,
}

/// Whether `r` is the refusal of a command that never ran, carrying
/// `message`.
pub open spec fn is_refusal(r: CommandResult, message: Seq<char>) -> bool {
    &&& !r.success
    &&& r.stdout@.len() == 0
    &&& r.stderr@ == message
    &&& r.exit_code == -1
    &&& r.command@.len() == 0
    &&& r.evidence_path is None
    &&& !r.timed_out
    &&& r.duration_ms == 0
    &&& !r.truncated
}

/// A refused command: nothing ran, no evidence was written, and `message`
/// says why.
pub fn contract_error(message: String) -> (r: CommandResult)
    ensures
        is_refusal(r, message@),
{
    CommandResult {
        success: false,
        stdout: String::new(),
        stderr: message,
        exit_code: -1,
        command: Vec::new(),
        evidence_path: None,
        timed_out: false,
        duration_ms: 0,
        truncated: false,
    }
}

// ---------------------------------------------------------------------------
// Display cap
// ---------------------------------------------------------------------------

/// Number of bytes in the UTF-8 encoding of `s`.
pub open spec fn utf8_len(s: Seq<char>) -> nat {
    encode_utf8(s).len()
}

/// The marker a capped stream ends with.
pub open spec fn truncation_marker(has_bundle: bool) -> Seq<char> {
    if has_bundle {
        PAYLOAD_TRUNCATION_MARKER_WITH_BUNDLE@
    } else {
        PAYLOAD_TRUNCATION_MARKER_NO_BUNDLE@
    }
}

/// Whether the first `k` characters are the longest prefix of `s` whose
/// encoding fits in `cap` bytes, and some character is left over.
pub open spec fn longest_fitting_prefix(s: Seq<char>, k: int, cap: nat) -> bool {
    &&& 0 <= k < s.len()
    &&& utf8_len(s.subrange(0, k)) <= cap
    &&& utf8_len(s.subrange(0, k + 1)) > cap
}

/// Encoding distributes over concatenation.
pub proof fn lemma_encode_concat(a: Seq<char>, b: Seq<char>)
    ensures
        encode_utf8(a + b) == encode_utf8(a) + encode_utf8(b),
    decreases a.len(),
{
    if a.len() == 0 {
        assert(a + b =~= b);
    } else {
        lemma_encode_concat(a.drop_first(), b);
        assert((a + b).drop_first() =~= a.drop_first() + b);
        assert(encode_utf8(a) == encode_scalar(a[0] as u32) + encode_utf8(a.drop_first()));
        assert(encode_utf8(a + b) == encode_scalar(a[0] as u32) + encode_utf8((a + b).drop_first()));
    }
}

/// Extending a prefix by one character adds that character's encoding.
proof fn lemma_encode_push(s: Seq<char>, k: int)
    requires
        0 <= k < s.len(),
    ensures
        utf8_len(s.subrange(0, k + 1)) == utf8_len(s.subrange(0, k)) + encode_scalar(
            s[k] as u32,
        ).len(),
{
    lemma_encode_concat(s.subrange(0, k), seq![s[k]]);
    assert(s.subrange(0, k + 1) =~= s.subrange(0, k) + seq![s[k]]);
    let t = seq![s[k]];
    assert(t.drop_first() =~= Seq::<char>::empty());
    assert(encode_utf8(t.drop_first()) =~= Seq::<u8>::empty());
    assert(encode_utf8(t) == encode_scalar(t[0] as u32) + encode_utf8(t.drop_first()));
    assert(encode_utf8(t) =~= encode_scalar(s[k] as u32));
}

/// A prefix never encodes longer than the whole.
proof fn lemma_prefix_shorter(s: Seq<char>, k: int)
    requires
        0 <= k <= s.len(),
    ensures
        utf8_len(s.subrange(0, k)) <= utf8_len(s),
{
    lemma_encode_concat(s.subrange(0, k), s.subrange(k, s.len() as int));
    assert(s.subrange(0, k) + s.subrange(k, s.len() as int) =~= s);
}

/// The number of bytes in the UTF-8 encoding of `c`.
fn utf8_width(c: char) -> (w: usize)
    ensures
        w == encode_scalar(c as u32).len(),
        1 <= w <= 4,
{
    let u = c as u32;
    if u < 0x80 {
        1
    } else if u < 0x800 {
        2
    } else if u < 0x10000 {
        3
    } else {
        4
    }
}

/// Caps a captured stream for the UI. A stream that encodes in at most
/// `PAYLOAD_STREAM_CAP` bytes is returned as it is; a longer one is cut to
/// its longest prefix that fits (never inside a character) and marked, the
/// marker saying whether an evidence bundle holds the full stream.
pub fn truncate_for_payload(text: String, has_bundle: bool) -> (r: (String, bool))
    ensures
        utf8_len(text@) <= PAYLOAD_STREAM_CAP ==> r.0@ == text@ && !r.1,
        utf8_len(text@) > PAYLOAD_STREAM_CAP ==> r.1 && exists|k: int|
            longest_fitting_prefix(text@, k, PAYLOAD_STREAM_CAP as nat) && r.0@ == text@.subrange(0, k)
                + truncation_marker(has_bundle),
        r.1 ==> utf8_len(r.0@) <= PAYLOAD_STREAM_CAP + utf8_len(truncation_marker(has_bundle)),
{
    let chars = chars_vec(text.as_str());
    let n = chars.len();
    let mut total: usize = 0;
    let mut k: usize = 0;
    proof {
        assert(text@.subrange(0, 0) =~= Seq::<char>::empty());
    }
    while k < n && total + utf8_width(chars[k]) <= PAYLOAD_STREAM_CAP
        invariant
            chars@ == text@,
            n == chars@.len(),
            k <= n,
            total == utf8_len(text@.subrange(0, k as int)),
            total <= PAYLOAD_STREAM_CAP,
        decreases n - k,
    {
        proof {
            lemma_encode_push(text@, k as int);
        }
        total = total + utf8_width(chars[k]);
        k = k + 1;
    }
    if k == n {
        proof {
            assert(text@.subrange(0, n as int) =~= text@);
        }
        return (text, false);
    }
    proof {
        lemma_encode_push(text@, k as int);
        lemma_prefix_shorter(text@, k as int + 1);
        assert(longest_fitting_prefix(text@, k as int, PAYLOAD_STREAM_CAP as nat));
    }
    let mut out = String::new();
    let mut i: usize = 0;
    while i < k
        invariant
            chars@ == text@,
            k < n == chars@.len(),
            i <= k,
            out@ == text@.subrange(0, i as int),
        decreases k - i,
    {
        string_push(&mut out, chars[i]);
        i = i + 1;
        proof {
            assert(out@ =~= text@.subrange(0, i as int));
        }
    }
    let ghost prefix = out@;
    if has_bundle {
        out.append(PAYLOAD_TRUNCATION_MARKER_WITH_BUNDLE);
    } else {
        out.append(PAYLOAD_TRUNCATION_MARKER_NO_BUNDLE);
    }
    proof {
        lemma_encode_concat(prefix, truncation_marker(has_bundle));
    }
    (out, true)
}

// ---------------------------------------------------------------------------
// Languages
// ---------------------------------------------------------------------------

/// Source languages the converter translates.
pub open spec fn active_conversion() -> Seq<Seq<char>> {
    seq!["rust"@, "ruby"@, "python"@, "go"@]
}

/// Source languages that only get advisory planning.
pub open spec fn advisory_languages() -> Seq<Seq<char>> {
    seq![
        "javascript"@,
        "typescript"@,
        "swift"@,
        "java"@,
        "c"@,
        "c++"@,
        "c#"@,
        "perl"@,
        "kotlin"@,
        "shell"@,
        "sql"@,
        "other"@,
    ]
}

/// Languages the converter translates (lowercase).
pub fn active_conversion_languages() -> (v: Vec<&'static str>)
    ensures
        str_views(v@) == active_conversion(),
{
    let v = vec!["rust", "ruby", "python", "go"];
    assert(str_views(v@) =~= active_conversion());
    v
}

/// Languages that only get advisory planning (lowercase).
pub fn advisory_language_names() -> (v: Vec<&'static str>)
    ensures
        str_views(v@) == advisory_languages(),
{
    let v = vec![
        "javascript",
        "typescript",
        "swift",
        "java",
        "c",
        "c++",
        "c#",
        "perl",
        "kotlin",
        "shell",
        "sql",
        "other",
    ];
    assert(str_views(v@) =~= advisory_languages());
    v
}

/// The refusal of a language outside an action's list.
pub open spec fn language_refusal(language: Seq<char>) -> Seq<char> {
    language
        + " is not available for this action. Active conversion is Rust, Ruby, Python, and Go; advisory planning is separated."@
}

/// The outcome of checking `language` against `allowed`: its trimmed,
/// lowercased form when that is on the list, a refusal otherwise.
pub open spec fn language_gate(language: Seq<char>, allowed: Seq<Seq<char>>) -> Result<
    Seq<char>,
    Seq<char>,
> {
    let v = unicode_lowercase(trim(language));
    if allowed.contains(v) {
        Ok(v)
    } else {
        Err(language_refusal(language))
    }
}

/// Checks `language` against `allowed`, returning its normal form.
pub fn normalize_language(language: &str, allowed: &[&str]) -> (r: Result<String, String>)
    ensures
        match (r, language_gate(language@, str_views(allowed@))) {
            (Ok(a), Ok(b)) => a@ == b,
            (Err(a), Err(b)) => a@ == b,
            _ => false,
        },
{
    let normalized = to_lowercase(trim_str(language));
    let mut i: usize = 0;
    while i < allowed.len()
        invariant
            i <= allowed@.len(),
            normalized@ == unicode_lowercase(trim(language@)),
            forall|j: int| 0 <= j < i ==> allowed@[j]@ != normalized@,
        decreases allowed@.len() - i,
    {
        if str_eq(allowed[i], normalized.as_str()) {
            proof {
                assert(str_views(allowed@)[i as int] == normalized@);
            }
            return Ok(normalized);
        }
        i = i + 1;
    }
    proof {
        if str_views(allowed@).contains(normalized@) {
            let j = choose|j: int|
                0 <= j < str_views(allowed@).len() && str_views(allowed@)[j] == normalized@;
            assert(allowed@[j]@ == normalized@);
        }
    }
    let mut msg = language.to_owned();
    msg.append(
        " is not available for this action. Active conversion is Rust, Ruby, Python, and Go; advisory planning is separated.",
    );
    Err(msg)
}

/// Gate of the converter: only the active conversion languages pass, as
/// their normal form; anything else is refused before any evidence bundle is
/// created or process spawned.
pub fn cli_convert_impl(source_file: String, source_lang: String) -> (r: Result<String, CommandResult>)
    ensures
        match (r, language_gate(source_lang@, active_conversion())) {
            (Ok(a), Ok(b)) => a@ == b,
            (Err(res), Err(m)) => is_refusal(res, m),
            _ => false,
        },
{
    let allowed = active_conversion_languages();
    match normalize_language(source_lang.as_str(), allowed.as_slice()) {
        Ok(language) => Ok(language),
        Err(err) => Err(contract_error(err)),
    }
}

/// The converter's argument vector for a source file and an output bundle.
pub fn convert_args(language: String, source_file: String, out_dir: String) -> (v: Vec<String>)
    ensures
        v@.len() == 5,
        v@[0]@ == "convert"@,
        v@[1]@ == language@,
        v@[2]@ == source_file@,
        v@[3]@ == "--out"@,
        v@[4]@ == out_dir@,
{
    vec![String::from_str("convert"), language, source_file, String::from_str("--out"), out_dir]
}

/// Gate of advisory planning: only the advisory languages pass; the result
/// is the planner's argument vector (`--language`, the normal form,
/// `--source`, the file). Anything else is refused before any evidence
/// bundle is created.
pub fn advisory_assist_plan_impl(source_file: String, language: String) -> (r: Result<
    Vec<String>,
    CommandResult,
>)
    ensures
        match (r, language_gate(language@, advisory_languages())) {
            (Ok(args), Ok(b)) => args@.len() == 4 && args@[0]@ == "--language"@ && args@[1]@ == b
                && args@[2]@ == "--source"@ && args@[3]@ == source_file@,
            (Err(res), Err(m)) => is_refusal(res, m),
            _ => false,
        },
{
    let allowed = advisory_language_names();
    match normalize_language(language.as_str(), allowed.as_slice()) {
        Ok(lang) => Ok(
            vec![String::from_str("--language"), lang, String::from_str("--source"), source_file],
        ),
        Err(err) => Err(contract_error(err)),
    }
}

// ---------------------------------------------------------------------------
// Argument vectors and timeouts
// ---------------------------------------------------------------------------

/// Appends copies of `items` to `out`.
fn extend_cloned(out: &mut Vec<String>, items: &[String])
    ensures
        string_views(final(out)@) == string_views(old(out)@) + string_views(items@),
{
    let ghost start = string_views(out@);
    let mut i: usize = 0;
    while i < items.len()
        invariant
            i <= items@.len(),
            string_views(out@) == start + string_views(items@.subrange(0, i as int)),
        decreases items@.len() - i,
    {
        let x = items[i].clone();
        let ghost prev = out@;
        proof {
            assert(x@ == items@[i as int]@);
        }
        out.push(x);
        i = i + 1;
        proof {
            let lhs = string_views(out@);
            let rhs = start + string_views(items@.subrange(0, i as int));
            assert(out@ == prev.push(x));
            assert(string_views(prev).len() == prev.len());
            assert(string_views(prev) == start + string_views(items@.subrange(0, i as int - 1)));
            assert(string_views(items@.subrange(0, i as int - 1)).len() == i - 1);
            assert(string_views(items@.subrange(0, i as int)).len() == i);
            assert(lhs.len() == rhs.len());
            assert forall|j: int| 0 <= j < lhs.len() implies lhs[j] == rhs[j] by {
                if j < prev.len() {
                    assert(lhs[j] == prev[j]@);
                    assert(string_views(prev)[j] == prev[j]@);
                } else {
                    assert(lhs[j] == x@);
                }
            }
            assert(lhs =~= rhs);
        }
    }
    assert(items@.subrange(0, i as int) =~= items@);
}

/// The recorded command line: the program, then its arguments.
pub fn command_vector(program: &str, args: &[String]) -> (v: Vec<String>)
    ensures
        string_views(v@) == seq![program@] + string_views(args@),
{
    let mut command = vec![program.to_owned()];
    assert(string_views(command@) =~= seq![program@]);
    extend_cloned(&mut command, args);
    command
}

/// The interpreter's arguments: the script path, then the script's
/// arguments.
pub fn args_for_script(script: &str, args: &[String]) -> (v: Vec<String>)
    ensures
        string_views(v@) == seq![script@] + string_views(args@),
{
    let mut all = vec![script.to_owned()];
    assert(string_views(all@) =~= seq![script@]);
    extend_cloned(&mut all, args);
    all
}

/// A reporter script's arguments: the output directory and format, then any
/// extra arguments in their order.
pub fn report_script_args(bundle_path: String, format: &str, extra_args: Vec<String>) -> (v: Vec<
    String,
>)
    ensures
        string_views(v@) == seq!["--output-dir"@, bundle_path@, "--format"@, format@]
            + string_views(extra_args@),
{
    let mut args = vec![
        String::from_str("--output-dir"),
        bundle_path,
        String::from_str("--format"),
        format.to_owned(),
    ];
    assert(string_views(args@) =~= seq!["--output-dir"@, bundle_path@, "--format"@, format@]);
    extend_cloned(&mut args, extra_args.as_slice());
    args
}

/// Categories that may legitimately run for a long time (full matrices).
pub open spec fn long_running_categories() -> Seq<Seq<char>> {
    seq!["agentic-dogfood"@, "domain-proof-matrix"@, "mac-domain-proofs"@]
}

/// The time budget, in seconds, of a command category: the matrix budget
/// for the long-running categories, the command budget otherwise.
pub fn timeout_for_category(category: &str, settings: &StudioSettings) -> (secs: u64)
    ensures
        secs == if long_running_categories().contains(category@) {
            settings.matrix_timeout_secs
        } else {
            settings.command_timeout_secs
        },
{
    let long = str_eq(category, "agentic-dogfood") || str_eq(category, "domain-proof-matrix")
        || str_eq(category, "mac-domain-proofs");
    proof {
        let c = category@;
        let l = long_running_categories();
        if l.contains(c) {
            let k = choose|k: int| 0 <= k < l.len() && l[k] == c;
            assert(k == 0 || k == 1 || k == 2);
        }
        if c == "agentic-dogfood"@ {
            assert(l[0] == c);
        }
        if c == "domain-proof-matrix"@ {
            assert(l[1] == c);
        }
        if c == "mac-domain-proofs"@ {
            assert(l[2] == c);
        }
    }
    if long {
        settings.matrix_timeout_secs
    } else {
        settings.command_timeout_secs
    }
}

/// The Python interpreter's command name on this platform.
pub fn python_cmd(on_windows: bool) -> (cmd: &'static str)
    ensures
        cmd@ == if on_windows {
            "python"@
        } else {
            "python3"@
        },
{
    if on_windows {
        "python"
    } else {
        "python3"
    }
}

// ---------------------------------------------------------------------------
// Language taxonomy and application facts
// ---------------------------------------------------------------------------

/// A named group of source languages.
#[derive(Debug, Clone)]
pub struct LanguageGroup {
    pub name: String,
    pub languages: Vec<String>,
}

/// Facts about the running application.
#[derive(Debug, Clone)]
pub struct AppInfo {
    pub app_version: String,
    pub tauri_version: String,
    pub platform: String,
    pub arch: String,
    pub settings_path: String,
}

/// A group as its name and its languages.
pub open spec fn group_view(g: LanguageGroup) -> (Seq<char>, Seq<Seq<char>>) {
    (g.name@, string_views(g.languages@))
}

/// The language taxonomy the Studio shows, group by group.
pub open spec fn taxonomy() -> Seq<(Seq<char>, Seq<Seq<char>>)> {
    seq![
        ("Active conversion"@, seq!["Rust"@, "Ruby"@, "Python"@, "Go"@]),
        ("Advisory planning"@, seq!["JavaScript"@, "TypeScript"@, "Swift"@, "Java"@, "C"@, "C++"@, "C#"@, "Perl"@, "Kotlin"@, "Shell"@, "SQL"@, "Other"@]),
        ("Native boundary recommended"@, seq!["C"@, "C++"@, "Objective-C"@, "Assembly"@, "CUDA"@, "platform-specific code"@]),
        ("Future backend lowering"@, seq!["Wasm"@, "LLVM-style native targets"@, "native package toolchains"@]),
    ]
}

/// Owned copies of string slices, in order.
pub fn list(values: &[&str]) -> (v: Vec<String>)
    ensures
        string_views(v@) == str_views(values@),
{
    let mut out: Vec<String> = Vec::new();
    let mut i: usize = 0;
    while i < values.len()
        invariant
            i <= values@.len(),
            out@.len() == i,
            string_views(out@) == str_views(values@.subrange(0, i as int)),
        decreases values@.len() - i,
    {
        let ghost prev = out@;
        let x = values[i].to_owned();
        assert(x@ == values@[i as int]@);
        out.push(x);
        i = i + 1;
        proof {
            assert(out@ == prev.push(x));
            assert(string_views(out@) =~= str_views(values@.subrange(0, i as int))) by {
                assert forall|j: int| 0 <= j < out@.len() implies string_views(out@)[j] == str_views(
                    values@.subrange(0, i as int),
                )[j] by {
                    if j < prev.len() {
                        assert(out@[j] == prev[j]);
                        assert(string_views(prev)[j] == prev[j]@);
                        assert(str_views(values@.subrange(0, i as int - 1))[j] == values@[j]@);
                    } else {
                        assert(out@[j] == x);
                    }
                }
            }
        }
    }
    assert(values@.subrange(0, i as int) =~= values@);
    out
}

/// A group with this name and these languages.
fn language_group(name: &str, languages: Vec<&str>) -> (g: LanguageGroup)
    ensures
        group_view(g) == (name@, str_views(languages@)),
{
    LanguageGroup { name: name.to_owned(), languages: list(languages.as_slice()) }
}

/// The language taxonomy: active conversion, advisory planning, native
/// boundary, future backends.
pub fn get_language_taxonomy() -> (groups: Vec<LanguageGroup>)
    ensures
        groups@.map_values(|g: LanguageGroup| group_view(g)) == taxonomy(),
{
    let l0 = vec!["Rust", "Ruby", "Python", "Go"];
    assert(str_views(l0@) =~= seq!["Rust"@, "Ruby"@, "Python"@, "Go"@]);
    let g0 = language_group("Active conversion", l0);
    let l1 = vec!["JavaScript", "TypeScript", "Swift", "Java", "C", "C++", "C#", "Perl", "Kotlin", "Shell", "SQL", "Other"];
    assert(str_views(l1@) =~= seq!["JavaScript"@, "TypeScript"@, "Swift"@, "Java"@, "C"@, "C++"@, "C#"@, "Perl"@, "Kotlin"@, "Shell"@, "SQL"@, "Other"@]);
    let g1 = language_group("Advisory planning", l1);
    let l2 = vec!["C", "C++", "Objective-C", "Assembly", "CUDA", "platform-specific code"];
    assert(str_views(l2@) =~= seq!["C"@, "C++"@, "Objective-C"@, "Assembly"@, "CUDA"@, "platform-specific code"@]);
    let g2 = language_group("Native boundary recommended", l2);
    let l3 = vec!["Wasm", "LLVM-style native targets", "native package toolchains"];
    assert(str_views(l3@) =~= seq!["Wasm"@, "LLVM-style native targets"@, "native package toolchains"@]);
    let g3 = language_group("Future backend lowering", l3);
    let groups = vec![g0, g1, g2, g3];
    assert(groups@.map_values(|g: LanguageGroup| group_view(g)) =~= taxonomy());
    groups
}

/// The budget of the health version probes, in seconds.
pub const HEALTH_PROBE_TIMEOUT_SECS: u64 = 10;

/// The CLI version a health probe reports: `unknown (version probe timed
/// out after 10s)` on a timeout, else its trimmed output, or `unknown` when
/// that is empty.
pub open spec fn cli_version_text(stdout: Seq<char>, timed_out: bool) -> Seq<char> {
    if timed_out {
        "unknown (version probe timed out after 10s)"@
    } else if trim(stdout).len() == 0 {
        "unknown"@
    } else {
        trim(stdout)
    }
}

/// The CLI version a health probe reports.
pub fn cli_version_from_probe(stdout: &str, timed_out: bool) -> (r: String)
    ensures
        r@ == cli_version_text(stdout@, timed_out),
{
    if timed_out {
        return String::from_str("unknown (version probe timed out after 10s)");
    }
    let t = trim_str(stdout);
    if t.unicode_len() == 0 {
        String::from_str("unknown")
    } else {
        t.to_owned()
    }
}

/// The Python version a health probe reports: its trimmed standard output,
/// or its trimmed standard error when the output is empty.
pub fn python_version_from_probe(stdout: &str, stderr: &str) -> (r: String)
    ensures
        r@ == if trim(stdout@).len() == 0 { trim(stderr@) } else { trim(stdout@) },
{
    let out = trim_str(stdout);
    if out.unicode_len() == 0 {
        trim_str(stderr).to_owned()
    } else {
        out.to_owned()
    }
}

/// The standard error a run reports: unchanged after a normal exit; after a
/// timeout or a monitoring failure, followed (on a line of its own) by the
/// note that the process tree was terminated.
pub open spec fn stderr_after_run(stderr: Seq<char>, timed_out: bool, monitor_failed: bool, timeout_secs: u64) -> Seq<char> {
    if !timed_out && !monitor_failed {
        stderr
    } else {
        let sep = if stderr.len() > 0 && stderr.last() != '\n' { "\n"@ } else { Seq::empty() };
        let note = if timed_out {
            "studio: command timed out after "@ + crate::text::decimal(timeout_secs as nat)
                + "s and its process tree was terminated"@
        } else {
            "studio: failed to monitor the command; its process tree was terminated"@
        };
        stderr + sep + note
    }
}

/// The standard error a run reports.
pub fn finish_stderr(stderr: String, timed_out: bool, monitor_failed: bool, timeout_secs: u64) -> (r: String)
    ensures
        r@ == stderr_after_run(stderr@, timed_out, monitor_failed, timeout_secs),
{
    if !timed_out && !monitor_failed {
        return stderr;
    }
    let mut out = stderr;
    let n = out.as_str().unicode_len();
    if n > 0 && out.as_str().get_char(n - 1) != '\n' {
        out.append("\n");
    }
    if timed_out {
        out.append("studio: command timed out after ");
        crate::text::push_decimal(&mut out, timeout_secs);
        out.append("s and its process tree was terminated");
    } else {
        out.append("studio: failed to monitor the command; its process tree was terminated");
    }
    out
}

/// A run succeeded: it did not time out and its process exited successfully.
pub fn run_succeeded(timed_out: bool, exited_successfully: Option<bool>) -> (r: bool)
    ensures
        r == (!timed_out && exited_successfully == Some(true)),
{
    !timed_out && match exited_successfully {
        Some(ok) => ok,
        None => false,
    }
}

/// `needle` occurs in `hay` at position `i`.
pub open spec fn occurs_at(hay: Seq<char>, needle: Seq<char>, i: int) -> bool {
    0 <= i && i + needle.len() <= hay.len() && hay.subrange(i, i + needle.len()) == needle
}

/// `needle` occurs somewhere in `hay`.
pub open spec fn contains_text(hay: Seq<char>, needle: Seq<char>) -> bool {
    exists|i: int| occurs_at(hay, needle, i)
}

/// Whether `needle` occurs in `hay` (what `str::contains` answers).
pub fn text_contains(hay: &str, needle: &str) -> (r: bool)
    ensures
        r == contains_text(hay@, needle@),
{
    let h = chars_vec(hay);
    let n = chars_vec(needle);
    if n.len() > h.len() {
        proof {
            if contains_text(hay@, needle@) {
                let i = choose|i: int| occurs_at(hay@, needle@, i);
            }
        }
        return false;
    }
    let mut i: usize = 0;
    while i <= h.len() - n.len()
        invariant
            h@ == hay@,
            n@ == needle@,
            n@.len() <= h@.len(),
            i <= h@.len() - n@.len() + 1,
            forall|k: int| 0 <= k < i ==> !occurs_at(hay@, needle@, k),
        decreases h@.len() - n@.len() + 1 - i,
    {
        let hl = h.len();
        let mut j: usize = 0;
        let mut same = true;
        while j < n.len()
            invariant
                hl == h@.len(),
                h@ == hay@,
                n@ == needle@,
                i + n@.len() <= h@.len(),
                j <= n@.len(),
                same == forall|q: int| 0 <= q < j ==> h@[i + q] == n@[q],
            decreases n@.len() - j,
        {
            if h[i + j] != n[j] {
                same = false;
            }
            j = j + 1;
        }
        if same {
            proof {
                assert(hay@.subrange(i as int, i + needle@.len()) =~= needle@);
                assert(occurs_at(hay@, needle@, i as int));
            }
            return true;
        }
        proof {
            if occurs_at(hay@, needle@, i as int) {
                assert forall|q: int| 0 <= q < n@.len() implies h@[i + q] == n@[q] by {
                    assert(hay@.subrange(i as int, i + needle@.len())[q] == needle@[q]);
                }
            }
        }
        i = i + 1;
    }
    proof {
        if contains_text(hay@, needle@) {
            let k = choose|k: int| occurs_at(hay@, needle@, k);
            assert(k < i);
        }
    }
    false
}

/// A smoke step passed: its command succeeded and its output shows the
/// expected heading.
pub fn smoke_step_passed(success: bool, stdout: &str, heading: &str) -> (r: bool)
    ensures
        r == (success && contains_text(stdout@, heading@)),
{
    success && text_contains(stdout, heading)
}

} // verus!
