//! Persisted Studio preferences and their normalisation.
//!
//! Every field has a safe default, and every write passes through
//! [`StudioSettings::normalized`], so an unknown mode or theme and an
//! out-of-range timeout can never persist.

use vstd::prelude::*;
use vstd::string::*;
use crate::text::{
    all_ascii, ascii_lowercase, is_white_space, str_eq, to_lowercase, trim, trim_end, trim_start,
    trim_str, unicode_lowercase,
};

verus! {

pub const COMMAND_TIMEOUT_DEFAULT: u64 = 900;
pub const COMMAND_TIMEOUT_MIN: u64 = 30;
pub const COMMAND_TIMEOUT_MAX: u64 = 14_400;
pub const MATRIX_TIMEOUT_DEFAULT: u64 = 5_400;
pub const MATRIX_TIMEOUT_MIN: u64 = 60;
pub const MATRIX_TIMEOUT_MAX: u64 = 21_600;

/// The accepted UI modes.
pub open spec fn modes() -> Seq<Seq<char>> {
    seq!["simple"@, "power"@]
}

/// The accepted themes.
pub open spec fn themes() -> Seq<Seq<char>> {
    seq!["dark"@, "light"@, "system"@]
}

/// Studio UI and runtime preferences.
#[derive(Debug, Clone)]
pub struct StudioSettings {
    pub mode: String,
    pub theme: String,
    pub command_timeout_secs: u64,
    pub matrix_timeout_secs: u64,
}

/// `v` limited to `lo..=hi`.
pub open spec fn clamp(v: u64, lo: u64, hi: u64) -> u64 {
    if v < lo {
        lo
    } else if v > hi {
        hi
    } else {
        v
    }
}

/// A chosen value: the trimmed, lowercased text when it is one of `allowed`,
/// the default otherwise.
pub open spec fn choose_known(raw: Seq<char>, allowed: Seq<Seq<char>>, default: Seq<char>) -> Seq<
    char,
> {
    let v = unicode_lowercase(trim(raw));
    if allowed.contains(v) {
        v
    } else {
        default
    }
}

/// Whether settings are in normal form: a known mode and theme, timeouts in
/// range.
pub open spec fn is_normal(s: StudioSettings) -> bool {
    &&& modes().contains(s.mode@)
    &&& themes().contains(s.theme@)
    &&& COMMAND_TIMEOUT_MIN <= s.command_timeout_secs <= COMMAND_TIMEOUT_MAX
    &&& MATRIX_TIMEOUT_MIN <= s.matrix_timeout_secs <= MATRIX_TIMEOUT_MAX
}

/// `v` limited to `lo..=hi`.
fn clamp_u64(v: u64, lo: u64, hi: u64) -> (r: u64)
    requires
        lo <= hi,
    ensures
        r == clamp(v, lo, hi),
{
    if v < lo {
        lo
    } else if v > hi {
        hi
    } else {
        v
    }
}

/// The trimmed, lowercased `raw` when it is one of the two or three allowed
/// names, else `default`.
fn pick_known(raw: &str, a: &str, b: &str, c: Option<&str>, default: &str) -> (r: String)
    ensures
        ({
            let v = unicode_lowercase(trim(raw@));
            r@ == if v == a@ || v == b@ || (c is Some && v == c->0@) {
                v
            } else {
                default@
            }
        }),
        all_ascii(trim(raw@)) ==> unicode_lowercase(trim(raw@)) == ascii_lowercase(trim(raw@)),
{
    let v = to_lowercase(trim_str(raw));
    let known = str_eq(v.as_str(), a) || str_eq(v.as_str(), b) || match c {
        Some(c) => str_eq(v.as_str(), c),
        None => false,
    };
    if known {
        v
    } else {
        default.to_owned()
    }
}

impl Default for StudioSettings {
    fn default() -> (s: StudioSettings)
        ensures
            s.mode@ == "simple"@,
            s.theme@ == "dark"@,
            s.command_timeout_secs == COMMAND_TIMEOUT_DEFAULT,
            s.matrix_timeout_secs == MATRIX_TIMEOUT_DEFAULT,
    {
        StudioSettings {
            mode: String::from_str("simple"),
            theme: String::from_str("dark"),
            command_timeout_secs: COMMAND_TIMEOUT_DEFAULT,
            matrix_timeout_secs: MATRIX_TIMEOUT_DEFAULT,
        }
    }
}

impl StudioSettings {
    /// The settings with mode and theme trimmed, lowercased and checked
    /// against the known names (unknown ones fall back to `simple` and
    /// `dark`), and both timeouts clamped to their ranges.
    pub fn normalized(self) -> (r: StudioSettings)
        ensures
            r.mode@ == choose_known(self.mode@, modes(), "simple"@),
            r.theme@ == choose_known(self.theme@, themes(), "dark"@),
            r.command_timeout_secs == clamp(
                self.command_timeout_secs,
                COMMAND_TIMEOUT_MIN,
                COMMAND_TIMEOUT_MAX,
            ),
            r.matrix_timeout_secs == clamp(
                self.matrix_timeout_secs,
                MATRIX_TIMEOUT_MIN,
                MATRIX_TIMEOUT_MAX,
            ),
            is_normal(r),
            all_ascii(trim(self.mode@)) ==> r.mode@ == (if modes().contains(ascii_lowercase(trim(self.mode@))) {
                ascii_lowercase(trim(self.mode@))
            } else {
                "simple"@
            }),
            all_ascii(trim(self.theme@)) ==> r.theme@ == (if themes().contains(ascii_lowercase(trim(self.theme@))) {
                ascii_lowercase(trim(self.theme@))
            } else {
                "dark"@
            }),
            is_normal(self) ==> r.mode@ == self.mode@ && r.theme@ == self.theme@
                && r.command_timeout_secs == self.command_timeout_secs && r.matrix_timeout_secs
                == self.matrix_timeout_secs,
    {
        let mode = pick_known(self.mode.as_str(), "simple", "power", None, "simple");
        let theme = pick_known(self.theme.as_str(), "dark", "light", Some("system"), "dark");
        proof {
            let m = unicode_lowercase(trim(self.mode@));
            let t = unicode_lowercase(trim(self.theme@));
            assert(modes().contains(m) <==> (m == "simple"@ || m == "power"@)) by {
                if modes().contains(m) {
                    let k = choose|k: int| 0 <= k < modes().len() && modes()[k] == m;
                    assert(k == 0 || k == 1);
                }
                if m == "simple"@ {
                    assert(modes()[0] == m);
                }
                if m == "power"@ {
                    assert(modes()[1] == m);
                }
            }
            assert(themes().contains(t) <==> (t == "dark"@ || t == "light"@ || t == "system"@))
                by {
                if themes().contains(t) {
                    let k = choose|k: int| 0 <= k < themes().len() && themes()[k] == t;
                    assert(k == 0 || k == 1 || k == 2);
                }
                if t == "dark"@ {
                    assert(themes()[0] == t);
                }
                if t == "light"@ {
                    assert(themes()[1] == t);
                }
                if t == "system"@ {
                    assert(themes()[2] == t);
                }
            }
            assert(modes()[0] == "simple"@);
            assert(themes()[0] == "dark"@);
            if is_normal(self) {
                lemma_known_name_canonical(self.mode@);
                lemma_known_name_canonical(self.theme@);
            }
        }
        StudioSettings {
            mode,
            theme,
            command_timeout_secs: clamp_u64(
                self.command_timeout_secs,
                COMMAND_TIMEOUT_MIN,
                COMMAND_TIMEOUT_MAX,
            ),
            matrix_timeout_secs: clamp_u64(
                self.matrix_timeout_secs,
                MATRIX_TIMEOUT_MIN,
                MATRIX_TIMEOUT_MAX,
            ),
        }
    }
}

/// A known name is its own trimmed, lowercased form.
proof fn lemma_known_name_canonical(n: Seq<char>)
    requires
        modes().contains(n) || themes().contains(n),
    ensures
        trim(n) == n,
        all_ascii(n),
        ascii_lowercase(n) == n,
{
    reveal_strlit("simple");
    reveal_strlit("power");
    reveal_strlit("dark");
    reveal_strlit("light");
    reveal_strlit("system");
    if modes().contains(n) {
        let k = choose|k: int| 0 <= k < modes().len() && modes()[k] == n;
        assert(k == 0 || k == 1);
    } else {
        let k = choose|k: int| 0 <= k < themes().len() && themes()[k] == n;
        assert(k == 0 || k == 1 || k == 2);
    }
    assert(n.len() > 0);
    assert(!is_white_space(n[0]));
    assert(!is_white_space(n.last()));
    assert(trim_start(n) == n);
    assert(trim_end(n) == n);
    assert(ascii_lowercase(n) =~= n);
}

/// The defaults are in normal form.
pub proof fn lemma_default_is_normal(s: StudioSettings)
    requires
        s.mode@ == "simple"@,
        s.theme@ == "dark"@,
        s.command_timeout_secs == COMMAND_TIMEOUT_DEFAULT,
        s.matrix_timeout_secs == MATRIX_TIMEOUT_DEFAULT,
    ensures
        is_normal(s),
{
    assert(modes()[0] == s.mode@);
    assert(themes()[0] == s.theme@);
}

} // verus!
