//! Evidence bundles: what the Studio records of each run, the lines of a
//! bundle's SHA-256 manifest, and the first check on a path the in-app
//! reader is asked to open.

use vstd::prelude::*;
use vstd::string::*;
use sha2::Digest;
use crate::text::{hex_of, is_blank, push_hex_byte, string_push, trim, trim_str, chars_vec};

verus! {

/// A freshly created evidence bundle.
#[derive(Debug, Clone)]
pub struct EvidenceBundle {
    pub path: String,
    pub timestamp: String,
    pub manifest_path: String,
}

/// One file of an evidence listing.
#[derive(Debug, Clone)]
pub struct EvidenceFileInfo {
    pub relative_path: String,
    pub size: u64,
}

/// An evidence directory listing (capped).
#[derive(Debug, Clone)]
pub struct EvidenceListing {
    pub root: String,
    pub files: Vec<EvidenceFileInfo>,
    pub truncated: bool,
}

/// The (capped) text of an evidence file.
#[derive(Debug, Clone)]
pub struct EvidenceText {
    pub path: String,
    pub content: String,
    pub size: u64,
    pub truncated: bool,
}

/// SHA-256 digest (32 bytes) of a byte string.
pub uninterp spec fn sha256_digest(data: Seq<u8>) -> Seq<u8>;

/// `sha2::Sha256::digest`: the 32-byte SHA-256 digest of `data`, a
/// function of `data` alone.
#[verifier::external_body]
fn sha256_bytes(data: &[u8]) -> (digest: [u8; 32])
    ensures
        digest@ == sha256_digest(data@),
{
    sha2::Sha256::digest(data).into()
}

/// `path` with every backslash turned into a forward slash.
pub open spec fn forward_slashes(path: Seq<char>) -> Seq<char> {
    Seq::new(path.len(), |i: int| if path[i] == '\\' { '/' } else { path[i] })
}

/// The manifest line of a file: its SHA-256 in lowercase hexadecimal, two
/// spaces, and its path relative to the bundle with forward slashes.
pub open spec fn manifest_line_of(contents: Seq<u8>, relative: Seq<char>) -> Seq<char> {
    hex_of(sha256_digest(contents)) + "  "@ + forward_slashes(relative)
}

/// The manifest line of a file with these contents at this relative path.
pub fn manifest_line(contents: &[u8], relative: &str) -> (line: String)
    ensures
        line@ == manifest_line_of(contents@, relative@),
{
    let digest = sha256_bytes(contents);
    let mut out = String::new();
    let mut i: usize = 0;
    while i < 32
        invariant
            i <= 32,
            out@ == hex_of(digest@.subrange(0, i as int)),
        decreases 32 - i,
    {
        push_hex_byte(&mut out, digest[i]);
        proof {
            let pre = digest@.subrange(0, i as int + 1);
            assert(pre.drop_last() =~= digest@.subrange(0, i as int));
        }
        i = i + 1;
    }
    assert(digest@.subrange(0, 32) =~= digest@);
    out.append("  ");
    let rel = forward_slashes_of(relative);
    out.append(rel.as_str());
    out
}

/// `path` with every backslash turned into a forward slash.
pub fn forward_slashes_of(path: &str) -> (r: String)
    ensures
        r@ == forward_slashes(path@),
{
    let chars = chars_vec(path);
    let mut out = String::new();
    let mut j: usize = 0;
    while j < chars.len()
        invariant
            chars@ == path@,
            j <= chars@.len(),
            out@ == forward_slashes(path@).subrange(0, j as int),
        decreases chars@.len() - j,
    {
        let c = chars[j];
        string_push(&mut out, if c == '\\' { '/' } else { c });
        j = j + 1;
        proof {
            assert(out@ =~= forward_slashes(path@).subrange(0, j as int));
        }
    }
    assert(forward_slashes(path@).subrange(0, j as int) =~= forward_slashes(path@));
    out
}

/// The first check on a path the evidence reader is asked to open: a blank
/// path is refused; otherwise the trimmed path goes on to be resolved
/// against the evidence roots.
pub fn evidence_path_precheck(raw: &str) -> (r: Result<String, String>)
    ensures
        trim(raw@).len() == 0 ==> r is Err && r->Err_0@ == "evidence path is empty"@,
        trim(raw@).len() > 0 ==> r is Ok && r->Ok_0@ == trim(raw@),
{
    if is_blank(raw) {
        return Err(String::from_str("evidence path is empty"));
    }
    Ok(trim_str(raw).to_owned())
}

/// The refusal of a path outside every evidence root.
pub open spec fn outside_roots_error() -> Seq<char> {
    "path is outside the Studio evidence roots; refusing to read it"@
}

/// The refusal of a path outside every evidence root.
pub fn outside_roots() -> (e: String)
    ensures
        e@ == outside_roots_error(),
{
    String::from_str("path is outside the Studio evidence roots; refusing to read it")
}

} // verus!
