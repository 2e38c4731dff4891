use vstd::prelude::*;

verus! {

/// Whether the regex crate accepts a pattern string. Compilation is
/// deterministic in the pattern, so this is a function of the pattern alone.
pub uninterp spec fn regex_accepts(pat: Seq<char>) -> bool;

/// Whether a pattern, as compiled by the regex crate, matches anywhere in a
/// text. Matching is deterministic in the two strings.
pub uninterp spec fn regex_matches(pat: Seq<char>, text: Seq<char>) -> bool;

/// Relies on regex::Regex::new, which returns `Err` exactly on the patterns
/// the crate rejects, and on regex::Regex::is_match, which reports whether
/// the compiled pattern matches anywhere in the haystack. Both depend on
/// their string arguments alone.
#[verifier::external_body]
pub(crate) fn regex_is_match(pat: &str, text: &str) -> (r: Option<bool>)
    ensures
        r is Some <==> regex_accepts(pat@),
        r matches Some(b) ==> b == regex_matches(pat@, text@),
{
    match regex::Regex::new(pat) {
        Ok(re) => Some(re.is_match(text)),
        Err(_) => None,
    }
}

/// Relies on glob::glob: walks the filesystem for the paths that match the
/// pattern. `None` when the pattern is invalid, a matched path is
/// unreadable, or a path is not valid Unicode. What it yields depends on
/// what is on disk, so nothing is promised of the contents.
#[verifier::external_body]
pub(crate) fn glob_paths(pattern: &str) -> (r: Option<Vec<String>>) {
    let entries = glob::glob(pattern).ok()?;
    let mut out: Vec<String> = Vec::new();
    for entry in entries {
        out.push(entry.ok()?.into_os_string().into_string().ok()?);
    }
    Some(out)
}

/// Relies on std::str::from_utf8, which succeeds exactly on valid UTF-8.
#[verifier::external_body]
pub(crate) fn utf8_check(bytes: &[u8]) -> (r: bool)
    ensures
        r == vstd::utf8::valid_utf8(bytes@),
{
    core::str::from_utf8(bytes).is_ok()
}

} // verus!
