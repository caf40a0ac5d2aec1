//! Compiled regular expressions, through the `regex` crate.

use vstd::prelude::*;

verus! {

#[verifier::external_type_specification]
#[verifier::external_body]
pub struct ExRegex(regex::Regex);

#[verifier::external_type_specification]
#[verifier::external_body]
pub struct ExRegexError(regex::Error);

/// Whether the `regex` crate accepts `pattern` (it compiles it with its
/// default syntax and size limits).
pub uninterp spec fn regex_compiles(pattern: Seq<char>) -> bool;

/// Whether the regex `pattern` matches somewhere in `haystack`.
pub uninterp spec fn regex_finds(pattern: Seq<char>, haystack: Seq<char>) -> bool;

/// `haystack` with every non-overlapping match of `pattern` replaced by
/// `replacement` (with `$` group references expanded).
pub uninterp spec fn regex_replace_all(
    pattern: Seq<char>,
    haystack: Seq<char>,
    replacement: Seq<char>,
) -> Seq<char>;

/// A regular expression together with the pattern text it was compiled
/// from. Only `compile_pattern` builds one, so the regex always is the
/// compilation of the text.
pub struct CompiledPattern {
    source: String,
    regex: regex::Regex,
}

impl View for CompiledPattern {
    type V = Seq<char>;

    closed spec fn view(&self) -> Seq<char> {
        self.source@
    }
}

/// Calls `regex::Regex::new(pattern)`. Claimed: it succeeds exactly when
/// the crate accepts the pattern text, and the result keeps that text.
#[verifier::external_body]
pub(crate) fn compile_pattern(pattern: &str) -> (r: Result<CompiledPattern, regex::Error>)
    ensures
        r is Ok <==> regex_compiles(pattern@),
        r matches Ok(p) ==> p@ == pattern@,
{
    match regex::Regex::new(pattern) {
        Ok(regex) => Ok(CompiledPattern { source: pattern.to_string(), regex }),
        Err(e) => Err(e),
    }
}

/// Calls `regex::Regex::is_match`. Claimed: the answer is whether the
/// pattern text matches somewhere in `haystack`.
#[verifier::external_body]
pub(crate) fn pattern_finds(p: &CompiledPattern, haystack: &str) -> (found: bool)
    ensures
        found == regex_finds(p@, haystack@),
{
    p.regex.is_match(haystack)
}

/// Calls `regex::Regex::replace_all` and takes the result as an owned
/// string. Claimed: the result is the named replacement of the pattern
/// text in `haystack`, and, as the crate documents, `haystack` itself
/// when the pattern matches nowhere in it.
#[verifier::external_body]
pub(crate) fn pattern_replace_all(p: &CompiledPattern, haystack: &str, replacement: &str) -> (out:
    String)
    ensures
        out@ == regex_replace_all(p@, haystack@, replacement@),
        !regex_finds(p@, haystack@) ==> out@ == haystack@,
{
    p.regex.replace_all(haystack, replacement).into_owned()
}

/// The pattern of an ANSI terminal control sequence (CSI): ESC `[`, then
/// parameter bytes, intermediate bytes and one final byte.
pub open spec fn ansi_escape_source() -> Seq<char> {
    "\\x1b\\[[0-9;?]*[ -/]*[@-~]"@
}

/// Compiles the ANSI control sequence pattern.
pub fn ansi_pattern() -> (r: Option<CompiledPattern>)
    ensures
        r is Some <==> regex_compiles(ansi_escape_source()),
        r matches Some(p) ==> p@ == ansi_escape_source(),
{
    match compile_pattern("\\x1b\\[[0-9;?]*[ -/]*[@-~]") {
        Ok(p) => Some(p),
        Err(_) => None,
    }
}

} // verus!
