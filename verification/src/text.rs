//! Character-level predicates shared by the codec and the frame decoder.

use vstd::prelude::*;

verus! {

/// JSON insignificant whitespace.
pub open spec fn is_ws_char(c: char) -> bool {
    c == ' ' || c == '\n' || c == '\r' || c == '\t'
}

/// Exec mirror of [`is_ws_char`].
#[verifier::when_used_as_spec(is_ws_char)]
pub fn ws_char(c: char) -> (r: bool)
    ensures
        r == is_ws_char(c),
{
    c == ' ' || c == '\n' || c == '\r' || c == '\t'
}

/// Text that can stand inside a JSON string literal without escaping.
/// The protocol restricts node ids to alphanumeric characters, so this is a
/// documented constraint on the id alphabet, not a runtime check.
pub open spec fn text_ok(s: Seq<char>) -> bool {
    forall|i: int| 0 <= i < s.len() ==> s[i] != '"' && s[i] != '\\'
}

/// Text free of braces.  Needed for the framing heuristic, which splits the
/// stream on the two-character sequence close-brace open-brace and therefore
/// must never see a brace inside a string value.
pub open spec fn brace_free(s: Seq<char>) -> bool {
    forall|i: int| 0 <= i < s.len() ==> s[i] != '{' && s[i] != '}'
}

/// All strings of a sequence are clean literal text.
pub open spec fn all_text_ok(v: Seq<Seq<char>>) -> bool {
    forall|i: int| 0 <= i < v.len() ==> text_ok(#[trigger] v[i])
}

/// All strings of a sequence are brace free.
pub open spec fn all_brace_free(v: Seq<Seq<char>>) -> bool {
    forall|i: int| 0 <= i < v.len() ==> brace_free(#[trigger] v[i])
}

} // verus!
