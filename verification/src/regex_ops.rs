//! The regular-expression calls the library makes, through the `regex` crate.
use vstd::prelude::*;

verus! {

/// What compiling `pattern` with `regex::Regex::new` and then testing
/// `haystack` with `Regex::is_match` gives; `None` where the pattern does
/// not compile.
pub uninterp spec fn regex_match_result(pattern: Seq<char>, haystack: Seq<char>) -> Option<bool>;

/// What compiling `pattern` with `regex::Regex::new` and then calling
/// `Regex::replace_all(haystack, replacement)` gives; `None` where the
/// pattern does not compile.
pub uninterp spec fn regex_replace_all_result(
    pattern: Seq<char>,
    haystack: Seq<char>,
    replacement: Seq<char>,
) -> Option<Seq<char>>;

/// The pattern `\w|'`: a Unicode word character or an apostrophe.
pub open spec fn word_pattern() -> Seq<char> {
    seq!['\\', 'w', '|', '\'']
}

/// The pattern `^\.`: a dot at the very start of the haystack.
pub open spec fn leading_dot_pattern() -> Seq<char> {
    seq!['^', '\\', '.']
}

/// `haystack` without one leading dot, where it has one.
pub open spec fn drop_leading_dot(s: Seq<char>) -> Seq<char> {
    if s.len() > 0 && s[0] == '.' {
        s.drop_first()
    } else {
        s
    }
}

/// The characters of an optional string.
pub open spec fn opt_view(r: Option<String>) -> Option<Seq<char>> {
    match r {
        Some(s) => Some(s@),
        None => None,
    }
}

/// Calls `regex::Regex::new(pattern)` and, where it compiles,
/// `Regex::is_match(haystack)`. Claimed: the result is the named
/// `regex_match_result`, and the pattern `\w|'` compiles (a Perl word class,
/// an alternation and a literal, all in the crate's documented syntax with
/// its default features); and that it matches no single whitespace
/// character: none of them is in the crate's `\w` table
/// (`regex-syntax`, `unicode_tables/perl_word.rs`), and `'` is not
/// whitespace. Nothing more is claimed of which characters `\w` matches.
#[verifier::external_body]
pub(crate) fn regex_is_match(pattern: &str, haystack: &str) -> (r: Option<bool>)
    ensures
        r == regex_match_result(pattern@, haystack@),
        pattern@ == word_pattern() ==> r is Some,
        pattern@ == word_pattern() && haystack@.len() == 1 && crate::text::is_ws(haystack@[0]) ==> r == Some(
            false,
        ),
{
    match regex::Regex::new(pattern) {
        Ok(re) => Some(re.is_match(haystack)),
        Err(_) => None,
    }
}

/// Calls `regex::Regex::new(pattern)` and, where it compiles,
/// `Regex::replace_all(haystack, replacement)`. Claimed: the result is the
/// named `regex_replace_all_result`; and for the pattern `^\.` with an empty
/// replacement, which the crate's documentation defines as matching one dot
/// at the start of the haystack only, the result is the haystack without
/// that dot.
#[verifier::external_body]
pub(crate) fn regex_replace_all(pattern: &str, haystack: &str, replacement: &str) -> (r: Option<String>)
    ensures
        opt_view(r) == regex_replace_all_result(pattern@, haystack@, replacement@),
        pattern@ == leading_dot_pattern() && replacement@.len() == 0 ==> opt_view(r) == Some(
            drop_leading_dot(haystack@),
        ),
{
    match regex::Regex::new(pattern) {
        Ok(re) => Some(re.replace_all(haystack, replacement).into_owned()),
        Err(_) => None,
    }
}

} // verus!

verus! {

/// `subject` with every match of `pattern` replaced by `replace_with`;
/// `None` where the pattern does not compile.
pub fn preg_replace(subject: &str, pattern: &str, replace_with: &str) -> (r: Option<String>)
    ensures
        opt_view(r) == regex_replace_all_result(pattern@, subject@, replace_with@),
{
    regex_replace_all(pattern, subject, replace_with)
}

} // verus!
