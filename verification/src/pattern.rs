//! Regular expressions, evaluated by the `regex` crate.

use vstd::prelude::*;
use crate::text::collapse_whitespace;

verus! {

/// The expression that matches a run of whitespace.
pub const WHITESPACE_RUN: &'static str = "\\s+";

/// The capture groups of the leftmost match of `pattern` in `text`: group 0
/// is the whole match, and a group that took no part in the match is
/// `None`. The whole is `None` where `pattern` is no valid expression or
/// matches nowhere in `text`.
pub uninterp spec fn regex_captures(pattern: Seq<char>, text: Seq<char>) -> Option<
    Seq<Option<Seq<char>>>,
>;

/// Compiles `pattern` with `Regex::new` and calls `Regex::captures` on
/// `text`. The result depends on `pattern` and `text` alone.
#[verifier::external_body]
pub(crate) fn captures(pattern: &str, text: &str) -> (groups: Option<Vec<Option<String>>>)
    ensures
        groups.deep_view() == regex_captures(pattern@, text@),
{
    let expression = regex::Regex::new(pattern).ok()?;
    let found = expression.captures(text)?;
    Some(found.iter().map(|group| group.map(|m| m.as_str().to_string())).collect())
}

/// Compiles `pattern` with `Regex::new` and calls `Regex::replace_all`.
/// With the expression `\s+`, a match is a maximal run of characters of the
/// Unicode property White_Space, and each run is replaced by `with`.
#[verifier::external_body]
pub(crate) fn replace_whitespace_runs(pattern: &str, text: &str, with: &str) -> (r: String)
    requires
        pattern@ == WHITESPACE_RUN@,
        with@ == seq![' '],
    ensures
        r@ == collapse_whitespace(text@),
{
    match regex::Regex::new(pattern) {
        Ok(expression) => expression.replace_all(text, with).into_owned(),
        Err(_) => text.to_string(),
    }
}

} // verus!
