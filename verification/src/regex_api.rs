//! The regular-expression matching that the append-only file manager
//! uses to read requests, from the `regex` crate.
use vstd::prelude::*;

verus! {

/// For `pattern` and `text`: `None` when `pattern` is not a valid regular
/// expression or has no match in `text`; otherwise, for the leftmost-first
/// match, one entry per capture group of `pattern` (group 0 being the
/// whole match), holding the text that the group matched, or `None` for a
/// group that took no part in the match.
pub uninterp spec fn regex_captures_of(pattern: Seq<char>, text: Seq<char>) -> Option<
    Seq<Option<Seq<char>>>,
>;

/// The view of the groups that `regex_captures` hands back.
pub open spec fn captures_view(c: Option<Vec<Option<String>>>) -> Option<Seq<Option<Seq<char>>>> {
    match c {
        Some(v) => Some(
            v@.map_values(
                |g: Option<String>|
                    match g {
                        Some(s) => Some(s@),
                        None => None,
                    },
            ),
        ),
        None => None,
    }
}

/// Compiles `pattern` with `regex::Regex::new` and, when that succeeds,
/// takes the capture groups of its first match in `text` with
/// `Regex::captures` (each group's text by `Captures::iter` and
/// `Match::as_str`). The contract claims only that the result is
/// `regex_captures_of(pattern, text)`: a function of the two texts alone.
#[verifier::external_body]
pub(crate) fn regex_captures(pattern: &str, text: &str) -> (r: Option<Vec<Option<String>>>)
    ensures
        captures_view(r) == regex_captures_of(pattern@, text@),
{
    let re = regex::Regex::new(pattern).ok()?;
    let caps = re.captures(text)?;
    Some(caps.iter().map(|g| g.map(|m| m.as_str().to_string())).collect())
}

} // verus!
