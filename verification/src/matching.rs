//! Regular-expression matching through the `regex` crate. The match positions
//! that `regex` computes are named, not restated; what `regex` documents of
//! every match (byte offsets that delimit characters of the haystack) is stated.

use vstd::prelude::*;
use vstd::utf8::*;

use crate::text::byte_len;

verus! {

/// The byte span of the leftmost-first match of `pattern` in `haystack`, as
/// `regex::Regex::find` reports it; `None` where there is no match or the
/// pattern does not compile.
pub uninterp spec fn regex_first(pattern: Seq<char>, haystack: Seq<char>) -> Option<(usize, usize)>;

/// For each successive non-overlapping match of `pattern` in `haystack`, the
/// byte span of every capture group (group 0 first), as
/// `regex::Regex::captures_iter` reports them; empty where the pattern does not
/// compile.
pub uninterp spec fn regex_captures(pattern: Seq<char>, haystack: Seq<char>) -> Seq<Seq<Option<(usize, usize)>>>;

/// A byte span that delimits whole characters of `t`.
pub open spec fn valid_span(t: Seq<char>, span: (usize, usize)) -> bool {
    &&& span.0 <= span.1 <= byte_len(t)
    &&& is_char_boundary(encode_utf8(t), span.0 as int)
    &&& is_char_boundary(encode_utf8(t), span.1 as int)
}

/// Compiles `pattern` with `regex::Regex::new` and runs `Regex::find` on
/// `haystack`. The contract names the span; of it, it states only what the
/// `regex` documentation gives: `Match::start` and `Match::end` are byte offsets
/// into the haystack at which it can be sliced.
#[verifier::external_body]
pub(crate) fn regex_find(pattern: &str, haystack: &str) -> (r: Option<(usize, usize)>)
    ensures
        r == regex_first(pattern@, haystack@),
        r matches Some(span) ==> valid_span(haystack@, span),
{
    match regex::Regex::new(pattern) {
        Ok(re) => re.find(haystack).map(|m| (m.start(), m.end())),
        Err(_) => None,
    }
}

/// Compiles `pattern` with `regex::Regex::new` and collects, for every match of
/// `Regex::captures_iter` on `haystack`, the spans of all capture groups
/// (`Captures::iter`). The contract names the spans and states what the `regex`
/// documentation gives of each: they delimit characters of the haystack.
#[verifier::external_body]
pub(crate) fn regex_captures_all(pattern: &str, haystack: &str) -> (r: Vec<Vec<Option<(usize, usize)>>>)
    ensures
        r.deep_view() == regex_captures(pattern@, haystack@),
        forall|i: int, j: int|
            0 <= i < r.deep_view().len() && 0 <= j < r.deep_view()[i].len()
                ==> (#[trigger] r.deep_view()[i][j] matches Some(span) ==> valid_span(haystack@, span)),
{
    match regex::Regex::new(pattern) {
        Ok(re) => re
            .captures_iter(haystack)
            .map(|c| c.iter().map(|g| g.map(|m| (m.start(), m.end()))).collect())
            .collect(),
        Err(_) => Vec::new(),
    }
}

} // verus!
