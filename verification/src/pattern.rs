//! Regular-expression captures, through the `regex` crate.
use vstd::prelude::*;

use crate::text::{at_char_start, utf8};

verus! {

/// The capture groups of the leftmost match of regular expression `pattern` in `text`, as
/// `regex::Regex::captures` finds them: byte spans, group 0 being the whole match and `None` for
/// a group that took no part; `None` when nothing matches or the pattern does not compile.
pub uninterp spec fn regex_captures_spec(pattern: Seq<char>, text: Seq<char>) -> Option<
    Seq<Option<(usize, usize)>>,
>;

/// Every span is an ordered byte range of `text` between character boundaries.
pub open spec fn spans_in(text: Seq<char>, v: Seq<Option<(usize, usize)>>) -> bool {
    forall|i: int|
        0 <= i < v.len() ==> (#[trigger] v[i] matches Some((s, e)) ==> s <= e <= utf8(text).len()
            && at_char_start(utf8(text), s as int) && at_char_start(utf8(text), e as int))
}

/// The capture-group spans of the leftmost match of `pattern` in `text`.
/// Trusted: `regex::Regex::new` compiles the pattern (a compile error gives `None`), and
/// `regex::Regex::captures` returns the leftmost match with each group's `Match`; the crate
/// documents that match offsets are byte offsets on UTF-8 codepoint boundaries of the haystack.
/// Which spans come back is not stated beyond naming them `regex_captures_spec`.
#[verifier::external_body]
pub(crate) fn regex_captures(pattern: &str, text: &str) -> (r: Option<Vec<Option<(usize, usize)>>>)
    ensures
        match r {
            Some(v) => regex_captures_spec(pattern@, text@) == Some(v@) && spans_in(text@, v@),
            None => regex_captures_spec(pattern@, text@) is None,
        },
{
    let re = match regex::Regex::new(pattern) {
        Ok(re) => re,
        Err(_) => return None,
    };
    let caps = re.captures(text)?;
    Some((0..caps.len()).map(|i| caps.get(i).map(|m| (m.start(), m.end()))).collect())
}

} // verus!
