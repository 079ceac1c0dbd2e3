//! The two composite-type grammars, matched by the `regex` crate.

use vstd::prelude::*;

verus! {

/// The grammar of a key/value container, from the first character of the text
/// to the last: the key is one word, the value runs up to the closing
/// parenthesis. The groups are `key_type` and `value_type`.
pub const MAPPING_REGEX: &'static str =
    r"(?s)^mapping\s*\(\s*(?<key_type>\w+)\s*=>\s*(?<value_type>.+?)\s*\)$";

/// The grammar of a repetition with a literal count, from the first character of
/// the text to the last: the element runs up to the last bracket pair, which
/// holds the count. The groups are `type` and `size`.
pub const FIXED_ARRAY_REGEX: &'static str = r"(?s)^(?<type>.+)\[\s*(?<size>\d+)\s*\]$";

/// What the groups named `first` and `second` hold in the leftmost match of
/// `pattern` in `text`: `None` where `pattern` is no regular expression, where it
/// matches nowhere in `text`, or where one of the two groups took no part in the
/// match.
pub uninterp spec fn captured_pair(
    pattern: Seq<char>,
    text: Seq<char>,
    first: Seq<char>,
    second: Seq<char>,
) -> Option<(Seq<char>, Seq<char>)>;

/// Compiles `pattern` with `regex::Regex::new`, searches `text` with
/// `Regex::captures` and reads the two named groups with `Captures::name`. The
/// contract claims only that the outcome is the one that `captured_pair` names:
/// the same pattern, text and group names always give the same texts.
#[verifier::external_body]
pub(crate) fn capture_pair(pattern: &str, text: &str, first: &str, second: &str) -> (r: Option<
    (String, String),
>)
    ensures
        match r {
            Some((a, b)) => captured_pair(pattern@, text@, first@, second@) == Some((a@, b@)),
            None => captured_pair(pattern@, text@, first@, second@) is None,
        },
{
    let re = regex::Regex::new(pattern).ok()?;
    let caps = re.captures(text)?;
    let a = caps.name(first)?.as_str().to_string();
    let b = caps.name(second)?.as_str().to_string();
    Some((a, b))
}

} // verus!
