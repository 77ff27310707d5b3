//! Pattern search in text. The searching itself is the `regex` crate's; this
//! module states what the library relies on.

use vstd::prelude::*;
use crate::text::opt_text;

verus! {

/// The characters that stand for something other than themselves in a
/// pattern.
pub open spec fn is_meta_character(c: char) -> bool {
    c == '\\' || c == '.' || c == '+' || c == '*' || c == '?' || c == '(' || c == ')' || c == '|'
        || c == '[' || c == ']' || c == '{' || c == '}' || c == '^' || c == '$' || c == '#' || c
        == '&' || c == '-' || c == '~'
}

/// `text` as a pattern that matches exactly `text`: a backslash goes before
/// every meta character.
pub open spec fn escaped(text: Seq<char>) -> Seq<char>
    decreases text.len(),
{
    if text.len() == 0 {
        text
    } else if is_meta_character(text.last()) {
        escaped(text.drop_last()).push('\\').push(text.last())
    } else {
        escaped(text.drop_last()).push(text.last())
    }
}

/// `regex::escape`: the text with a backslash before each of the eighteen meta
/// characters that `regex_syntax::is_meta_character` lists, and nothing else
/// changed.
#[verifier::external_body]
pub(crate) fn escape(text: &str) -> (r: String)
    ensures
        r@ == escaped(text@),
{
    regex::escape(text)
}

/// The text of the leftmost match of `pattern` in `haystack`, as
/// `Regex::find` reports it. `None` where nothing matches, and where the
/// engine refuses the pattern.
pub uninterp spec fn first_match(pattern: Seq<char>, haystack: Seq<char>) -> Option<Seq<char>>;

/// `Regex::new` followed by `Regex::find`: the matched text of the first
/// match. Nothing is claimed of it but that the same pattern and haystack give
/// the same answer.
#[verifier::external_body]
pub(crate) fn find_first(pattern: &str, haystack: &str) -> (r: Option<String>)
    ensures
        opt_text(r) == first_match(pattern@, haystack@),
{
    Some(regex::Regex::new(pattern).ok()?.find(haystack)?.as_str().to_string())
}

/// What a capturing search found: the haystack before the match, the text of
/// each capture group (group 0 is the whole match; a group that took no part
/// is `None`), and the haystack after the match.
#[derive(Debug, Clone, PartialEq, Eq)]
pub struct Captured {
    pub before: String,
    pub groups: Vec<Option<String>>,
    pub after: String,
}

/// The texts of a vector of optional strings.
pub open spec fn groups_view(groups: Seq<Option<String>>) -> Seq<Option<Seq<char>>> {
    Seq::new(groups.len(), |i: int| opt_text(groups[i]))
}

/// The leftmost match of `pattern` in `haystack` with its capture groups, as
/// `Regex::captures` reports it: where the match starts and ends, counted in
/// characters, and the text of each group. `None` where nothing matches, and
/// where the engine refuses the pattern.
pub uninterp spec fn first_captures(pattern: Seq<char>, haystack: Seq<char>) -> Option<
    (int, int, Seq<Option<Seq<char>>>),
>;

/// `Regex::new` followed by `Regex::captures`. The match is a stretch of the
/// haystack (the engine reports offsets on character boundaries with start no
/// greater than end), so what comes back cuts the haystack in three: the text
/// before the match, the groups, the text after it.
#[verifier::external_body]
pub(crate) fn capture_first(pattern: &str, haystack: &str) -> (r: Option<Captured>)
    ensures
        match r {
            None => first_captures(pattern@, haystack@) is None,
            Some(c) => first_captures(pattern@, haystack@) matches Some((start, end, groups))
                && 0 <= start <= end <= haystack@.len()
                && c.before@ == haystack@.subrange(0, start)
                && c.after@ == haystack@.subrange(end, haystack@.len() as int)
                && groups_view(c.groups@) == groups,
        },
{
    let caps = regex::Regex::new(pattern).ok()?.captures(haystack)?;
    let whole = caps.get(0)?;
    Some(Captured {
        before: haystack[..whole.start()].to_string(),
        groups: caps.iter().map(|g| g.map(|m| m.as_str().to_string())).collect(),
        after: haystack[whole.end()..].to_string(),
    })
}

/// `text` with every match of `pattern` taken out, as `Regex::replace_all`
/// with an empty replacement gives it. `None` where the engine refuses the
/// pattern.
pub uninterp spec fn without_matches(pattern: Seq<char>, text: Seq<char>) -> Option<Seq<char>>;

/// `Regex::new` followed by `Regex::replace_all` with the empty replacement.
/// Nothing is claimed of the result but that the same pattern and text give
/// the same answer.
#[verifier::external_body]
pub(crate) fn remove_matches(pattern: &str, text: &str) -> (r: Option<String>)
    ensures
        opt_text(r) == without_matches(pattern@, text@),
{
    Some(regex::Regex::new(pattern).ok()?.replace_all(text, "").to_string())
}

} // verus!
