//! Regular expression matching, done by the `regex` crate.
use vstd::prelude::*;

verus! {

/// The text of each group of a match: the whole match first, then each capturing group in order;
/// a group that took no part in the match has no text
pub open spec fn groups_view(g: Seq<Option<String>>) -> Seq<Option<Seq<char>>> {
    g.map_values(
        |o: Option<String>|
            match o {
                Some(s) => Some(s@),
                None => None,
            },
    )
}

/// What `regex` finds when it searches `text` for the first match of `pattern`: the groups of
/// that match, or nothing when there is no match or the pattern does not compile
pub uninterp spec fn regex_captures_of(pattern: Seq<char>, text: Seq<char>) -> Option<
    Seq<Option<Seq<char>>>,
>;

/// Searches `text` for the first match of `pattern`.
///
/// Compiles the pattern with `regex::Regex::new` and calls `Regex::captures`, then copies the text
/// of each group (`Captures::iter`, `Match::as_str`). The result is named
/// `regex_captures_of(pattern, text)`: a function of the pattern and the text alone. Nothing is
/// claimed of what the groups hold.
#[verifier::external_body]
pub fn regex_captures(pattern: &str, text: &str) -> (r: Option<Vec<Option<String>>>)
    ensures
        match r {
            Some(g) => regex_captures_of(pattern@, text@) == Some(groups_view(g@)),
            None => regex_captures_of(pattern@, text@) is None,
        },
{
    match regex::Regex::new(pattern) {
        Ok(re) => match re.captures(text) {
            Some(c) => Some(c.iter().map(|m| m.map(|m| m.as_str().to_string())).collect()),
            None => None,
        },
        Err(_) => None,
    }
}

/// Whether `text` has a match of `pattern`
pub open spec fn regex_matches(pattern: Seq<char>, text: Seq<char>) -> bool {
    regex_captures_of(pattern, text) is Some
}

/// Whether `text` has a match of `pattern`
pub fn is_match(pattern: &str, text: &str) -> (b: bool)
    ensures
        b == regex_matches(pattern@, text@),
{
    regex_captures(pattern, text).is_some()
}

/// The text of a group, or nothing when the group does not exist or took no part in the match
pub open spec fn group_text(g: Seq<Option<Seq<char>>>, i: int) -> Seq<char> {
    if 0 <= i < g.len() {
        match g[i] {
            Some(t) => t,
            None => Seq::empty(),
        }
    } else {
        Seq::empty()
    }
}

/// The text of a group, or nothing when the group does not exist or took no part in the match
pub fn group(g: &Vec<Option<String>>, i: usize) -> (r: String)
    ensures
        r@ == group_text(groups_view(g@), i as int),
{
    if i < g.len() {
        match &g[i] {
            Some(t) => t.clone(),
            None => String::new(),
        }
    } else {
        String::new()
    }
}

} // verus!
