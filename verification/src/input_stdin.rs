//! Strokes typed on the standard input, one per line.
use crate::base::stroke::Stroke;
use crate::text::{chars_of, is_whitespace, string_from_chars, white_space};
use vstd::prelude::*;

verus! {

/// Where the first character that is not whitespace is, from `i` on; the length when there is none
pub open spec fn first_non_space(s: Seq<char>, i: int) -> int
    decreases s.len() - i,
{
    if 0 <= i < s.len() && white_space(s[i]) {
        first_non_space(s, i + 1)
    } else {
        i
    }
}

/// Where the text ends once the whitespace at its end is dropped, going back from `j` but not
/// below `low`
pub open spec fn end_non_space(s: Seq<char>, low: int, j: int) -> int
    decreases j - low,
{
    if low < j <= s.len() && white_space(s[j - 1]) {
        end_non_space(s, low, j - 1)
    } else {
        j
    }
}

/// The text without the whitespace at its start and its end
pub open spec fn trimmed(s: Seq<char>) -> Seq<char> {
    let start = first_non_space(s, 0);
    s.subrange(start, end_non_space(s, start, s.len() as int))
}

proof fn lemma_first_non_space(s: Seq<char>, i: int)
    requires
        0 <= i <= s.len(),
    ensures
        i <= first_non_space(s, i) <= s.len(),
    decreases s.len() - i,
{
    if i < s.len() && white_space(s[i]) {
        lemma_first_non_space(s, i + 1);
    }
}

proof fn lemma_end_non_space(s: Seq<char>, low: int, j: int)
    requires
        0 <= low <= j <= s.len(),
    ensures
        low <= end_non_space(s, low, j) <= j,
    decreases j - low,
{
    if low < j && white_space(s[j - 1]) {
        lemma_end_non_space(s, low, j - 1);
    }
}

/// The text without the whitespace (as `char::is_whitespace` has it) at its start and its end
pub fn trim(s: &str) -> (r: String)
    ensures
        r@ == trimmed(s@),
{
    let chars = chars_of(s);
    let mut start: usize = 0;
    while start < chars.len() && is_whitespace(chars[start])
        invariant
            chars@ == s@,
            start <= chars.len(),
            first_non_space(s@, start as int) == first_non_space(s@, 0),
        decreases chars.len() - start,
    {
        start += 1;
    }
    let mut end: usize = chars.len();
    while end > start && is_whitespace(chars[end - 1])
        invariant
            chars@ == s@,
            start <= end <= chars.len(),
            start == first_non_space(s@, 0),
            end_non_space(s@, start as int, end as int) == end_non_space(
                s@,
                start as int,
                s@.len() as int,
            ),
        decreases end,
    {
        end -= 1;
    }
    string_from_chars(&chars.as_slice()[start..end])
}

/// Reads strokes typed on the standard input
pub struct StdinMachine {}

impl StdinMachine {
    pub fn new() -> Self {
        Self {  }
    }

    /// The stroke on a line of input, without surrounding whitespace; none when nothing else is
    /// on the line, and the user is to be asked again
    pub fn stroke_from_line(&self, line: &str) -> (r: Option<Stroke>)
        ensures
            match r {
                Some(stroke) => trimmed(line@).len() > 0 && stroke@ == trimmed(line@),
                None => trimmed(line@).len() == 0,
            },
    {
        let text = trim(line);
        let stroke = Stroke::new(text.as_str());
        if stroke.is_valid() {
            Some(stroke)
        } else {
            None
        }
    }
}

} // verus!
