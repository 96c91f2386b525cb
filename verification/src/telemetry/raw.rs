//! Lines of the raw stroke log: the time of the stroke, the stroke, and the commands it produced,
//! read into log entries.
use crate::pattern::{group_text, groups_view, regex_captures, regex_captures_of};
use crate::telemetry::{Content, LogEntry};
use crate::text::{chars_of, string_from_chars};
use vstd::prelude::*;

verus! {

/// Why a raw log line could not be read
#[derive(Debug, Clone, Copy, PartialEq, Eq, Structural)]
pub enum RawError {
    RegexDoesNotMatch,
    NoTimeString,
    /// The time is not a date and time with an offset (RFC 3339)
    BadTime,
    NoStroke,
    /// no Replace, Command, or NoOp
    NoPayload,
    /// The number of backspaces does not fit in 32 bits
    BadNumber,
}

impl RawError {
    /// The name of the error
    pub fn to_string(&self) -> (r: String)
        ensures
            r@ == raw_error_name(*self),
    {
        match self {
            RawError::RegexDoesNotMatch => "RegexDoesNotMatch",
            RawError::NoTimeString => "NoTimeString",
            RawError::BadTime => "BadTime",
            RawError::NoStroke => "NoStroke",
            RawError::NoPayload => "NoPayload",
            RawError::BadNumber => "BadNumber",
        }.to_owned()
    }
}

/// The name of an error
pub open spec fn raw_error_name(e: RawError) -> Seq<char> {
    match e {
        RawError::RegexDoesNotMatch => "RegexDoesNotMatch"@,
        RawError::NoTimeString => "NoTimeString"@,
        RawError::BadTime => "BadTime"@,
        RawError::NoStroke => "NoStroke"@,
        RawError::NoPayload => "NoPayload"@,
        RawError::BadNumber => "BadNumber"@,
    }
}

/// A log line: the time, the stroke in quotes, and what the stroke produced
pub const LINE_PATTERN: &'static str = "^([^ ]+) Stroke\\(\"([^\"]+)\"\\) => (.+)$";

/// What a stroke that only replaced text produced
pub const TEXT_PATTERN: &'static str = "^\\[Replace\\((\\d+), \"(.*)\"\\)\\]$";

/// What a stroke that did nothing produced
pub const NO_OP: &'static str = "[NoOp]";

/// The value of what a stroke did
pub enum ContentV {
    Replace(u32, Seq<char>),
    Command,
    NoOp,
}

/// The value of what a stroke did
pub open spec fn content_view(c: Content) -> ContentV {
    match c {
        Content::Replace { backspace_num, text } => ContentV::Replace(backspace_num, text@),
        Content::Command => ContentV::Command,
        Content::NoOp => ContentV::NoOp,
    }
}

/// Whether a character is an ASCII digit
pub open spec fn is_digit(c: char) -> bool {
    '0' <= c <= '9'
}

/// The number that decimal digits stand for
pub open spec fn digits_value(s: Seq<char>) -> int
    decreases s.len(),
{
    if s.len() == 0 {
        0
    } else {
        digits_value(s.drop_last()) * 10 + (s.last() as int - '0' as int)
    }
}

/// The number a text of ASCII digits stands for, if it is one and fits in 32 bits
pub open spec fn decimal_u32(s: Seq<char>) -> Option<u32> {
    if s.len() > 0 && (forall|i: int| 0 <= i < s.len() ==> is_digit(#[trigger] s[i]))
        && digits_value(s) <= u32::MAX {
        Some(digits_value(s) as u32)
    } else {
        None
    }
}

proof fn lemma_digits_value_nonneg(s: Seq<char>)
    requires
        forall|i: int| 0 <= i < s.len() ==> is_digit(#[trigger] s[i]),
    ensures
        digits_value(s) >= 0,
    decreases s.len(),
{
    if s.len() > 0 {
        lemma_digits_value_nonneg(s.drop_last());
    }
}

/// Reads a number of ASCII digits that fits in 32 bits
pub fn parse_decimal_u32(s: &str) -> (r: Option<u32>)
    ensures
        r == decimal_u32(s@),
{
    let chars = chars_of(s);
    if chars.len() == 0 {
        return None;
    }
    let mut value: u64 = 0;
    let mut overflow = false;
    let mut i: usize = 0;
    while i < chars.len()
        invariant
            chars@ == s@,
            i <= chars.len(),
            forall|j: int| 0 <= j < i ==> is_digit(#[trigger] chars@[j]),
            overflow == (digits_value(chars@.take(i as int)) > u32::MAX),
            !overflow ==> value == digits_value(chars@.take(i as int)),
        decreases chars.len() - i,
    {
        let c = chars[i];
        if !('0' <= c && c <= '9') {
            return None;
        }
        proof {
            assert(chars@.take(i + 1).drop_last() =~= chars@.take(i as int));
            lemma_digits_value_nonneg(chars@.take(i as int));
        }
        if !overflow {
            let d = (c as u32 - '0' as u32) as u64;
            value = value * 10 + d;
            if value > 0xffff_ffff {
                overflow = true;
            }
        }
        i += 1;
    }
    assert(chars@.take(i as int) =~= chars@);
    if overflow {
        None
    } else {
        Some(value as u32)
    }
}

/// The text with each pair of characters `a`, `b` replaced by `to`, looking for pairs from the
/// start on and not inside a replaced pair
pub open spec fn replace_pair(s: Seq<char>, a: char, b: char, to: char) -> Seq<char>
    decreases s.len(),
{
    if s.len() == 0 {
        s
    } else if s.len() >= 2 && s[0] == a && s[1] == b {
        seq![to] + replace_pair(s.skip(2), a, b, to)
    } else {
        seq![s[0]] + replace_pair(s.skip(1), a, b, to)
    }
}

fn replace_pair_exec(s: &Vec<char>, a: char, b: char, to: char) -> (r: Vec<char>)
    ensures
        r@ == replace_pair(s@, a, b, to),
{
    let mut r: Vec<char> = Vec::new();
    let mut i: usize = 0;
    assert(s@.skip(0) =~= s@);
    assert(r@ + replace_pair(s@, a, b, to) =~= replace_pair(s@, a, b, to));
    while i < s.len()
        invariant
            i <= s.len(),
            r@ + replace_pair(s@.skip(i as int), a, b, to) == replace_pair(s@, a, b, to),
        decreases s.len() - i,
    {
        let ghost rest = s@.skip(i as int);
        if i + 1 < s.len() && s[i] == a && s[i + 1] == b {
            r.push(to);
            assert(rest.skip(2) =~= s@.skip(i + 2));
            assert(r@ + replace_pair(s@.skip(i + 2), a, b, to) =~= replace_pair(s@, a, b, to));
            i += 2;
        } else {
            r.push(s[i]);
            assert(rest.skip(1) =~= s@.skip(i + 1));
            assert(r@ + replace_pair(s@.skip(i + 1), a, b, to) =~= replace_pair(s@, a, b, to));
            i += 1;
        }
    }
    assert(s@.skip(i as int) =~= Seq::<char>::empty());
    assert(r@ + Seq::<char>::empty() =~= r@);
    r
}

/// The logged text with its escaped quotes unescaped: `\"` becomes `"`, then `\'` becomes `'`
pub open spec fn unescape_spec(s: Seq<char>) -> Seq<char> {
    replace_pair(replace_pair(s, '\\', '"', '"'), '\\', '\'', '\'')
}

/// Unescapes the quotes of logged text
pub fn unescape(s: &str) -> (r: String)
    ensures
        r@ == unescape_spec(s@),
{
    let chars = chars_of(s);
    let once = replace_pair_exec(&chars, '\\', '"', '"');
    let twice = replace_pair_exec(&once, '\\', '\'', '\'');
    string_from_chars(twice.as_slice())
}

/// What a stroke did, from the text after the arrow and the match of `TEXT_PATTERN` on it: text
/// replaced (the number of backspaces must fit in 32 bits), nothing, or else a command
pub open spec fn payload_spec(payload: Seq<char>, groups: Option<Seq<Option<Seq<char>>>>) -> Result<
    ContentV,
    RawError,
> {
    match groups {
        Some(g) => if g.len() <= 1 || g[1] is None {
            Err(RawError::NoPayload)
        } else {
            match decimal_u32(g[1]->Some_0) {
                None => Err(RawError::BadNumber),
                Some(n) => if g.len() <= 2 || g[2] is None {
                    Err(RawError::NoPayload)
                } else {
                    Ok(ContentV::Replace(n, unescape_spec(g[2]->Some_0)))
                },
            }
        },
        None => if payload == NO_OP@ {
            Ok(ContentV::NoOp)
        } else {
            Ok(ContentV::Command)
        },
    }
}

/// What a stroke did, from what it produced and the match of `TEXT_PATTERN` on that
pub fn content_from_groups(payload: &str, groups: Option<Vec<Option<String>>>) -> (r: Result<
    Content,
    RawError,
>)
    ensures
        match r {
            Ok(c) => payload_spec(
                payload@,
                match groups {
                    Some(g) => Some(groups_view(g@)),
                    None => None,
                },
            ) == Ok::<ContentV, RawError>(content_view(c)),
            Err(e) => payload_spec(
                payload@,
                match groups {
                    Some(g) => Some(groups_view(g@)),
                    None => None,
                },
            ) == Err::<ContentV, RawError>(e),
        },
{
    match groups {
        Some(g) => {
            let ghost gv = groups_view(g@);
            if g.len() <= 1 {
                return Err(RawError::NoPayload);
            }
            let backspace_num = match &g[1] {
                Some(n) => {
                    assert(gv[1] == Some(n@));
                    match parse_decimal_u32(n.as_str()) {
                        Some(v) => v,
                        None => {
                            return Err(RawError::BadNumber);
                        },
                    }
                },
                None => {
                    assert(gv[1] is None);
                    return Err(RawError::NoPayload);
                },
            };
            if g.len() <= 2 {
                return Err(RawError::NoPayload);
            }
            match &g[2] {
                Some(t) => {
                    assert(gv[2] == Some(t@));
                    // unescape the quotes
                    let text = unescape(t.as_str());
                    Ok(Content::Replace { backspace_num, text })
                },
                None => {
                    assert(gv[2] is None);
                    Err(RawError::NoPayload)
                },
            }
        },
        None => {
            proof {
                reveal_strlit("[NoOp]");
            }
            if crate::base::decode::str_eq(payload, NO_OP) {
                Ok(Content::NoOp)
            } else {
                // anything besides text and noop is regarded as a command
                Ok(Content::Command)
            }
        },
    }
}

/// What a stroke did, from what it produced
pub fn parse_payload(payload: &str) -> (r: Result<Content, RawError>)
    ensures
        match r {
            Ok(c) => payload_spec(payload@, regex_captures_of(TEXT_PATTERN@, payload@)) == Ok::<
                ContentV,
                RawError,
            >(content_view(c)),
            Err(e) => payload_spec(payload@, regex_captures_of(TEXT_PATTERN@, payload@)) == Err::<
                ContentV,
                RawError,
            >(e),
        },
{
    let groups = regex_captures(TEXT_PATTERN, payload);
    content_from_groups(payload, groups)
}

/// The milliseconds since the Unix epoch of a date and time with an offset (RFC 3339, with a space
/// also taken between date and time), as `chrono` reads it, if it reads it
pub uninterp spec fn rfc3339_millis(text: Seq<char>) -> Option<i64>;

/// Reads a date and time with an offset.
///
/// Calls `str::parse::<chrono::DateTime<chrono::Utc>>` (which reads the text as a
/// `DateTime<FixedOffset>` and converts it to UTC) and then `DateTime::timestamp_millis`. The
/// result is named `rfc3339_millis(text)`: it depends on the text alone. Nothing is claimed of
/// which texts are read.
#[verifier::external_body]
fn parse_time_millis(text: &str) -> (r: Option<i64>)
    ensures
        r == rfc3339_millis(text@),
{
    match text.parse::<chrono::DateTime<chrono::Utc>>() {
        Ok(t) => Some(t.timestamp_millis()),
        Err(_) => None,
    }
}

/// The value of a log entry: time, stroke and what the stroke did
pub open spec fn entry_view(e: LogEntry) -> (i64, Seq<char>, ContentV) {
    (e.time, e.stroke@, content_view(e.content))
}

/// A log entry from the match of `LINE_PATTERN` on a line (time, stroke and payload groups), the
/// time read from the first group, and what was read from the payload; the first missing part
/// is the error
pub open spec fn entry_spec(
    g: Seq<Option<Seq<char>>>,
    time: Option<i64>,
    content: Result<ContentV, RawError>,
) -> Result<(i64, Seq<char>, ContentV), RawError> {
    if g.len() <= 1 || g[1] is None {
        Err(RawError::NoTimeString)
    } else if time is None {
        Err(RawError::BadTime)
    } else if g.len() <= 2 || g[2] is None {
        Err(RawError::NoStroke)
    } else if g.len() <= 3 || g[3] is None {
        Err(RawError::NoPayload)
    } else {
        match content {
            Ok(c) => Ok((time->Some_0, g[2]->Some_0, c)),
            Err(e) => Err(e),
        }
    }
}

/// What reading a raw log line gives: the line must match `LINE_PATTERN`; its time is read by
/// `chrono` and its payload as `payload_spec` says
pub open spec fn raw_spec(raw: Seq<char>) -> Result<(i64, Seq<char>, ContentV), RawError> {
    match regex_captures_of(LINE_PATTERN@, raw) {
        None => Err(RawError::RegexDoesNotMatch),
        Some(g) => entry_spec(
            g,
            rfc3339_millis(group_text(g, 1)),
            payload_spec(group_text(g, 3), regex_captures_of(TEXT_PATTERN@, group_text(g, 3))),
        ),
    }
}

/// A log entry from the groups of a line, the time read from its first group, and what was read
/// from its payload
pub fn entry_from_groups(
    g: Vec<Option<String>>,
    time: Option<i64>,
    content: Result<Content, RawError>,
) -> (r: Result<LogEntry, RawError>)
    ensures
        match r {
            Ok(e) => entry_spec(
                groups_view(g@),
                time,
                match content {
                    Ok(c) => Ok(content_view(c)),
                    Err(x) => Err(x),
                },
            ) == Ok::<(i64, Seq<char>, ContentV), RawError>(entry_view(e)),
            Err(x) => entry_spec(
                groups_view(g@),
                time,
                match content {
                    Ok(c) => Ok(content_view(c)),
                    Err(x) => Err(x),
                },
            ) == Err::<(i64, Seq<char>, ContentV), RawError>(x),
        },
{
    let ghost gv = groups_view(g@);
    if g.len() <= 1 || g[1].is_none() {
        proof {
            if g.len() > 1 {
                assert(gv[1] is None);
            }
        }
        return Err(RawError::NoTimeString);
    }
    assert(gv[1] is Some);
    let time = match time {
        Some(t) => t,
        None => {
            return Err(RawError::BadTime);
        },
    };
    if g.len() <= 2 {
        return Err(RawError::NoStroke);
    }
    let stroke = match &g[2] {
        Some(s) => {
            assert(gv[2] == Some(s@));
            s.clone()
        },
        None => {
            assert(gv[2] is None);
            return Err(RawError::NoStroke);
        },
    };
    if g.len() <= 3 || g[3].is_none() {
        proof {
            if g.len() > 3 {
                assert(gv[3] is None);
            }
        }
        return Err(RawError::NoPayload);
    }
    assert(gv[3] is Some);
    match content {
        Ok(content) => Ok(LogEntry { time, stroke, content }),
        Err(e) => Err(e),
    }
}

/// Parse a raw line from a log file into a common data format
pub fn parse_raw(raw: &str) -> (r: Result<LogEntry, RawError>)
    ensures
        match r {
            Ok(e) => raw_spec(raw@) == Ok::<(i64, Seq<char>, ContentV), RawError>(entry_view(e)),
            Err(x) => raw_spec(raw@) == Err::<(i64, Seq<char>, ContentV), RawError>(x),
        },
{
    let g = match regex_captures(LINE_PATTERN, raw) {
        Some(g) => g,
        None => {
            return Err(RawError::RegexDoesNotMatch);
        },
    };
    let ghost gv = groups_view(g@);
    let time_text = crate::pattern::group(&g, 1);
    let time = parse_time_millis(time_text.as_str());
    let payload = crate::pattern::group(&g, 3);
    let content = parse_payload(payload.as_str());
    entry_from_groups(g, time, content)
}

} // verus!
