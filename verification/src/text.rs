//! Small building blocks for working with text as sequences of characters.
use vstd::prelude::*;
use vstd::string::*;

verus! {

/// Appends a character to a string.
///
/// Calls `String::push`, which appends the given character to the end of the string.
#[verifier::external_body]
pub fn push_char(s: &mut String, c: char)
    ensures
        final(s)@ == old(s)@.push(c),
{
    s.push(c)
}

/// Appends a string slice to a string
pub fn push_str(s: &mut String, t: &str)
    ensures
        final(s)@ == old(s)@ + t@,
{
    s.append(t);
}

/// The characters of a string slice, in order
pub fn chars_of(s: &str) -> (r: Vec<char>)
    ensures
        r@ == s@,
{
    let mut r: Vec<char> = Vec::new();
    for c in it: s.chars()
        invariant
            it.seq() == s@,
            r@ == s@.subrange(0, it.index() as int),
    {
        r.push(c);
    }
    r
}

/// A string made of the given characters
pub fn string_from_chars(v: &[char]) -> (r: String)
    ensures
        r@ == v@,
{
    let mut r = String::new();
    let mut i: usize = 0;
    while i < v.len()
        invariant
            i <= v.len(),
            r@ == v@.subrange(0, i as int),
        decreases v.len() - i,
    {
        push_char(&mut r, v[i]);
        i += 1;
    }
    r
}

/// Whether a character has the Unicode `White_Space` property: the tab, line feed, vertical tab,
/// form feed and carriage return, the space, next line, no-break space, Ogham space mark, the
/// spaces from en quad to hair space, the line and paragraph separators, the narrow no-break
/// space, the medium mathematical space and the ideographic space
pub open spec fn white_space(c: char) -> bool {
    let n = c as u32;
    ||| 0x9 <= n <= 0xD
    ||| n == 0x20
    ||| n == 0x85
    ||| n == 0xA0
    ||| n == 0x1680
    ||| 0x2000 <= n <= 0x200A
    ||| n == 0x2028
    ||| n == 0x2029
    ||| n == 0x202F
    ||| n == 0x205F
    ||| n == 0x3000
}

/// Whether a character is whitespace (has the Unicode `White_Space` property)
pub fn is_whitespace(c: char) -> (b: bool)
    ensures
        b == white_space(c),
        c == ' ' ==> b,
{
    let n = c as u32;
    (0x9 <= n && n <= 0xD) || n == 0x20 || n == 0x85 || n == 0xA0 || n == 0x1680 || (0x2000 <= n
        && n <= 0x200A) || n == 0x2028 || n == 0x2029 || n == 0x202F || n == 0x205F || n == 0x3000
}

/// Whether a character is in the ASCII range
pub open spec fn is_ascii_char(c: char) -> bool {
    (c as u32) < 128
}

/// The ASCII upper case of a character: `a` to `z` become `A` to `Z`, others stay
pub open spec fn ascii_upper(c: char) -> char {
    if 'a' <= c && c <= 'z' {
        ((c as u32) - 32) as char
    } else {
        c
    }
}

/// The ASCII lower case of a character: `A` to `Z` become `a` to `z`, others stay
pub open spec fn ascii_lower(c: char) -> char {
    if 'A' <= c && c <= 'Z' {
        ((c as u32) + 32) as char
    } else {
        c
    }
}

/// The ASCII upper case of a character: `a` to `z` become `A` to `Z`, every other character
/// stays
pub fn to_ascii_uppercase(c: char) -> (r: char)
    ensures
        r == ascii_upper(c),
{
    if 'a' <= c && c <= 'z' {
        let b = c as u8;
        ((b - 32) as char)
    } else {
        c
    }
}

/// The ASCII lower case of a character: `A` to `Z` become `a` to `z`, every other character
/// stays
pub fn to_ascii_lowercase(c: char) -> (r: char)
    ensures
        r == ascii_lower(c),
{
    if 'A' <= c && c <= 'Z' {
        let b = c as u8;
        ((b + 32) as char)
    } else {
        c
    }
}

/// The lowercase of a string, as `str::to_lowercase` gives it
pub uninterp spec fn unicode_lowercase(s: Seq<char>) -> Seq<char>;

/// The lowercase of a string.
///
/// Calls `str::to_lowercase`, which the standard library documents as lowercasing according to
/// the Unicode `Lowercase` property, not to a locale; the result is named `unicode_lowercase(s)`,
/// a function of the string alone. Nothing more is claimed of it.
#[verifier::external_body]
pub fn to_lowercase(s: &str) -> (r: String)
    ensures
        r@ == unicode_lowercase(s@),
{
    s.to_lowercase()
}

/// Whether a character is in the ASCII range
pub fn char_is_ascii(c: char) -> (b: bool)
    ensures
        b == is_ascii_char(c),
{
    (c as u32) < 128
}

/// The text written in double quotes with the escapes of Rust's debug output (`str`'s `Debug`)
pub uninterp spec fn debug_quoted(s: Seq<char>) -> Seq<char>;

/// Writes text as Rust's debug output does: in double quotes, with quotes, backslashes and
/// control characters escaped.
///
/// Calls `<str as Debug>::fmt` through `format!("{:?}", ..)`. The result is named
/// `debug_quoted(s)`: it depends on the text alone. Nothing more is claimed of it.
#[verifier::external_body]
pub fn debug_string(s: &str) -> (r: String)
    ensures
        r@ == debug_quoted(s@),
{
    format!("{:?}", s)
}

} // verus!
