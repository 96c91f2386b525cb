//! Loads the dictionary
//!
//! # File format
//! The dictionary file format is similar to the Plover dictionary. All dictionary entries must be
//! in the form of a key and value in a single JSON object. The key should be a valid stroke or
//! series of strokes joined by `/`. The value can consist of literal text with any formatting
//! actions (known as "special actions"), which are surrounded by brackets (`{like this}`), or of
//! an object with commands (`cmds`), the text that comes after them (`text_after`) and whether to
//! delete the space before them (`suppress_space_before`).
//!
//! ## Formatting actions
//! - `{^}` (or `{^^}`) attaches the next word; `{^ish}` attaches with orthography rules;
//!   `{^-to-^}` is an infix; `{in^}` a prefix
//! - `{&a}`: glued text, attached to other glued text
//! - `{-|}`: capitalize the next word; `{*-|}`: capitalize the previous word
//! - `{~|text}` carries the capitalization over the text
//! - `{.}`, `{?}`, `{!}`: punctuation attached to the previous word, capitalizing the next
//! - `{,}`, `{:}`, `{;}`: punctuation attached to the previous word
//! - `{*!}`: remove the space before the previous word
//! - `{bracketleft}`, `{bracketright}`: literal brackets
//! - `{}`: clears any pending capitalization or attachment
use crate::base::decode::{json_commands, read_commands};
use crate::base::stroke::Stroke;
use crate::json::{field, get_field, json_document, parse_json, Json, JsonV};
use crate::pattern::{
    group, group_text, groups_view, regex_captures, regex_captures_of, regex_matches,
};
use crate::standard::decode::{json_bool, json_null, json_texts, read_bool, read_null, read_texts};
use crate::standard::dictionary::{entries_map, entries_view, Dictionary};
use crate::standard::parser::{
    change_first_letter, last_word_start, lemma_first_word, lemma_last_word_start_bounds,
    lemma_render_all_push, render, render_all, start, NUMBERS_ONLY,
};
use crate::standard::types::{
    all_texts, texts_view, translation_texts, translations_view, StateAction, Text, TextAction, TextV, Translation,
    TranslationV,
};
use crate::text::{chars_of, debug_quoted, debug_string, push_str, string_from_chars, white_space};
use vstd::prelude::*;

verus! {

/// Why a dictionary could not be loaded
#[derive(Debug, PartialEq)]
pub enum ParseError {
    /// if the JSON file does not exclusively contain an object with entries
    NotEntries,
    InvalidStroke(String),
    UnknownTranslation(String),
    EmptyTranslation,
    InvalidTranslation(String),
    /// a special action is one that is wrapped in brackets in the translation
    InvalidSpecialAction(String),
    JsonError(String),
}

/// The value of a parse error
pub enum ParseErrorV {
    NotEntries,
    InvalidStroke(Seq<char>),
    UnknownTranslation(Seq<char>),
    EmptyTranslation,
    InvalidTranslation(Seq<char>),
    InvalidSpecialAction(Seq<char>),
    JsonError(Seq<char>),
}

impl View for ParseError {
    type V = ParseErrorV;

    open spec fn view(&self) -> ParseErrorV {
        match self {
            ParseError::NotEntries => ParseErrorV::NotEntries,
            ParseError::InvalidStroke(s) => ParseErrorV::InvalidStroke(s@),
            ParseError::UnknownTranslation(s) => ParseErrorV::UnknownTranslation(s@),
            ParseError::EmptyTranslation => ParseErrorV::EmptyTranslation,
            ParseError::InvalidTranslation(s) => ParseErrorV::InvalidTranslation(s@),
            ParseError::InvalidSpecialAction(s) => ParseErrorV::InvalidSpecialAction(s@),
            ParseError::JsonError(s) => ParseErrorV::JsonError(s@),
        }
    }
}

/// The error written out as Rust's debug output writes it: the variant's name, with its message
/// quoted in brackets
pub open spec fn error_text(e: ParseErrorV) -> Seq<char> {
    match e {
        ParseErrorV::NotEntries => "NotEntries"@,
        ParseErrorV::InvalidStroke(s) => "InvalidStroke"@ + "("@ + debug_quoted(s) + ")"@,
        ParseErrorV::UnknownTranslation(s) => "UnknownTranslation"@ + "("@ + debug_quoted(s) + ")"@,
        ParseErrorV::EmptyTranslation => "EmptyTranslation"@,
        ParseErrorV::InvalidTranslation(s) => "InvalidTranslation"@ + "("@ + debug_quoted(s) + ")"@,
        ParseErrorV::InvalidSpecialAction(s) => "InvalidSpecialAction"@ + "("@ + debug_quoted(s) + ")"@,
        ParseErrorV::JsonError(s) => "JsonError"@ + "("@ + debug_quoted(s) + ")"@,
    }
}

impl ParseError {
    /// The error written out as its variant's name, with its message in brackets
    pub fn to_string(&self) -> (r: String)
        ensures
            r@ == error_text(self@),
    {
        let (name, message) = match self {
            ParseError::NotEntries => ("NotEntries", None),
            ParseError::InvalidStroke(s) => ("InvalidStroke", Some(s.as_str())),
            ParseError::UnknownTranslation(s) => ("UnknownTranslation", Some(s.as_str())),
            ParseError::EmptyTranslation => ("EmptyTranslation", None),
            ParseError::InvalidTranslation(s) => ("InvalidTranslation", Some(s.as_str())),
            ParseError::InvalidSpecialAction(s) => ("InvalidSpecialAction", Some(s.as_str())),
            ParseError::JsonError(s) => ("JsonError", Some(s.as_str())),
        };
        let mut r = name.to_owned();
        if let Some(m) = message {
            push_str(&mut r, "(");
            let quoted = debug_string(m);
            push_str(&mut r, quoted.as_str());
            push_str(&mut r, ")");
        }
        assert(r@ =~= error_text(self@));
        r
    }
}

/// 1st capturing group: possible caret (^)
/// 2nd capturing group: possible text to apply orthography to
/// 3rd capturing group: possible caret (^)
pub const ATTACHED_REGEX: &'static str = "^(\\^?)([^\\^]*)(\\^?)$";

/// Whether the content of the special action starts with `~|`, to carry the capitalization
pub const CARRYING_CAP: &'static str = "^~\\|(.+)$";

/// A translation of a single text
pub open spec fn text_translation(t: TextV) -> TranslationV {
    TranslationV::Text(t)
}

/// Attached text
pub open spec fn attached(
    text: Seq<char>,
    joined_next: bool,
    do_orthography: Option<bool>,
    carry_capitalization: bool,
) -> TranslationV {
    TranslationV::Text(TextV::Attached { text, joined_next, do_orthography, carry_capitalization })
}

/// Whether a special action is punctuation: sentence-ending (`.`, `?`, `!`) or not (`,`, `:`,
/// `;`)
pub open spec fn is_punctuation(p: Seq<char>) -> bool {
    p == "."@ || p == "?"@ || p == "!"@ || p == ","@ || p == ":"@ || p == ";"@
}

/// Whether punctuation ends a sentence
pub open spec fn ends_sentence(p: Seq<char>) -> bool {
    p == "."@ || p == "?"@ || p == "!"@
}

/// The content of an attach operator, without a leading `~|`, and whether it had one
pub open spec fn carried(content: Seq<char>) -> (Seq<char>, bool) {
    match regex_captures_of(CARRYING_CAP@, content) {
        Some(g) => (group_text(g, 1), true),
        None => (content, false),
    }
}

/// What the attach operator gives, from the groups of its match
pub open spec fn attached_special(g: Seq<Option<Seq<char>>>) -> Option<Seq<TranslationV>> {
    let before = group_text(g, 1);
    let content = group_text(g, 2);
    let after = group_text(g, 3);
    if before == "^"@ {
        if content.len() == 0 {
            // nothing in the text section, just a simple suppress space stroke
            Some(seq![attached(Seq::empty(), true, Some(false), false)])
        } else {
            let (c, carry) = carried(content);
            Some(seq![attached(c, after == "^"@, Some(true), carry)])
        }
    } else if after == "^"@ {
        // caret at end is a prefix stroke
        let (c, carry) = carried(content);
        Some(seq![attached(c, true, None, carry)])
    } else {
        match regex_captures_of(CARRYING_CAP@, content) {
            Some(cg) => Some(seq![attached(group_text(cg, 1), false, None, true)]),
            None => None,
        }
    }
}

/// What a special action (the text between brackets) stands for.
///
/// The empty action `{}` cancels the formatting of the next word, as Plover's does: a pending
/// capital and a suppressed space are forgotten, so that after `{^^}` the entry `{}{-|}` puts a
/// space and a capital before the next word. `{*?}` puts a space before the previous word and
/// `{*!}` removes it; these work on the previous word, not the previous stroke
pub open spec fn parse_special_spec(t: Seq<char>) -> Result<Seq<TranslationV>, ParseErrorV> {
    if t.len() == 0 {
        Ok(seq![text_translation(TextV::StateAction(StateAction::Clear))])
    } else if t == "."@ || t == "?"@ || t == "!"@ {
        Ok(
            seq![
                attached(t, false, Some(false), false),
                text_translation(TextV::StateAction(StateAction::ForceCapitalize)),
            ],
        )
    } else if t == ","@ || t == ":"@ || t == ";"@ {
        Ok(seq![attached(t, false, Some(false), false)])
    } else if t == "-|"@ {
        Ok(seq![text_translation(TextV::StateAction(StateAction::ForceCapitalize))])
    } else if t == "*-|"@ {
        Ok(seq![text_translation(TextV::TextAction(TextAction::CapitalizePrev))])
    } else if t == "*!"@ {
        Ok(seq![text_translation(TextV::TextAction(TextAction::SuppressSpacePrev))])
    } else if t == "*?"@ {
        Ok(seq![text_translation(TextV::TextAction(TextAction::AddSpacePrev))])
    } else if t == "bracketleft"@ {
        Ok(seq![text_translation(TextV::Lit("{"@))])
    } else if t == "bracketright"@ {
        Ok(seq![text_translation(TextV::Lit("}"@))])
    } else {
        match match regex_captures_of(ATTACHED_REGEX@, t) {
            Some(g) => attached_special(g),
            None => None,
        } {
            Some(r) => Ok(r),
            None => if t.len() >= 2 && t[0] == '&' {
                Ok(seq![text_translation(TextV::Glued(t.skip(1)))])
            } else {
                Err(ParseErrorV::InvalidSpecialAction(t))
            },
        }
    }
}

fn attached_text(
    text: String,
    joined_next: bool,
    do_orthography: Option<bool>,
    carry_capitalization: bool,
) -> (r: Translation)
    ensures
        r@ == attached(text@, joined_next, do_orthography, carry_capitalization),
{
    Translation::Text(Text::Attached { text, joined_next, do_orthography, carry_capitalization })
}

fn carried_of(content: String) -> (r: (String, bool))
    ensures
        (r.0@, r.1) == carried(content@),
{
    match regex_captures(CARRYING_CAP, content.as_str()) {
        Some(g) => (group(&g, 1), true),
        None => (content, false),
    }
}

/// Parses "special actions" which are in the translation surrounded by brackets
pub fn parse_special(t: &str) -> (r: Result<Vec<Translation>, ParseError>)
    ensures
        match r {
            Ok(v) => parse_special_spec(t@) == Ok::<Seq<TranslationV>, ParseErrorV>(
                translations_view(v@),
            ),
            Err(e) => parse_special_spec(t@) == Err::<Seq<TranslationV>, ParseErrorV>(e@),
        },
{
    let v: Vec<Translation>;
    if t.is_empty() {
        // the empty action cancels the formatting of the next word: a capitalization or a
        // suppressed space in force is dropped
        v = vec![Translation::Text(Text::StateAction(StateAction::Clear))];
    } else if str_is(t, ".") || str_is(t, "?") || str_is(t, "!") {
        // punctuation that ends a sentence
        v = vec![
            attached_text(t.to_owned(), false, Some(false), false),
            Translation::Text(Text::StateAction(StateAction::ForceCapitalize)),
        ];
    } else if str_is(t, ",") || str_is(t, ":") || str_is(t, ";") {
        // punctuation attached to the previous word
        v = vec![attached_text(t.to_owned(), false, Some(false), false)];
    } else if str_is(t, "-|") {
        // capitalize next word
        v = vec![Translation::Text(Text::StateAction(StateAction::ForceCapitalize))];
    } else if str_is(t, "*-|") {
        // capitalize previous word
        v = vec![Translation::Text(Text::TextAction(TextAction::CapitalizePrev))];
    } else if str_is(t, "*!") {
        // remove space from prev word
        v = vec![Translation::Text(Text::TextAction(TextAction::SuppressSpacePrev))];
    } else if str_is(t, "*?") {
        // add space to prev word
        v = vec![Translation::Text(Text::TextAction(TextAction::AddSpacePrev))];
    } else if str_is(t, "bracketleft") {
        // insert literal bracket
        v = vec![Translation::Text(Text::Lit("{".to_owned()))];
    } else if str_is(t, "bracketright") {
        v = vec![Translation::Text(Text::Lit("}".to_owned()))];
    } else {
        // check for prefix/suffix action (attach operator)
        let matched = match regex_captures(ATTACHED_REGEX, t) {
            Some(g) => attached_special_of(&g),
            None => None,
        };
        match matched {
            Some(r) => {
                v = r;
            },
            None => {
                // check for glued operator
                let chars = chars_of(t);
                if chars.len() >= 2 && chars[0] == '&' {
                    let mut rest: Vec<char> = Vec::new();
                    let mut i: usize = 1;
                    while i < chars.len()
                        invariant
                            1 <= i <= chars.len(),
                            chars@ == t@,
                            rest@ == t@.subrange(1, i as int),
                        decreases chars.len() - i,
                    {
                        rest.push(chars[i]);
                        i += 1;
                        assert(rest@ =~= t@.subrange(1, i as int));
                    }
                    let rest = string_from_chars(rest.as_slice());
                    v = vec![Translation::Text(Text::Glued(rest))];
                } else {
                    return Err(ParseError::InvalidSpecialAction(t.to_owned()));
                }
            },
        }
    }
    assert(translations_view(v@) =~= parse_special_spec(t@)->Ok_0);
    Ok(v)
}

/// Whether two strings are equal
fn str_is(a: &str, b: &str) -> (r: bool)
    ensures
        r == (a@ == b@),
{
    a.to_owned() == b.to_owned()
}

fn attached_special_of(g: &Vec<Option<String>>) -> (r: Option<Vec<Translation>>)
    ensures
        match r {
            Some(v) => attached_special(groups_view(g@)) == Some(translations_view(v@)),
            None => attached_special(groups_view(g@)) is None,
        },
{
    let before = group(g, 1);
    let content = group(g, 2);
    let after = group(g, 3);
    let v: Vec<Translation>;
    if str_is(before.as_str(), "^") {
        if content.as_str().is_empty() {
            // nothing in the text section, just a simple suppress space stroke
            v = vec![attached_text(String::new(), true, Some(false), false)];
        } else {
            let joined_next = str_is(after.as_str(), "^");
            let (c, carry) = carried_of(content);
            v = vec![attached_text(c, joined_next, Some(true), carry)];
        }
    } else if str_is(after.as_str(), "^") {
        let (c, carry) = carried_of(content);
        v = vec![attached_text(c, true, None, carry)];
    } else {
        match regex_captures(CARRYING_CAP, content.as_str()) {
            Some(cg) => {
                v = vec![attached_text(group(&cg, 1), false, None, true)];
            },
            None => {
                return None;
            },
        }
    }
    assert(translations_view(v@) =~= attached_special(groups_view(g@))->Some_0);
    Some(v)
}

/// The state of reading a translation: the translations so far, where the current piece starts
/// and whether it is between brackets; or the error met
pub enum Scan {
    Reading { out: Seq<TranslationV>, start: int, in_brackets: bool },
    Failed(ParseErrorV),
}

/// Reading the character at `end`: an opening bracket ends a literal, a closing one ends a
/// special action
pub open spec fn scan_step(s: Scan, t: Seq<char>, end: int) -> Scan {
    match s {
        Scan::Failed(e) => Scan::Failed(e),
        Scan::Reading { out, start, in_brackets } => if t[end] == '{' {
            Scan::Reading {
                out: if start < end {
                    out.push(text_translation(TextV::Lit(t.subrange(start, end))))
                } else {
                    out
                },
                start: end + 1,
                in_brackets: true,
            }
        } else if t[end] == '}' {
            if !in_brackets {
                Scan::Failed(
                    ParseErrorV::InvalidTranslation(
                        "Unbalanced brackets: extra closing bracket(s)"@,
                    ),
                )
            } else {
                match parse_special_spec(t.subrange(start, end)) {
                    Ok(r) => Scan::Reading { out: out + r, start: end + 1, in_brackets: false },
                    Err(e) => Scan::Failed(e),
                }
            }
        } else {
            s
        },
    }
}

/// The state after reading the first `n` characters
pub open spec fn scan(t: Seq<char>, n: int) -> Scan
    decreases n,
{
    if n <= 0 {
        Scan::Reading { out: Seq::empty(), start: 0, in_brackets: false }
    } else {
        scan_step(scan(t, n - 1), t, n - 1)
    }
}

/// What the text of a dictionary entry stands for
pub open spec fn parse_translation_spec(t: Seq<char>) -> Result<Seq<TranslationV>, ParseErrorV> {
    if t.len() == 0 {
        Err(ParseErrorV::EmptyTranslation)
    } else {
        match scan(t, t.len() as int) {
            Scan::Failed(e) => Err(e),
            Scan::Reading { out, start, in_brackets } => if in_brackets {
                Err(
                    ParseErrorV::InvalidTranslation(
                        "Unbalanced brackets: extra opening bracket(s)"@,
                    ),
                )
            } else if start < t.len() {
                Ok(out.push(text_translation(TextV::Lit(t.skip(start)))))
            } else {
                Ok(out)
            },
        }
    }
}

proof fn lemma_scan_start(t: Seq<char>, n: int)
    requires
        0 <= n,
    ensures
        scan(t, n) matches Scan::Reading { start, .. } ==> 0 <= start <= n,
    decreases n,
{
    if n > 0 {
        lemma_scan_start(t, n - 1);
    }
}

proof fn lemma_scan_prefix(a: Seq<char>, b: Seq<char>, n: int)
    requires
        0 <= n <= a.len(),
    ensures
        scan(a + b, n) == scan(a, n),
    decreases n,
{
    if n > 0 {
        lemma_scan_prefix(a, b, n - 1);
        lemma_scan_start(a, n - 1);
        let e = n - 1;
        assert((a + b)[e] == a[e]);
        if let Scan::Reading { start, .. } = scan(a, n - 1) {
            assert((a + b).subrange(start, e) =~= a.subrange(start, e));
        }
    }
}

/// Whether reading `a` followed by `b` is, from some point on, reading `b` after translations
/// `before`
pub open spec fn scan_follows(ab: Scan, sb: Scan, before: Seq<TranslationV>, offset: int) -> bool {
    match sb {
        Scan::Failed(e) => ab == Scan::Failed(e),
        Scan::Reading { out, start, in_brackets } => ab == Scan::Reading {
            out: before + out,
            start: start + offset,
            in_brackets,
        },
    }
}

proof fn lemma_scan_suffix(a: Seq<char>, b: Seq<char>, before: Seq<TranslationV>, k: int, m: int)
    requires
        0 <= k <= m <= b.len(),
        scan_follows(scan(a + b, a.len() + k), scan(b, k), before, a.len() as int),
    ensures
        scan_follows(scan(a + b, a.len() + m), scan(b, m), before, a.len() as int),
    decreases m - k,
{
    if k < m {
        lemma_scan_suffix(a, b, before, k, m - 1);
        lemma_scan_start(b, m - 1);
        let e = m - 1;
        let ab = a + b;
        assert(ab[a.len() + e] == b[e]);
        assert(scan(ab, a.len() + m) == scan_step(scan(ab, a.len() + e), ab, a.len() + e));
        if let Scan::Reading { out, start, in_brackets } = scan(b, e) {
            assert(ab.subrange(start + a.len(), a.len() + e) =~= b.subrange(start, e));
            assert((before + out).push(text_translation(TextV::Lit(b.subrange(start, e))))
                =~= before + out.push(text_translation(TextV::Lit(b.subrange(start, e)))));
            if let Ok(r) = parse_special_spec(b.subrange(start, e)) {
                assert((before + out) + r =~= before + (out + r));
            }
        }
    }
}

/// Reading two entry texts one after the other gives the translations of the first followed by
/// those of the second, when the first ends with a special action or the second starts with one
pub proof fn lemma_parse_translation_concat(a: Seq<char>, b: Seq<char>)
    requires
        parse_translation_spec(a) is Ok,
        parse_translation_spec(b) is Ok,
        a.len() > 0 && a.last() == '}' || b.len() > 0 && b[0] == '{',
    ensures
        parse_translation_spec(a + b) == Ok::<Seq<TranslationV>, ParseErrorV>(
            parse_translation_spec(a)->Ok_0 + parse_translation_spec(b)->Ok_0,
        ),
{
    let ab = a + b;
    let x = parse_translation_spec(a)->Ok_0;
    let y = parse_translation_spec(b)->Ok_0;
    lemma_scan_prefix(a, b, a.len() as int);
    lemma_scan_start(a, a.len() as int);
    lemma_scan_start(b, b.len() as int);
    let sa = scan(a, a.len() as int);
    if a.len() > 0 && a.last() == '}' {
        lemma_scan_start(a, a.len() - 1);
        assert(a[a.len() - 1] == '}');
        assert(sa->start == a.len());
        assert(x == sa->out);
        assert(scan(b, 0) == Scan::Reading { out: Seq::empty(), start: 0, in_brackets: false });
        assert(sa->out + Seq::<TranslationV>::empty() =~= sa->out);
        lemma_scan_suffix(a, b, x, 0, b.len() as int);
    } else {
        assert(ab[a.len() as int] == b[0]);
        assert(scan(b, 1) == scan_step(scan(b, 0), b, 0));
        assert(scan(b, 1) == Scan::Reading { out: Seq::empty(), start: 1, in_brackets: true });
        assert(scan(ab, a.len() + 1int) == scan_step(scan(ab, a.len() as int), ab, a.len() as int));
        assert(ab.subrange(sa->start, a.len() as int) =~= a.skip(sa->start));
        assert(x + Seq::<TranslationV>::empty() =~= x);
        lemma_scan_suffix(a, b, x, 1, b.len() as int);
    }
    let sb = scan(b, b.len() as int);
    assert(ab.len() == a.len() + b.len());
    assert(ab.skip(sb->start + a.len()) =~= b.skip(sb->start));
    assert((x + sb->out).push(text_translation(TextV::Lit(b.skip(sb->start)))) =~= x + sb->out.push(
        text_translation(TextV::Lit(b.skip(sb->start))),
    ));
}

/// A word, then punctuation in brackets, then another word: the punctuation is typed right after
/// the first word, and the second word comes after a space; after a mark that ends a sentence
/// (`{.}`, `{?}`, `{!}`) the second word is capitalized, after the others (`{,}`, `{:}`, `{;}`)
/// it is typed as it is
pub proof fn lemma_punctuation_renders(p: Seq<char>, a: Seq<char>, w: Seq<char>)
    requires
        is_punctuation(p),
    ensures
        parse_special_spec(p) is Ok,
        render(
            seq![TextV::Lit(a)] + all_texts(parse_special_spec(p)->Ok_0, false) + seq![
                TextV::Lit(w),
            ],
            false,
        ) == seq![' '] + a + p + seq![' '] + if ends_sentence(p) {
            change_first_letter(w, true)
        } else {
            w
        },
{
    reveal_strlit(".");
    reveal_strlit("?");
    reveal_strlit("!");
    reveal_strlit(",");
    reveal_strlit(":");
    reveal_strlit(";");
    assert(p.len() == 1);
    let att = attached(p, false, Some(false), false);
    let fc = text_translation(TextV::StateAction(StateAction::ForceCapitalize));
    let att_text = TextV::Attached {
        text: p,
        joined_next: false,
        do_orthography: Some(false),
        carry_capitalization: false,
    };
    let fc_text = TextV::StateAction(StateAction::ForceCapitalize);
    let s0 = Seq::<TextV>::empty();
    let s1 = s0.push(TextV::Lit(a));
    let s2 = s1.push(att_text);
    lemma_render_all_push(s0, TextV::Lit(a), false);
    lemma_render_all_push(s1, att_text, false);
    assert(render_all(s0, false) == start());
    lemma_first_word(a);
    let r2 = render_all(s2, false);
    assert(r2.text =~= seq![' '] + a + p);
    assert(!r2.state.suppress_space && !r2.state.force_capitalize && !r2.state.prev_is_glued);
    if ends_sentence(p) {
        assert(parse_special_spec(p) == Ok::<Seq<TranslationV>, ParseErrorV>(seq![att, fc]));
        let ts = seq![att, fc];
        assert(ts.drop_last() =~= seq![att]);
        assert(seq![att].drop_last() =~= Seq::<TranslationV>::empty());
        assert(all_texts(seq![att], false) == all_texts(Seq::<TranslationV>::empty(), false)
            + translation_texts(att, false));
        assert(all_texts(seq![att], false) =~= seq![att_text]);
        assert(all_texts(ts, false) == all_texts(seq![att], false) + translation_texts(fc, false));
        assert(all_texts(ts, false) =~= seq![att_text, fc_text]);
        let s3 = s2.push(fc_text);
        let s4 = s3.push(TextV::Lit(w));
        assert(seq![TextV::Lit(a)] + all_texts(ts, false) + seq![TextV::Lit(w)] =~= s4);
        lemma_render_all_push(s2, fc_text, false);
        lemma_render_all_push(s3, TextV::Lit(w), false);
        let r4 = render_all(s4, false);
        assert(r4.text =~= seq![' '] + a + p + seq![' '] + change_first_letter(w, true));
    } else {
        assert(parse_special_spec(p) == Ok::<Seq<TranslationV>, ParseErrorV>(seq![att]));
        let ts = seq![att];
        assert(ts.drop_last() =~= Seq::<TranslationV>::empty());
        assert(all_texts(ts, false) == all_texts(Seq::<TranslationV>::empty(), false)
            + translation_texts(att, false));
        assert(all_texts(ts, false) =~= seq![att_text]);
        let s3 = s2.push(TextV::Lit(w));
        assert(seq![TextV::Lit(a)] + all_texts(ts, false) + seq![TextV::Lit(w)] =~= s3);
        lemma_render_all_push(s2, TextV::Lit(w), false);
        let r3 = render_all(s3, false);
        assert(r3.text =~= seq![' '] + a + p + seq![' '] + w);
    }
}

/// `{-|}` between two words capitalizes the second one and leaves the spacing alone (when the
/// first word is not a number, which would be glued to a number after it)
pub proof fn lemma_capitalize_next_renders(a: Seq<char>, w: Seq<char>)
    requires
        !regex_matches(NUMBERS_ONLY@, a),
    ensures
        render(
            seq![TextV::Lit(a)] + all_texts(parse_special_spec("-|"@)->Ok_0, false) + seq![
                TextV::Lit(w),
            ],
            false,
        ) == seq![' '] + a + seq![' '] + change_first_letter(w, true),
{
    reveal_strlit("-|");
    reveal_strlit(".");
    reveal_strlit("?");
    reveal_strlit("!");
    reveal_strlit(",");
    reveal_strlit(":");
    reveal_strlit(";");
    let fc = text_translation(TextV::StateAction(StateAction::ForceCapitalize));
    let fc_text = TextV::StateAction(StateAction::ForceCapitalize);
    assert(parse_special_spec("-|"@) == Ok::<Seq<TranslationV>, ParseErrorV>(seq![fc]));
    let ts = seq![fc];
    assert(ts.drop_last() =~= Seq::<TranslationV>::empty());
    assert(all_texts(ts, false) == all_texts(Seq::<TranslationV>::empty(), false)
        + translation_texts(fc, false));
    assert(all_texts(ts, false) =~= seq![fc_text]);
    let s0 = Seq::<TextV>::empty();
    let s1 = s0.push(TextV::Lit(a));
    let s2 = s1.push(fc_text);
    let s3 = s2.push(TextV::Lit(w));
    assert(seq![TextV::Lit(a)] + all_texts(ts, false) + seq![TextV::Lit(w)] =~= s3);
    lemma_render_all_push(s0, TextV::Lit(a), false);
    lemma_render_all_push(s1, fc_text, false);
    lemma_render_all_push(s2, TextV::Lit(w), false);
    assert(render_all(s0, false) == start());
    lemma_first_word(a);
    assert(!render_all(s1, false).state.prev_is_glued);
    assert(render_all(s2, false).state.force_capitalize);
    assert(!render_all(s2, false).state.prev_is_glued);
    assert(!render_all(s2, false).state.suppress_space);
    assert(render_all(s3, false).text =~= seq![' '] + a + seq![' '] + change_first_letter(w, true));
}

/// After a word with no whitespace in it, `{*-|}` capitalizes that word and `{*!}` removes the
/// space before it
pub proof fn lemma_previous_word_actions_render(a: Seq<char>)
    requires
        forall|k: int| 0 <= k < a.len() ==> !white_space(#[trigger] a[k]),
    ensures
        render(seq![TextV::Lit(a)] + all_texts(parse_special_spec("*-|"@)->Ok_0, false), false)
            == seq![' '] + change_first_letter(a, true),
        render(seq![TextV::Lit(a)] + all_texts(parse_special_spec("*!"@)->Ok_0, false), false)
            == a,
{
    reveal_strlit("*-|");
    reveal_strlit("*!");
    reveal_strlit("-|");
    reveal_strlit(".");
    reveal_strlit("?");
    reveal_strlit("!");
    reveal_strlit(",");
    reveal_strlit(":");
    reveal_strlit(";");
    let text = seq![' '] + a;
    lemma_last_word_start_bounds(text);
    let idx = last_word_start(text);
    assert(white_space(' '));
    if idx > 1 {
        assert(text[idx - 1] == a[idx - 2]);
    }
    if idx == 0 {
        assert(!white_space(text[0]));
    }
    assert(idx == 1);
    let s0 = Seq::<TextV>::empty();
    let s1 = s0.push(TextV::Lit(a));
    lemma_render_all_push(s0, TextV::Lit(a), false);
    assert(render_all(s0, false) == start());
    lemma_first_word(a);
    assert(render_all(s1, false).text == text);
    let cap = text_translation(TextV::TextAction(TextAction::CapitalizePrev));
    let cap_text = TextV::TextAction(TextAction::CapitalizePrev);
    assert(parse_special_spec("*-|"@) == Ok::<Seq<TranslationV>, ParseErrorV>(seq![cap]));
    assert(seq![cap].drop_last() =~= Seq::<TranslationV>::empty());
    assert(all_texts(seq![cap], false) == all_texts(Seq::<TranslationV>::empty(), false)
        + translation_texts(cap, false));
    assert(seq![TextV::Lit(a)] + all_texts(seq![cap], false) =~= s1.push(cap_text));
    lemma_render_all_push(s1, cap_text, false);
    assert(text.take(1) + change_first_letter(text.skip(1), true) =~= seq![' '] + change_first_letter(a, true)) by {
        assert(text.skip(1) =~= a);
    }
    let sup = text_translation(TextV::TextAction(TextAction::SuppressSpacePrev));
    let sup_text = TextV::TextAction(TextAction::SuppressSpacePrev);
    assert("*!"@[0] != "-|"@[0] && "*!"@[1] != "*-|"@[1] && "*!"@.len() == 2);
    assert("*!"@ != "-|"@ && "*!"@ != "*-|"@);
    assert(parse_special_spec("*!"@) == Ok::<Seq<TranslationV>, ParseErrorV>(seq![sup]));
    assert(seq![sup].drop_last() =~= Seq::<TranslationV>::empty());
    assert(all_texts(seq![sup], false) == all_texts(Seq::<TranslationV>::empty(), false)
        + translation_texts(sup, false));
    assert(seq![TextV::Lit(a)] + all_texts(seq![sup], false) =~= s1.push(sup_text));
    lemma_render_all_push(s1, sup_text, false);
    assert(text.remove(0) =~= a);
}

/// The characters of `v` from `from` up to `to`, as a string
fn substring(v: &Vec<char>, from: usize, to: usize) -> (r: String)
    requires
        from <= to <= v.len(),
    ensures
        r@ == v@.subrange(from as int, to as int),
{
    let mut r: Vec<char> = Vec::new();
    let mut i: usize = from;
    while i < to
        invariant
            from <= i <= to <= v.len(),
            r@ == v@.subrange(from as int, i as int),
        decreases to - i,
    {
        r.push(v[i]);
        i += 1;
        assert(r@ =~= v@.subrange(from as int, i as int));
    }
    string_from_chars(r.as_slice())
}

proof fn lemma_scan_failed(t: Seq<char>, k: int, n: int)
    requires
        0 <= k <= n,
        scan(t, k) is Failed,
    ensures
        scan(t, n) == scan(t, k),
    decreases n - k,
{
    if k < n {
        lemma_scan_failed(t, k, n - 1);
    }
}

/// Parses the text of a dictionary entry: text between brackets is a special action, the rest is
/// literal text
pub fn parse_translation(t: &str) -> (r: Result<Vec<Translation>, ParseError>)
    ensures
        match r {
            Ok(v) => parse_translation_spec(t@) == Ok::<Seq<TranslationV>, ParseErrorV>(
                translations_view(v@),
            ),
            Err(e) => parse_translation_spec(t@) == Err::<Seq<TranslationV>, ParseErrorV>(e@),
        },
{
    if t.is_empty() {
        return Err(ParseError::EmptyTranslation);
    }
    let chars = chars_of(t);
    let mut translations: Vec<Translation> = Vec::new();
    let mut start: usize = 0;
    let mut in_brackets = false;
    let mut end: usize = 0;
    assert(translations_view(translations@) =~= Seq::<TranslationV>::empty());
    // pass anything in brackets to parse_special and everything else to a text literal
    while end < chars.len()
        invariant
            end <= chars.len(),
            chars@ == t@,
            start <= end,
            scan(t@, end as int) == (Scan::Reading {
                out: translations_view(translations@),
                start: start as int,
                in_brackets,
            }),
        decreases chars.len() - end,
    {
        let c = chars[end];
        let ghost before = translations@;
        if c == '{' {
            if start < end {
                // if there's anything before the bracket, that should be a text literal
                let lit = substring(&chars, start, end);
                let item = Translation::Text(Text::Lit(lit));
                translations.push(item);
                assert(translations_view(translations@) =~= translations_view(before).push(item@));
            }
            start = end + 1;
            in_brackets = true;
        } else if c == '}' {
            if !in_brackets {
                proof {
                    reveal_strlit("Unbalanced brackets: extra closing bracket(s)");
                    lemma_scan_failed(t@, end + 1, t@.len() as int);
                }
                return Err(
                    ParseError::InvalidTranslation(
                        "Unbalanced brackets: extra closing bracket(s)".to_owned(),
                    ),
                );
            }
            let special = substring(&chars, start, end);
            match parse_special(special.as_str()) {
                Ok(mut more) => {
                    let ghost before = translations@;
                    let ghost added = more@;
                    translations.append(&mut more);
                    assert(translations_view(translations@) =~= translations_view(before)
                        + translations_view(added));
                },
                Err(e) => {
                    proof {
                        lemma_scan_failed(t@, end + 1, t@.len() as int);
                    }
                    return Err(e);
                },
            }
            start = end + 1;
            in_brackets = false;
        }
        end += 1;
    }
    if in_brackets {
        return Err(
            ParseError::InvalidTranslation(
                "Unbalanced brackets: extra opening bracket(s)".to_owned(),
            ),
        );
    } else if start < chars.len() {
        // if there's still more text, add that as well as a text literal
        let lit = substring(&chars, start, chars.len());
        assert(chars@.subrange(start as int, chars@.len() as int) =~= t@.skip(start as int));
        let ghost before = translations@;
        let item = Translation::Text(Text::Lit(lit));
        translations.push(item);
        assert(translations_view(translations@) =~= translations_view(before).push(item@));
    }
    Ok(translations)
}

/// What a command entry (an object) stands for: its `cmds`, the optional `text_after` and
/// `suppress_space_before` (false when missing)
pub open spec fn command_entry_spec(fields: Seq<(Seq<char>, Seq<char>)>) -> Result<
    Seq<TranslationV>,
    ParseErrorV,
> {
    match field(fields, "cmds"@) {
        None => Err(ParseErrorV::InvalidTranslation("cmds key not found"@)),
        Some(c) => match json_commands(c) {
            None => Err(ParseErrorV::JsonError("invalid commands"@)),
            Some(cmds) => match (
                match field(fields, "text_after"@) {
                    None => Some(None),
                    Some(a) => if json_null(a) {
                        Some(None)
                    } else {
                        match json_texts(a) {
                            Some(texts) => Some(Some(texts)),
                            None => None,
                        }
                    },
                },
                match field(fields, "suppress_space_before"@) {
                    None => Some(false),
                    Some(b) => json_bool(b),
                },
            ) {
                (None, _) => Err(ParseErrorV::JsonError("invalid text_after"@)),
                (_, None) => Err(ParseErrorV::JsonError("invalid suppress_space_before"@)),
                (Some(text_after), Some(suppress_space_before)) => Ok(
                    seq![TranslationV::Command { cmds, text_after, suppress_space_before }],
                ),
            },
        },
    }
}

fn command_entry(fields: &Vec<(String, String)>) -> (r: Result<Vec<Translation>, ParseError>)
    ensures
        match r {
            Ok(v) => command_entry_spec(fields@.map_values(|e: (String, String)| (e.0@, e.1@)))
                == Ok::<Seq<TranslationV>, ParseErrorV>(translations_view(v@)),
            Err(e) => command_entry_spec(fields@.map_values(|e: (String, String)| (e.0@, e.1@)))
                == Err::<Seq<TranslationV>, ParseErrorV>(e@),
        },
{
    let cmds_text = match get_field(fields, "cmds") {
        Some(c) => c,
        None => {
            return Err(ParseError::InvalidTranslation("cmds key not found".to_owned()));
        },
    };
    let cmds = match read_commands(cmds_text.as_str()) {
        Some(c) => c,
        None => {
            return Err(ParseError::JsonError("invalid commands".to_owned()));
        },
    };
    let text_after: Option<Option<Vec<Text>>> = match get_field(fields, "text_after") {
        None => Some(None),
        Some(a) => {
            if read_null(a.as_str()) {
                Some(None)
            } else {
                match read_texts(a.as_str()) {
                    Some(texts) => Some(Some(texts)),
                    None => None,
                }
            }
        },
    };
    let suppress: Option<bool> = match get_field(fields, "suppress_space_before") {
        None => Some(false),
        Some(b) => read_bool(b.as_str()),
    };
    match (text_after, suppress) {
        (None, _) => Err(ParseError::JsonError("invalid text_after".to_owned())),
        (_, None) => Err(ParseError::JsonError("invalid suppress_space_before".to_owned())),
        (Some(text_after), Some(suppress_space_before)) => {
            let v = vec![Translation::Command { cmds, text_after, suppress_space_before }];
            assert(translations_view(v@) =~= command_entry_spec(
                fields@.map_values(|e: (String, String)| (e.0@, e.1@)),
            )->Ok_0);
            Ok(v)
        },
    }
}

/// What an entry of the dictionary stands for: its stroke must not be empty; its value is either
/// the text of a translation or a command entry
pub open spec fn load_entry_spec(entry: (Seq<char>, Seq<char>)) -> Result<
    (Seq<char>, Seq<TranslationV>),
    ParseErrorV,
> {
    let (stroke, value) = entry;
    if stroke.len() == 0 {
        Err(ParseErrorV::InvalidStroke(stroke))
    } else {
        match json_document(value) {
            Ok(JsonV::Str(s)) => match parse_translation_spec(s) {
                Ok(r) => Ok((stroke, r)),
                Err(e) => Err(e),
            },
            Ok(JsonV::Object(o)) => match command_entry_spec(o) {
                Ok(r) => Ok((stroke, r)),
                Err(e) => Err(e),
            },
            Ok(_) => Err(ParseErrorV::UnknownTranslation(value)),
            Err(m) => Err(ParseErrorV::JsonError(m)),
        }
    }
}

/// The entries, in order; the first error met
pub open spec fn load_entries_spec(entries: Seq<(Seq<char>, Seq<char>)>) -> Result<
    Seq<(Seq<char>, Seq<TranslationV>)>,
    ParseErrorV,
>
    decreases entries.len(),
{
    if entries.len() == 0 {
        Ok(Seq::empty())
    } else {
        match load_entries_spec(entries.drop_last()) {
            Err(e) => Err(e),
            Ok(a) => match load_entry_spec(entries.last()) {
                Ok(x) => Ok(a.push(x)),
                Err(e) => Err(e),
            },
        }
    }
}

/// The entries of a dictionary file: it must hold a JSON object
pub open spec fn load_spec(contents: Seq<char>) -> Result<
    Seq<(Seq<char>, Seq<TranslationV>)>,
    ParseErrorV,
> {
    match json_document(contents) {
        Err(m) => Err(ParseErrorV::JsonError(m)),
        Ok(JsonV::Object(entries)) => load_entries_spec(entries),
        Ok(_) => Err(ParseErrorV::NotEntries),
    }
}

proof fn lemma_entries_failed(entries: Seq<(Seq<char>, Seq<char>)>, k: int)
    requires
        0 <= k <= entries.len(),
        load_entries_spec(entries.take(k)) is Err,
    ensures
        load_entries_spec(entries) == load_entries_spec(entries.take(k)),
    decreases entries.len() - k,
{
    if k < entries.len() {
        assert(entries.take(k + 1).drop_last() =~= entries.take(k));
        lemma_entries_failed(entries, k + 1);
    } else {
        assert(entries.take(k) =~= entries);
    }
}

/// Parses a dictionary file into a list of the stroke and translation entries
pub fn load_dicts(contents: &str) -> (r: Result<Vec<(Stroke, Vec<Translation>)>, ParseError>)
    ensures
        match r {
            Ok(v) => load_spec(contents@) == Ok::<Seq<(Seq<char>, Seq<TranslationV>)>, ParseErrorV>(
                entries_view(v@),
            ),
            Err(e) => load_spec(contents@) == Err::<Seq<(Seq<char>, Seq<TranslationV>)>, ParseErrorV>(
                e@,
            ),
        },
{
    let object_entries = match parse_json(contents) {
        Err(m) => {
            return Err(ParseError::JsonError(m));
        },
        Ok(Json::Object(o)) => o,
        Ok(_) => {
            return Err(ParseError::NotEntries);
        },
    };
    let ghost all = object_entries@.map_values(|e: (String, String)| (e.0@, e.1@));
    let mut result_entries: Vec<(Stroke, Vec<Translation>)> = Vec::new();
    let mut i: usize = 0;
    assert(all.take(0) =~= Seq::<(Seq<char>, Seq<char>)>::empty());
    assert(entries_view(result_entries@) =~= Seq::<(Seq<char>, Seq<TranslationV>)>::empty());
    while i < object_entries.len()
        invariant
            i <= object_entries.len(),
            all == object_entries@.map_values(|e: (String, String)| (e.0@, e.1@)),
            json_document(contents@) == Ok::<JsonV, Seq<char>>(JsonV::Object(all)),
            load_entries_spec(all.take(i as int)) == Ok::<
                Seq<(Seq<char>, Seq<TranslationV>)>,
                ParseErrorV,
            >(entries_view(result_entries@)),
        decreases object_entries.len() - i,
    {
        assert(all.take(i + 1).drop_last() =~= all.take(i as int));
        assert(all.take(i + 1).last() == (object_entries@[i as int].0@, object_entries@[i as int].1@));
        let stroke_text = object_entries[i].0.as_str();
        let value = object_entries[i].1.as_str();
        let stroke = Stroke::new(stroke_text);
        if !stroke.is_valid() {
            proof {
                lemma_entries_failed(all, i + 1);
            }
            return Err(ParseError::InvalidStroke(stroke_text.to_owned()));
        }
        let parsed = match parse_json(value) {
            Ok(Json::Str(s)) => parse_translation(s.as_str()),
            Ok(Json::Object(o)) => command_entry(&o),
            Ok(_) => Err(ParseError::UnknownTranslation(value.to_owned())),
            Err(m) => Err(ParseError::JsonError(m)),
        };
        match parsed {
            Ok(translations) => {
                let ghost before = result_entries@;
                let ghost entry = (stroke@, translations_view(translations@));
                result_entries.push((stroke, translations));
                assert(entries_view(result_entries@) =~= entries_view(before).push(entry));
            },
            Err(e) => {
                proof {
                    lemma_entries_failed(all, i + 1);
                }
                return Err(e);
            },
        }
        i += 1;
    }
    assert(all.take(i as int) =~= all);
    Ok(result_entries)
}

/// The dictionary the files make, in order; the first error met
pub open spec fn dictionaries_spec(raw: Seq<Seq<char>>) -> Result<
    Map<Seq<char>, Seq<TranslationV>>,
    ParseErrorV,
>
    decreases raw.len(),
{
    if raw.len() == 0 {
        Ok(Map::empty())
    } else {
        match dictionaries_spec(raw.drop_last()) {
            Err(e) => Err(e),
            Ok(m) => match load_spec(raw.last()) {
                Err(e) => Err(e),
                Ok(entries) => Ok(m.union_prefer_right(entries_map(entries))),
            },
        }
    }
}

proof fn lemma_dictionaries_failed(raw: Seq<Seq<char>>, k: int)
    requires
        0 <= k <= raw.len(),
        dictionaries_spec(raw.take(k)) is Err,
    ensures
        dictionaries_spec(raw) == dictionaries_spec(raw.take(k)),
    decreases raw.len() - k,
{
    if k < raw.len() {
        assert(raw.take(k + 1).drop_last() =~= raw.take(k));
        lemma_dictionaries_failed(raw, k + 1);
    } else {
        assert(raw.take(k) =~= raw);
    }
}

/// Of the dictionaries that load, an entry of a later one overrides an entry of an earlier one
/// for the same stroke
pub proof fn lemma_later_dictionary_overrides(raw: Seq<Seq<char>>, i: int, stroke: Seq<char>)
    requires
        dictionaries_spec(raw) is Ok,
        0 <= i < raw.len(),
        load_spec(raw[i]) is Ok,
        entries_map(load_spec(raw[i])->Ok_0).contains_key(stroke),
        forall|j: int|
            i < j < raw.len() ==> !(#[trigger] entries_map(load_spec(raw[j])->Ok_0)).contains_key(
                stroke,
            ),
    ensures
        dictionaries_spec(raw)->Ok_0.contains_key(stroke),
        dictionaries_spec(raw)->Ok_0[stroke] == entries_map(load_spec(raw[i])->Ok_0)[stroke],
    decreases raw.len(),
{
    let last = raw.len() - 1;
    let rest = raw.drop_last();
    if i < last {
        assert(!entries_map(load_spec(raw[last])->Ok_0).contains_key(stroke));
        assert forall|j: int| i < j < rest.len() implies !(#[trigger] entries_map(
            load_spec(rest[j])->Ok_0,
        )).contains_key(stroke) by {
            assert(rest[j] == raw[j]);
        }
        assert(rest[i] == raw[i]);
        lemma_later_dictionary_overrides(rest, i, stroke);
    }
}

/// The raw strings of a list
pub open spec fn raw_view(v: Seq<String>) -> Seq<Seq<char>> {
    v.map_values(|s: String| s@)
}

impl Dictionary {
    /// Loads the dictionaries from the raw string of one or more dictionary files. The
    /// dictionaries further down in the list override the earlier ones
    pub fn new(raw_dicts: Vec<String>) -> (r: Result<Self, ParseError>)
        ensures
            match r {
                Ok(d) => dictionaries_spec(raw_view(raw_dicts@)) == Ok::<
                    Map<Seq<char>, Seq<TranslationV>>,
                    ParseErrorV,
                >(d@),
                Err(e) => dictionaries_spec(raw_view(raw_dicts@)) == Err::<
                    Map<Seq<char>, Seq<TranslationV>>,
                    ParseErrorV,
                >(e@),
            },
    {
        let ghost all = raw_view(raw_dicts@);
        let mut d = Dictionary::empty();
        let mut i: usize = 0;
        while i < raw_dicts.len()
            invariant
                i <= raw_dicts.len(),
                all == raw_view(raw_dicts@),
                dictionaries_spec(all.take(i as int)) == Ok::<
                    Map<Seq<char>, Seq<TranslationV>>,
                    ParseErrorV,
                >(d@),
            decreases raw_dicts.len() - i,
        {
            assert(all.take(i + 1).drop_last() =~= all.take(i as int));
            assert(all.take(i + 1).last() == raw_dicts@[i as int]@);
            match load_dicts(raw_dicts[i].as_str()) {
                Ok(entries) => {
                    d.extend(entries);
                },
                Err(e) => {
                    proof {
                        lemma_dictionaries_failed(all, i + 1);
                    }
                    return Err(e);
                },
            }
            i += 1;
        }
        assert(all.take(i as int) =~= all);
        Ok(d)
    }
}

} // verus!
