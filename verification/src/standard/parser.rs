//! Converts texts into the string they type: spaces go between words, state actions change how
//! the next word is put, text actions change what was already typed.
use crate::orthography::{merge, merge_spec};
use crate::pattern::{is_match, regex_matches};
use crate::standard::types::{texts_view, StateAction, Text, TextAction, TextV};
use crate::text::{
    ascii_lower, ascii_upper, char_is_ascii, chars_of, is_ascii_char, is_whitespace,
    string_from_chars, to_ascii_lowercase, to_ascii_uppercase, white_space,
};
use vstd::prelude::*;
use vstd::string::*;
use vstd::utf8::encode_utf8;

verus! {

/// A text that contains only digits; such a word is glued to other glued words
pub const NUMBERS_ONLY: &'static str = "^[0-9]+$";

/// A stroke that contains only digits or the center dash (a stroke with the number bar); such a
/// stroke is glued to other glued words. Although it matches "-", such a stroke is not possible
pub const NUMBER_TRANSLATION: &'static str = "^[0-9\\-]+$";

/// How the next word is put
#[derive(Debug, Clone, Copy, PartialEq, Eq, Structural)]
pub struct State {
    /// no space before the next word
    pub suppress_space: bool,
    /// capitalize the first letter of the next word
    pub force_capitalize: bool,
    /// the previous word was glued
    pub prev_is_glued: bool,
}

/// The state with nothing pending
pub open spec fn fresh_state() -> State {
    State { suppress_space: false, force_capitalize: false, prev_is_glued: false }
}

fn new_state() -> (s: State)
    ensures
        s == fresh_state(),
{
    State { suppress_space: false, force_capitalize: false, prev_is_glued: false }
}

/// What was typed so far: the text, the state for the next word, and whether any word was put
pub struct Rendered {
    pub text: Seq<char>,
    pub state: State,
    pub emitted: bool,
}

/// Nothing typed yet
pub open spec fn start() -> Rendered {
    Rendered { text: Seq::empty(), state: fresh_state(), emitted: false }
}

/// The index just after the last whitespace character; 0 when there is none
pub open spec fn last_word_start(text: Seq<char>) -> int
    decreases text.len(),
{
    if text.len() == 0 {
        0
    } else if white_space(text.last()) {
        text.len() as int
    } else {
        last_word_start(text.drop_last())
    }
}

pub(crate) proof fn lemma_last_word_start_bounds(text: Seq<char>)
    ensures
        0 <= last_word_start(text) <= text.len(),
        last_word_start(text) > 0 ==> white_space(text[last_word_start(text) - 1]),
        forall|k: int|
            last_word_start(text) <= k < text.len() ==> !white_space(#[trigger] text[k]),
    decreases text.len(),
{
    if text.len() > 0 && !white_space(text.last()) {
        lemma_last_word_start_bounds(text.drop_last());
        assert forall|k: int| last_word_start(text) <= k < text.len() implies !white_space(
            #[trigger] text[k],
        ) by {
            if k < text.len() - 1 {
                assert(text[k] == text.drop_last()[k]);
            }
        }
    }
}

/// A word with its first letter upper (or lower) cased; only an ASCII first letter is changed
pub open spec fn change_first_letter(word: Seq<char>, uppercase: bool) -> Seq<char> {
    if word.len() > 0 && is_ascii_char(word[0]) {
        seq![
            if uppercase {
                ascii_upper(word[0])
            } else {
                ascii_lower(word[0])
            },
        ] + word.skip(1)
    } else {
        word
    }
}

/// The text after a text action
pub open spec fn text_action_result(text: Seq<char>, action: TextAction) -> Seq<char> {
    let index = last_word_start(text);
    match action {
        TextAction::SuppressSpacePrev => if index > 0 && text[index - 1] == ' ' {
            text.remove(index - 1)
        } else {
            text
        },
        TextAction::CapitalizePrev => text.take(index) + change_first_letter(
            text.skip(index),
            true,
        ),
        TextAction::AddSpacePrev => if index < text.len() && !(index > 0 && text[index - 1]
            == ' ') {
            text.insert(index, ' ')
        } else {
            text
        },
    }
}

/// A stroke without its dashes
pub open spec fn without_dashes(s: Seq<char>) -> Seq<char>
    decreases s.len(),
{
    if s.len() == 0 {
        Seq::empty()
    } else {
        without_dashes(s.drop_last()) + if s.last() == '-' {
            Seq::empty()
        } else {
            seq![s.last()]
        }
    }
}

/// A glued word is put without a space when the previous word was glued as well
pub open spec fn glue(st: State) -> State {
    State { suppress_space: st.suppress_space || st.prev_is_glued, ..st }
}

/// The state after a glued word
pub open spec fn after_glued() -> State {
    State { suppress_space: false, force_capitalize: false, prev_is_glued: true }
}

/// Whether a space goes before the next word: it does unless suppressed, and when spaces go after
/// words, not before the first one
pub open spec fn needs_space(r: Rendered, st: State, space_after: bool) -> bool {
    !st.suppress_space && (!space_after || r.emitted)
}

/// Puts a word with the state `st`, capitalizing it if the state says so and `cap` allows it
pub open spec fn put_word(
    r: Rendered,
    st: State,
    word: Seq<char>,
    next: State,
    cap: bool,
    space_after: bool,
) -> Rendered {
    Rendered {
        text: r.text + (if needs_space(r, st, space_after) {
            seq![' ']
        } else {
            Seq::empty()
        }) + (if st.force_capitalize && cap {
            change_first_letter(word, true)
        } else {
            word
        }),
        state: next,
        emitted: true,
    }
}

/// The effect of one text on what was typed so far
pub open spec fn render_step(r: Rendered, t: TextV, space_after: bool) -> Rendered {
    let st = r.state;
    match t {
        TextV::Lit(w) => if regex_matches(NUMBERS_ONLY@, w) {
            put_word(r, glue(st), w, after_glued(), true, space_after)
        } else {
            put_word(r, st, w, fresh_state(), true, space_after)
        },
        TextV::UnknownStroke(s) => if regex_matches(NUMBER_TRANSLATION@, s) {
            put_word(r, glue(st), without_dashes(s), after_glued(), true, space_after)
        } else {
            put_word(r, st, s, fresh_state(), true, space_after)
        },
        TextV::Attached { text, joined_next, do_orthography, carry_capitalization } => {
            let next = State {
                suppress_space: joined_next,
                force_capitalize: carry_capitalization && st.force_capitalize,
                prev_is_glued: false,
            };
            match do_orthography {
                Some(true) => {
                    let index = last_word_start(r.text);
                    Rendered {
                        text: if index < r.text.len() {
                            r.text.take(index) + merge_spec(r.text.skip(index), text)
                        } else {
                            r.text + text
                        },
                        state: next,
                        emitted: true,
                    }
                },
                Some(false) => put_word(
                    r,
                    State { suppress_space: true, ..st },
                    text,
                    next,
                    !carry_capitalization,
                    space_after,
                ),
                None => put_word(r, st, text, next, !carry_capitalization, space_after),
            }
        },
        TextV::Glued(w) => put_word(r, glue(st), w, after_glued(), true, space_after),
        TextV::StateAction(a) => Rendered {
            state: match a {
                StateAction::ForceCapitalize => State { force_capitalize: true, ..st },
                StateAction::SuppressSpace => State { suppress_space: true, ..st },
                StateAction::Clear => fresh_state(),
            },
            ..r
        },
        TextV::TextAction(a) => Rendered { text: text_action_result(r.text, a), ..r },
    }
}

/// What the texts type, one after the other
pub open spec fn render_all(texts: Seq<TextV>, space_after: bool) -> Rendered
    decreases texts.len(),
{
    if texts.len() == 0 {
        start()
    } else {
        render_step(render_all(texts.drop_last(), space_after), texts.last(), space_after)
    }
}

/// The string the texts type. When spaces go after words, a space ends the text unless the state
/// suppresses it
pub open spec fn render(texts: Seq<TextV>, space_after: bool) -> Seq<char> {
    let r = render_all(texts, space_after);
    if space_after && r.emitted && !r.state.suppress_space {
        r.text.push(' ')
    } else {
        r.text
    }
}

/// Rendering one more text is one more step
pub proof fn lemma_render_all_push(texts: Seq<TextV>, t: TextV, space_after: bool)
    ensures
        render_all(texts.push(t), space_after) == render_step(
            render_all(texts, space_after),
            t,
            space_after,
        ),
{
    assert(texts.push(t).drop_last() =~= texts);
}

/// A word typed right at the start, with nothing pending, gets a space before it and nothing
/// pending after it
pub proof fn lemma_first_word(w: Seq<char>)
    ensures
        render_step(start(), TextV::Lit(w), false).text == seq![' '] + w,
        !render_step(start(), TextV::Lit(w), false).state.suppress_space,
        !render_step(start(), TextV::Lit(w), false).state.force_capitalize,
        render_step(start(), TextV::Lit(w), false).emitted,
{
    assert(Seq::<char>::empty() + seq![' '] + w =~= seq![' '] + w);
}

/// A prefix (attached text not joined to the previous word) is put as a word is: after a space
/// unless the space is suppressed; when it is joined to the next word, no space goes after it
pub proof fn lemma_prefix_spacing(r: Rendered, p: Seq<char>, joined_next: bool)
    requires
        !r.state.force_capitalize,
    ensures
        render_step(
            r,
            TextV::Attached {
                text: p,
                joined_next,
                do_orthography: None,
                carry_capitalization: false,
            },
            false,
        ).text == r.text + (if r.state.suppress_space {
            Seq::<char>::empty()
        } else {
            seq![' ']
        }) + p,
        render_step(
            r,
            TextV::Attached {
                text: p,
                joined_next,
                do_orthography: None,
                carry_capitalization: false,
            },
            false,
        ).state.suppress_space == joined_next,
{
}

/// A prefix joined to the next word, between two words: a space before the prefix, none between
/// it and the next word
pub proof fn lemma_prefix_between_words(w: Seq<char>, p: Seq<char>, x: Seq<char>)
    ensures
        render(
            seq![
                TextV::Lit(w),
                TextV::Attached {
                    text: p,
                    joined_next: true,
                    do_orthography: None,
                    carry_capitalization: false,
                },
                TextV::Lit(x),
            ],
            false,
        ) == seq![' '] + w + seq![' '] + p + x,
{
    let a = TextV::Attached {
        text: p,
        joined_next: true,
        do_orthography: None,
        carry_capitalization: false,
    };
    let s0 = Seq::<TextV>::empty();
    let s1 = s0.push(TextV::Lit(w));
    let s2 = s1.push(a);
    let s3 = s2.push(TextV::Lit(x));
    assert(s3 =~= seq![TextV::Lit(w), a, TextV::Lit(x)]);
    lemma_render_all_push(s0, TextV::Lit(w), false);
    lemma_render_all_push(s1, a, false);
    lemma_render_all_push(s2, TextV::Lit(x), false);
    assert(render_all(s0, false) == start());
    lemma_first_word(w);
    let r1 = render_all(s1, false);
    lemma_prefix_spacing(r1, p, true);
    let r2 = render_all(s2, false);
    assert(r2.text == seq![' '] + w + seq![' '] + p);
    assert(!r2.state.prev_is_glued && !r2.state.force_capitalize && r2.state.suppress_space);
    let r3 = render_all(s3, false);
    assert(r3.text =~= seq![' '] + w + seq![' '] + p + x);
}

fn last_word_start_of(text: &Vec<char>) -> (r: usize)
    ensures
        r == last_word_start(text@),
{
    let mut i: usize = text.len();
    assert(text@.take(i as int) =~= text@);
    while i > 0
        invariant
            i <= text.len(),
            last_word_start(text@) == last_word_start(text@.take(i as int)),
        decreases i,
    {
        let c = text[i - 1];
        assert(text@.take(i as int).drop_last() =~= text@.take(i - 1));
        if is_whitespace(c) {
            return i;
        }
        i -= 1;
    }
    i
}

/// Find the index in the text after the last space, counted in bytes.
/// This index is 0 if there is no whitespace, and text.len() if the last char is a whitespace
pub fn find_last_word(text: &str) -> (r: usize)
    ensures
        r == encode_utf8(text@.take(last_word_start(text@))).len() as usize,
{
    let chars = chars_of(text);
    let k = last_word_start_of(&chars);
    proof {
        lemma_last_word_start_bounds(text@);
    }
    let prefix = text.substring_char(0, k);
    assert(prefix@ =~= text@.take(k as int));
    prefix.len()
}

fn change_first_letter_of(word: &Vec<char>, uppercase: bool) -> (r: Vec<char>)
    ensures
        r@ == change_first_letter(word@, uppercase),
{
    if word.len() > 0 && char_is_ascii(word[0]) {
        let first = if uppercase {
            to_ascii_uppercase(word[0])
        } else {
            to_ascii_lowercase(word[0])
        };
        let mut r: Vec<char> = vec![first];
        let mut i: usize = 1;
        while i < word.len()
            invariant
                1 <= i <= word.len(),
                r@ == seq![first] + word@.subrange(1, i as int),
            decreases word.len() - i,
        {
            r.push(word[i]);
            i += 1;
            assert(r@ =~= seq![first] + word@.subrange(1, i as int));
        }
        assert(word@.subrange(1, i as int) =~= word@.skip(1));
        r
    } else {
        let mut r: Vec<char> = Vec::new();
        let mut i: usize = 0;
        while i < word.len()
            invariant
                i <= word.len(),
                r@ == word@.take(i as int),
            decreases word.len() - i,
        {
            r.push(word[i]);
            i += 1;
            assert(r@ =~= word@.take(i as int));
        }
        assert(word@.take(i as int) =~= word@);
        r
    }
}

/// Forces the first letter of a string to be upper/lower case
pub fn word_change_first_letter(word: String, uppercase: bool) -> (r: String)
    ensures
        r@ == change_first_letter(word@, uppercase),
{
    let chars = chars_of(word.as_str());
    let changed = change_first_letter_of(&chars, uppercase);
    string_from_chars(changed.as_slice())
}

/// The characters of `v` from `from` on
fn tail_of(v: &Vec<char>, from: usize) -> (r: Vec<char>)
    requires
        from <= v.len(),
    ensures
        r@ == v@.skip(from as int),
{
    let mut r: Vec<char> = Vec::new();
    let mut i: usize = from;
    while i < v.len()
        invariant
            from <= i <= v.len(),
            r@ == v@.subrange(from as int, i as int),
        decreases v.len() - i,
    {
        r.push(v[i]);
        i += 1;
        assert(r@ =~= v@.subrange(from as int, i as int));
    }
    r
}

/// Appends the characters of `w` to `v`
fn extend(v: &mut Vec<char>, w: &Vec<char>)
    ensures
        final(v)@ == old(v)@ + w@,
{
    let mut i: usize = 0;
    while i < w.len()
        invariant
            i <= w.len(),
            v@ == old(v)@ + w@.take(i as int),
        decreases w.len() - i,
    {
        v.push(w[i]);
        i += 1;
        assert(v@ =~= old(v)@ + w@.take(i as int));
    }
    assert(w@.take(i as int) =~= w@);
}

fn apply_text_action(text: &mut Vec<char>, action: TextAction)
    ensures
        final(text)@ == text_action_result(old(text)@, action),
{
    let index = last_word_start_of(text);
    proof {
        lemma_last_word_start_bounds(text@);
    }
    match action {
        TextAction::SuppressSpacePrev => {
            // find the last word and see if there is a space before it
            if index > 0 && text[index - 1] == ' ' {
                text.remove(index - 1);
            }
        },
        TextAction::CapitalizePrev => {
            let word = tail_of(text, index);
            let word = change_first_letter_of(&word, true);
            text.truncate(index);
            assert(text@ =~= old(text)@.take(index as int));
            extend(text, &word);
        },
        TextAction::AddSpacePrev => {
            // put a space before the last word if it has none
            if index < text.len() && !(index > 0 && text[index - 1] == ' ') {
                text.insert(index, ' ');
            }
        },
    }
}

/// Applies a text action to a text
pub fn perform_text_action(text: &str, action: TextAction) -> (r: String)
    ensures
        r@ == text_action_result(text@, action),
{
    let mut chars = chars_of(text);
    apply_text_action(&mut chars, action);
    string_from_chars(chars.as_slice())
}

fn without_dashes_of(s: &str) -> (r: Vec<char>)
    ensures
        r@ == without_dashes(s@),
{
    let chars = chars_of(s);
    let mut r: Vec<char> = Vec::new();
    let mut i: usize = 0;
    while i < chars.len()
        invariant
            i <= chars.len(),
            chars@ == s@,
            r@ == without_dashes(s@.take(i as int)),
        decreases chars.len() - i,
    {
        assert(s@.take(i + 1).drop_last() =~= s@.take(i as int));
        if chars[i] != '-' {
            r.push(chars[i]);
        }
        i += 1;
        assert(r@ =~= without_dashes(s@.take(i as int)));
    }
    assert(s@.take(i as int) =~= s@);
    r
}

/// Puts a word as `put_word` says
fn put_word_exec(
    out: &mut Vec<char>,
    state: &mut State,
    emitted: &mut bool,
    st: State,
    word: &Vec<char>,
    next: State,
    cap: bool,
    space_after: bool,
)
    ensures
        ({
            let r = put_word(
                Rendered { text: old(out)@, state: *old(state), emitted: *old(emitted) },
                st,
                word@,
                next,
                cap,
                space_after,
            );
            final(out)@ == r.text && *final(state) == r.state && *final(emitted) == r.emitted
        }),
{
    if !st.suppress_space && (!space_after || *emitted) {
        out.push(' ');
    }
    if st.force_capitalize && cap {
        let changed = change_first_letter_of(word, true);
        extend(out, &changed);
    } else {
        extend(out, word);
    }
    *state = next;
    *emitted = true;
}

/// Applies one text to what was typed so far
fn render_one(
    out: &mut Vec<char>,
    state: &mut State,
    emitted: &mut bool,
    t: &Text,
    space_after: bool,
)
    ensures
        ({
            let r = render_step(
                Rendered { text: old(out)@, state: *old(state), emitted: *old(emitted) },
                t@,
                space_after,
            );
            final(out)@ == r.text && *final(state) == r.state && *final(emitted) == r.emitted
        }),
{
    let st = *state;
    match t {
        Text::Lit(w) => {
            let word = chars_of(w.as_str());
            if is_match(NUMBERS_ONLY, w.as_str()) {
                let glued = State { suppress_space: st.suppress_space || st.prev_is_glued, ..st };
                let next = State {
                    suppress_space: false,
                    force_capitalize: false,
                    prev_is_glued: true,
                };
                put_word_exec(out, state, emitted, glued, &word, next, true, space_after);
            } else {
                put_word_exec(out, state, emitted, st, &word, new_state(), true, space_after);
            }
        },
        Text::UnknownStroke(s) => {
            if is_match(NUMBER_TRANSLATION, s.as_str()) {
                let word = without_dashes_of(s.as_str());
                let glued = State { suppress_space: st.suppress_space || st.prev_is_glued, ..st };
                let next = State {
                    suppress_space: false,
                    force_capitalize: false,
                    prev_is_glued: true,
                };
                put_word_exec(out, state, emitted, glued, &word, next, true, space_after);
            } else {
                let word = chars_of(s.as_str());
                put_word_exec(out, state, emitted, st, &word, new_state(), true, space_after);
            }
        },
        Text::Attached { text, joined_next, do_orthography, carry_capitalization } => {
            let next = State {
                suppress_space: *joined_next,
                force_capitalize: *carry_capitalization && st.force_capitalize,
                prev_is_glued: false,
            };
            let word = chars_of(text.as_str());
            match do_orthography {
                Some(true) => {
                    let index = last_word_start_of(out);
                    proof {
                        lemma_last_word_start_bounds(out@);
                    }
                    if index < out.len() {
                        // replace the last word with the one the orthography rules give
                        let last = tail_of(out, index);
                        let last = string_from_chars(last.as_slice());
                        let joined = merge(last.as_str(), text.as_str());
                        let joined = chars_of(joined.as_str());
                        out.truncate(index);
                        assert(out@ =~= old(out)@.take(index as int));
                        extend(out, &joined);
                    } else {
                        // there was no last word, directly add the text
                        extend(out, &word);
                    }
                    *state = next;
                    *emitted = true;
                },
                Some(false) => {
                    let attached = State { suppress_space: true, ..st };
                    put_word_exec(
                        out,
                        state,
                        emitted,
                        attached,
                        &word,
                        next,
                        !*carry_capitalization,
                        space_after,
                    );
                },
                None => {
                    put_word_exec(
                        out,
                        state,
                        emitted,
                        st,
                        &word,
                        next,
                        !*carry_capitalization,
                        space_after,
                    );
                },
            }
        },
        Text::Glued(w) => {
            let word = chars_of(w.as_str());
            let glued = State { suppress_space: st.suppress_space || st.prev_is_glued, ..st };
            let next = State { suppress_space: false, force_capitalize: false, prev_is_glued: true };
            put_word_exec(out, state, emitted, glued, &word, next, true, space_after);
        },
        Text::StateAction(a) => {
            match a {
                StateAction::ForceCapitalize => {
                    *state = State { force_capitalize: true, ..st };
                },
                StateAction::SuppressSpace => {
                    *state = State { suppress_space: true, ..st };
                },
                StateAction::Clear => {
                    *state = new_state();
                },
            }
        },
        Text::TextAction(a) => {
            apply_text_action(out, *a);
        },
    }
}

/// Converts texts into their string representation by adding spaces in between words and
/// applying text actions.
///
/// A state of the spaces/capitalization is kept as it loops over the Texts to build the string.
/// StateActions change that state. With `space_after`, spaces are put after words instead of
/// before them
pub fn parse_translation(translations: Vec<Text>, space_after: bool) -> (r: String)
    ensures
        r@ == render(texts_view(translations@), space_after),
{
    let ghost texts = texts_view(translations@);
    let mut out: Vec<char> = Vec::new();
    let mut state = new_state();
    let mut emitted = false;
    let mut i: usize = 0;
    while i < translations.len()
        invariant
            i <= translations.len(),
            texts == texts_view(translations@),
            render_all(texts.take(i as int), space_after) == (Rendered {
                text: out@,
                state,
                emitted,
            }),
        decreases translations.len() - i,
    {
        assert(texts.take(i + 1).drop_last() =~= texts.take(i as int));
        assert(texts.take(i + 1).last() == translations@[i as int]@);
        render_one(&mut out, &mut state, &mut emitted, &translations[i], space_after);
        i += 1;
    }
    assert(texts.take(i as int) =~= texts);
    if space_after && emitted && !state.suppress_space {
        out.push(' ');
    }
    string_from_chars(out.as_slice())
}

} // verus!
