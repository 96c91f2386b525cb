//! The simplest conversion of translations into text: spaces go before words, and text actions
//! only change the spacing and the case of the next word.
use crate::base::stroke::Stroke;
use crate::legacy::commands::{Command, CommandV};
use crate::legacy::diff::{replace_from_difference, replace_tail};
use crate::standard::parser::change_first_letter;
use crate::text::{push_char, push_str};
use vstd::prelude::*;

verus! {

/// Actions on the spacing and case of words
#[derive(Debug, Clone, Copy, PartialEq, Eq, Hash, Structural)]
pub enum TextAction {
    NoSpace,
    ForceSpace,
    LowercasePrev,
    UppercasePrev,
    LowercaseNext,
    UppercaseNext,
}

/// A dictionary entry: text, an unknown stroke, text actions, or a command
#[derive(Debug, PartialEq, Eq)]
pub enum Translation {
    Text(String),
    UnknownStroke(Stroke),
    TextAction(Vec<TextAction>),
    Command(Command),
}

/// The value of a translation
pub enum TranslationV {
    Text(Seq<char>),
    UnknownStroke(Seq<char>),
    TextAction(Seq<TextAction>),
    Command(CommandV),
}

impl View for Translation {
    type V = TranslationV;

    open spec fn view(&self) -> TranslationV {
        match self {
            Translation::Text(s) => TranslationV::Text(s@),
            Translation::UnknownStroke(s) => TranslationV::UnknownStroke(s@),
            Translation::TextAction(a) => TranslationV::TextAction(a@),
            Translation::Command(c) => TranslationV::Command(c@),
        }
    }
}

/// The values of a list of translations
pub open spec fn translations_view(v: Seq<Translation>) -> Seq<TranslationV> {
    v.map_values(|t: Translation| t@)
}

/// The values of borrowed translations
pub open spec fn borrowed_view(v: Seq<&Translation>) -> Seq<TranslationV> {
    v.map_values(|t: &Translation| t@)
}

fn same_actions(a: &Vec<TextAction>, b: &Vec<TextAction>) -> (r: bool)
    ensures
        r == (a@ == b@),
{
    if a.len() != b.len() {
        return false;
    }
    let mut i: usize = 0;
    while i < a.len()
        invariant
            i <= a.len() == b.len(),
            a@.take(i as int) == b@.take(i as int),
        decreases a.len() - i,
    {
        if a[i] != b[i] {
            assert(a@[i as int] != b@[i as int]);
            return false;
        }
        assert(a@.take(i + 1) =~= a@.take(i as int).push(a@[i as int]));
        assert(b@.take(i + 1) =~= b@.take(i as int).push(b@[i as int]));
        i += 1;
    }
    assert(a@.take(i as int) =~= a@);
    assert(b@.take(i as int) =~= b@);
    true
}

impl Translation {
    /// A text translation
    pub fn text(text: &str) -> (t: Self)
        ensures
            t@ == TranslationV::Text(text@),
    {
        Translation::Text(text.to_owned())
    }

    /// Whether it is a command
    pub fn is_command(&self) -> (b: bool)
        ensures
            b == (self@ is Command),
    {
        match self {
            Translation::Command(_) => true,
            _ => false,
        }
    }

    /// Whether two translations are the same
    pub fn same(&self, other: &Self) -> (b: bool)
        ensures
            b == (self@ == other@),
    {
        match (self, other) {
            (Translation::Text(a), Translation::Text(b)) => *a == *b,
            (Translation::UnknownStroke(a), Translation::UnknownStroke(b)) => *a == *b,
            (Translation::TextAction(a), Translation::TextAction(b)) => same_actions(a, b),
            (Translation::Command(a), Translation::Command(b)) => a.same(b),
            _ => false,
        }
    }
}

/// The text so far, whether the next word gets a space before it, and how its first letter is
/// forced (upper when true, lower when false)
pub struct Spacing {
    pub text: Seq<char>,
    pub add_space: bool,
    pub force_upper: Option<bool>,
}

/// The spacing after an action on the next word
pub open spec fn spacing_action(s: Spacing, a: TextAction) -> Spacing {
    match a {
        TextAction::NoSpace => Spacing { add_space: false, ..s },
        TextAction::ForceSpace => Spacing { add_space: true, ..s },
        TextAction::LowercaseNext => Spacing { force_upper: Some(false), ..s },
        TextAction::UppercaseNext => Spacing { force_upper: Some(true), ..s },
        _ => s,
    }
}

/// The spacing after the actions, in order
pub open spec fn spacing_actions(s: Spacing, actions: Seq<TextAction>) -> Spacing
    decreases actions.len(),
{
    if actions.len() == 0 {
        s
    } else {
        spacing_action(spacing_actions(s, actions.drop_last()), actions.last())
    }
}

/// A word put with the current spacing
pub open spec fn put(s: Spacing, word: Seq<char>) -> Spacing {
    Spacing {
        text: s.text + (if s.add_space {
            seq![' ']
        } else {
            Seq::empty()
        }) + match s.force_upper {
            Some(upper) => change_first_letter(word, upper),
            None => word,
        },
        add_space: true,
        force_upper: None,
    }
}

/// The effect of a translation; commands are ignored
pub open spec fn spacing_step(s: Spacing, t: TranslationV) -> Spacing {
    match t {
        TranslationV::Text(text) => put(s, text),
        TranslationV::UnknownStroke(stroke) => Spacing {
            text: s.text + (if s.add_space {
                seq![' ']
            } else {
                Seq::empty()
            }) + stroke,
            add_space: true,
            force_upper: None,
        },
        TranslationV::TextAction(actions) => spacing_actions(s, actions),
        TranslationV::Command(_) => s,
    }
}

/// The spacing after the translations
pub open spec fn spacing_all(ts: Seq<TranslationV>) -> Spacing
    decreases ts.len(),
{
    if ts.len() == 0 {
        Spacing { text: Seq::empty(), add_space: true, force_upper: None }
    } else {
        spacing_step(spacing_all(ts.drop_last()), ts.last())
    }
}

/// Whether no text action acts on a previous word (such actions are not supported)
pub open spec fn no_prev_actions(ts: Seq<TranslationV>) -> bool {
    forall|i: int, j: int|
        0 <= i < ts.len() && ts[i] is TextAction && 0 <= j < ts[i]->TextAction_0.len() ==> {
            let a = #[trigger] ts[i]->TextAction_0[j];
            a != TextAction::LowercasePrev && a != TextAction::UppercasePrev
        }
}

/// Converts translations into their string representation by adding spaces in between words and
/// applying text actions.
///
/// Can only add space before each word
pub fn translation_to_string(translations: Vec<&Translation>) -> (r: String)
    requires
        no_prev_actions(borrowed_view(translations@)),
    ensures
        r@ == spacing_all(borrowed_view(translations@)).text,
{
    let ghost all = borrowed_view(translations@);
    let mut s = String::new();
    let mut next_add_space = true;
    // force first letter of next word to be upper (true) or lower (false)
    // None represents no forcing
    let mut next_force_upper: Option<bool> = None;
    let mut i: usize = 0;
    while i < translations.len()
        invariant
            i <= translations.len(),
            all == borrowed_view(translations@),
            no_prev_actions(all),
            spacing_all(all.take(i as int)) == (Spacing {
                text: s@,
                add_space: next_add_space,
                force_upper: next_force_upper,
            }),
        decreases translations.len() - i,
    {
        assert(all.take(i + 1).drop_last() =~= all.take(i as int));
        assert(all.take(i + 1).last() == translations@[i as int]@);
        let ghost prev = Spacing { text: s@, add_space: next_add_space, force_upper: next_force_upper };
        match translations[i] {
            Translation::Text(text) => {
                if next_add_space {
                    push_char(&mut s, ' ');
                }
                if let Some(upper) = next_force_upper {
                    let changed = crate::standard::parser::word_change_first_letter(
                        text.clone(),
                        upper,
                    );
                    push_str(&mut s, changed.as_str());
                } else {
                    push_str(&mut s, text.as_str());
                }
                next_add_space = true;
                next_force_upper = None;
            },
            Translation::UnknownStroke(stroke) => {
                if next_add_space {
                    push_char(&mut s, ' ');
                }
                push_str(&mut s, stroke.as_str());
                next_add_space = true;
                next_force_upper = None;
            },
            Translation::TextAction(actions) => {
                let ghost start = Spacing {
                    text: s@,
                    add_space: next_add_space,
                    force_upper: next_force_upper,
                };
                let mut k: usize = 0;
                while k < actions.len()
                    invariant
                        k <= actions.len(),
                        i < all.len(),
                        all[i as int] == TranslationV::TextAction(actions@),
                        no_prev_actions(all),
                        s@ == start.text,
                        spacing_actions(start, actions@.take(k as int)) == (Spacing {
                            text: s@,
                            add_space: next_add_space,
                            force_upper: next_force_upper,
                        }),
                    decreases actions.len() - k,
                {
                    assert(actions@.take(k + 1).drop_last() =~= actions@.take(k as int));
                    match actions[k] {
                        TextAction::NoSpace => {
                            next_add_space = false;
                        },
                        TextAction::ForceSpace => {
                            next_add_space = true;
                        },
                        TextAction::LowercaseNext => {
                            next_force_upper = Some(false);
                        },
                        TextAction::UppercaseNext => {
                            next_force_upper = Some(true);
                        },
                        _ => {
                            proof {
                                let a = all[i as int]->TextAction_0[k as int];
                                assert(a == actions@[k as int]);
                            }
                        },
                    }
                    k += 1;
                }
                assert(actions@.take(k as int) =~= actions@);
                assert(spacing_step(start, all[i as int]) == spacing_actions(start, actions@));
            },
            Translation::Command(_) => {},
        }
        assert(s@ =~= spacing_step(prev, all[i as int]).text);
        i += 1;
    }
    assert(all.take(i as int) =~= all);
    s
}

/// The command that makes the old string into the new: with an empty old string the new one is
/// typed; with an empty new string all the characters of the old one are deleted
pub open spec fn text_diff_spec(old: Seq<char>, new: Seq<char>) -> CommandV {
    if old.len() == 0 {
        CommandV::Replace(0, new)
    } else if new.len() == 0 {
        CommandV::Replace(old.len() as usize, Seq::empty())
    } else {
        replace_tail(old, new)
    }
}

/// Diffs two strings, creating a command to make the old into the new
pub fn text_diff(old: String, new: String) -> (c: Command)
    ensures
        c@ == text_diff_spec(old@, new@),
{
    if old.as_str().is_empty() {
        return Command::add_text(new.as_str());
    }
    if new.as_str().is_empty() {
        proof {
            reveal_strlit("");
            assert(""@ =~= Seq::<char>::empty());
        }
        return Command::replace_text(old.as_str().unicode_len(), "");
    }
    replace_from_difference(old.as_str(), new.as_str())
}

/// The number of translations the two lists start with in common
pub open spec fn common_from(old: Seq<TranslationV>, new: Seq<TranslationV>, i: int) -> int
    decreases old.len() - i,
{
    if 0 <= i < old.len() && i < new.len() && old[i] == new[i] {
        common_from(old, new, i + 1)
    } else {
        i
    }
}

/// The translations that are not commands
pub open spec fn texts_only(ts: Seq<TranslationV>) -> Seq<TranslationV>
    decreases ts.len(),
{
    if ts.len() == 0 {
        Seq::empty()
    } else if ts.last() is Command {
        texts_only(ts.drop_last())
    } else {
        texts_only(ts.drop_last()).push(ts.last())
    }
}

/// The translations from `start` on, without the commands
pub open spec fn texts_from(ts: Seq<TranslationV>, start: int) -> Seq<TranslationV> {
    texts_only(ts.skip(start))
}

/// The strings of both lists from where they differ, without commands
pub open spec fn diff_texts(old: Seq<TranslationV>, new: Seq<TranslationV>) -> (Seq<char>, Seq<char>) {
    let i = common_from(old, new, 0);
    (spacing_all(texts_from(old, i)).text, spacing_all(texts_from(new, i)).text)
}

/// The command that makes the old translations into the new ones
pub open spec fn translation_diff_spec(old: Seq<TranslationV>, new: Seq<TranslationV>) -> CommandV {
    text_diff_spec(diff_texts(old, new).0, diff_texts(old, new).1)
}

/// Keeps the translations from `start` on that are not commands
fn without_commands(ts: &Vec<Translation>, start: usize) -> (r: Vec<&Translation>)
    requires
        start <= ts.len(),
    ensures
        borrowed_view(r@) == texts_from(translations_view(ts@), start as int),
{
    let ghost all = translations_view(ts@).skip(start as int);
    let mut r: Vec<&Translation> = Vec::new();
    let mut i: usize = start;
    assert(all.take(0) =~= Seq::<TranslationV>::empty());
    assert(borrowed_view(r@) =~= Seq::<TranslationV>::empty());
    while i < ts.len()
        invariant
            start <= i <= ts.len(),
            all == translations_view(ts@).skip(start as int),
            borrowed_view(r@) == texts_only(all.take(i - start)),
        decreases ts.len() - i,
    {
        let ghost before = borrowed_view(r@);
        let t = &ts[i];
        assert(all.take(i - start + 1).drop_last() =~= all.take(i - start));
        assert(all.take(i - start + 1).last() == t@);
        if !t.is_command() {
            r.push(t);
            assert(borrowed_view(r@) =~= before.push(t@));
        }
        i += 1;
    }
    assert(all.take(i - start) =~= all);
    r
}

proof fn lemma_texts_only_no_prev(ts: Seq<TranslationV>)
    requires
        no_prev_actions(ts),
    ensures
        no_prev_actions(texts_only(ts)),
    decreases ts.len(),
{
    if ts.len() > 0 {
        let rest = ts.drop_last();
        assert forall|i: int, j: int|
            0 <= i < rest.len() && rest[i] is TextAction && 0 <= j < rest[i]->TextAction_0.len() implies {
            let a = #[trigger] rest[i]->TextAction_0[j];
            a != TextAction::LowercasePrev && a != TextAction::UppercasePrev
        } by {
            assert(rest[i] == ts[i]);
        }
        lemma_texts_only_no_prev(rest);
        let t = texts_only(ts);
        let tr = texts_only(rest);
        if !(ts.last() is Command) {
            assert forall|i: int, j: int|
                0 <= i < t.len() && t[i] is TextAction && 0 <= j < t[i]->TextAction_0.len() implies {
                let a = #[trigger] t[i]->TextAction_0[j];
                a != TextAction::LowercasePrev && a != TextAction::UppercasePrev
            } by {
                if i < tr.len() {
                    assert(t[i] == tr[i]);
                } else {
                    assert(t[i] == ts[ts.len() - 1]);
                }
            }
        }
    }
}

proof fn lemma_filter_no_prev(ts: Seq<TranslationV>, start: int)
    requires
        0 <= start <= ts.len(),
        no_prev_actions(ts),
    ensures
        no_prev_actions(texts_from(ts, start)),
{
    let s = ts.skip(start);
    assert forall|i: int, j: int|
        0 <= i < s.len() && s[i] is TextAction && 0 <= j < s[i]->TextAction_0.len() implies {
        let a = #[trigger] s[i]->TextAction_0[j];
        a != TextAction::LowercasePrev && a != TextAction::UppercasePrev
    } by {
        assert(s[i] == ts[start + i]);
    }
    lemma_texts_only_no_prev(s);
}

/// Finds the difference between two translations, converts them to their string representations,
/// and diffs the strings to create a command
pub fn translation_diff(old: &Vec<Translation>, new: &Vec<Translation>) -> (c: Command)
    requires
        no_prev_actions(translations_view(old@)),
        no_prev_actions(translations_view(new@)),
    ensures
        c@ == translation_diff_spec(translations_view(old@), translations_view(new@)),
{
    let ghost o = translations_view(old@);
    let ghost n = translations_view(new@);
    // find where the new translations differ from the old
    let mut i: usize = 0;
    while i < old.len() && i < new.len() && old[i].same(&new[i])
        invariant
            i <= old.len(),
            i <= new.len(),
            o == translations_view(old@),
            n == translations_view(new@),
            common_from(o, n, i as int) == common_from(o, n, 0),
        decreases old.len() - i,
    {
        assert(o[i as int] == old@[i as int]@ && n[i as int] == new@[i as int]@);
        i += 1;
    }
    proof {
        if i < old.len() && i < new.len() {
            assert(o[i as int] == old@[i as int]@ && n[i as int] == new@[i as int]@);
        }
        lemma_filter_no_prev(o, i as int);
        lemma_filter_no_prev(n, i as int);
    }
    // starting from where the translations differ, ignore any none text command
    let old_no_command = without_commands(old, i);
    let new_no_command = without_commands(new, i);
    // compare the two and return the result
    text_diff(translation_to_string(old_no_command), translation_to_string(new_no_command))
}

} // verus!
