//! The values a dictionary entry stands for: text to type, or commands to perform.
use crate::base::commands::{clone_commands, commands_view, Command, CommandV};
use crate::base::stroke::Stroke;
use vstd::prelude::*;

verus! {

/// Changes the state for the next word
#[derive(Debug, Clone, Copy, PartialEq, Eq, Hash, Structural)]
pub enum StateAction {
    /// Capitalize the first letter of the next word
    ForceCapitalize,
    /// Do not put a space before the next word
    SuppressSpace,
    /// Forget any pending capitalization or suppressed space
    Clear,
}

/// Changes the text that was already typed
#[derive(Debug, Clone, Copy, PartialEq, Eq, Hash, Structural)]
pub enum TextAction {
    /// Capitalize the first letter of the previous word
    CapitalizePrev,
    /// Remove the space before the previous word
    SuppressSpacePrev,
    /// Put a space before the previous word when there is none
    AddSpacePrev,
}

/// Something that pertains to text
#[allow(clippy::enum_variant_names)]
#[derive(Debug, PartialEq, Eq, Hash)]
pub enum Text {
    /// text literal that can be upper/lower cased
    Lit(String),
    /// unknown strokes always printed in all caps
    UnknownStroke(Stroke),
    /// a string that can be attached to the previous and/or next word
    Attached {
        /// the text itself
        text: String,
        /// if it should be attached to the next word
        joined_next: bool,
        /// Whether or not to apply orthography rules and whether to attach to the previous word
        /// Some(true) => apply orthography rules and attach
        /// Some(false) => attach only
        /// None => do not attach to the previous word
        do_orthography: Option<bool>,
        /// whether or not to carry the capitalization state to the word following this
        carry_capitalization: bool,
    },
    /// glued strokes only attach to other glued strokes
    Glued(String),
    /// changes the state for suppressing space, capitalizing, etc. the next word
    StateAction(StateAction),
    /// text actions can only affect the text before it
    TextAction(TextAction),
}

/// A dictionary entry. It could be a command, in which case it is passed directly to the
/// dispatcher. Otherwise it is something that pertains to text
#[derive(Debug, PartialEq, Eq, Hash)]
pub enum Translation {
    Text(Text),
    Command { cmds: Vec<Command>, text_after: Option<Vec<Text>>, suppress_space_before: bool },
}

/// The value of a text, with its strings as character sequences
pub enum TextV {
    Lit(Seq<char>),
    UnknownStroke(Seq<char>),
    Attached {
        text: Seq<char>,
        joined_next: bool,
        do_orthography: Option<bool>,
        carry_capitalization: bool,
    },
    Glued(Seq<char>),
    StateAction(StateAction),
    TextAction(TextAction),
}

/// The value of a translation
pub enum TranslationV {
    Text(TextV),
    Command { cmds: Seq<CommandV>, text_after: Option<Seq<TextV>>, suppress_space_before: bool },
}

impl View for Text {
    type V = TextV;

    open spec fn view(&self) -> TextV {
        match self {
            Text::Lit(s) => TextV::Lit(s@),
            Text::UnknownStroke(s) => TextV::UnknownStroke(s@),
            Text::Attached { text, joined_next, do_orthography, carry_capitalization } =>
                TextV::Attached {
                text: text@,
                joined_next: *joined_next,
                do_orthography: *do_orthography,
                carry_capitalization: *carry_capitalization,
            },
            Text::Glued(s) => TextV::Glued(s@),
            Text::StateAction(a) => TextV::StateAction(*a),
            Text::TextAction(a) => TextV::TextAction(*a),
        }
    }
}

/// The values of a list of texts
pub open spec fn texts_view(v: Seq<Text>) -> Seq<TextV> {
    v.map_values(|t: Text| t@)
}

impl View for Translation {
    type V = TranslationV;

    open spec fn view(&self) -> TranslationV {
        match self {
            Translation::Text(t) => TranslationV::Text(t@),
            Translation::Command { cmds, text_after, suppress_space_before } =>
                TranslationV::Command {
                cmds: commands_view(cmds@),
                text_after: match text_after {
                    Some(t) => Some(texts_view(t@)),
                    None => None,
                },
                suppress_space_before: *suppress_space_before,
            },
        }
    }
}

/// The values of a list of translations
pub open spec fn translations_view(v: Seq<Translation>) -> Seq<TranslationV> {
    v.map_values(|t: Translation| t@)
}

impl Clone for Text {
    fn clone(&self) -> (r: Self)
        ensures
            r@ == self@,
    {
        match self {
            Text::Lit(s) => Text::Lit(s.clone()),
            Text::UnknownStroke(s) => Text::UnknownStroke(s.clone()),
            Text::Attached { text, joined_next, do_orthography, carry_capitalization } =>
                Text::Attached {
                text: text.clone(),
                joined_next: *joined_next,
                do_orthography: *do_orthography,
                carry_capitalization: *carry_capitalization,
            },
            Text::Glued(s) => Text::Glued(s.clone()),
            Text::StateAction(a) => Text::StateAction(*a),
            Text::TextAction(a) => Text::TextAction(*a),
        }
    }
}

/// Copies a list of texts
pub fn clone_texts(v: &Vec<Text>) -> (r: Vec<Text>)
    ensures
        texts_view(r@) == texts_view(v@),
{
    let mut r: Vec<Text> = Vec::new();
    let mut i: usize = 0;
    while i < v.len()
        invariant
            i <= v.len(),
            r.len() == i,
            forall|k: int| 0 <= k < i ==> #[trigger] r@[k]@ == v@[k]@,
        decreases v.len() - i,
    {
        r.push(v[i].clone());
        i += 1;
    }
    assert(texts_view(r@) =~= texts_view(v@));
    r
}

impl Clone for Translation {
    fn clone(&self) -> (r: Self)
        ensures
            r@ == self@,
    {
        match self {
            Translation::Text(t) => Translation::Text(t.clone()),
            Translation::Command { cmds, text_after, suppress_space_before } => {
                let text_after = match text_after {
                    Some(t) => Some(clone_texts(t)),
                    None => None,
                };
                Translation::Command {
                    cmds: clone_commands(cmds),
                    text_after,
                    suppress_space_before: *suppress_space_before,
                }
            },
        }
    }
}

/// Copies a list of translations
pub fn clone_translations(v: &Vec<Translation>) -> (r: Vec<Translation>)
    ensures
        translations_view(r@) == translations_view(v@),
{
    let mut r: Vec<Translation> = Vec::new();
    let mut i: usize = 0;
    while i < v.len()
        invariant
            i <= v.len(),
            r.len() == i,
            forall|k: int| 0 <= k < i ==> #[trigger] r@[k]@ == v@[k]@,
        decreases v.len() - i,
    {
        r.push(v[i].clone());
        i += 1;
    }
    assert(translations_view(r@) =~= translations_view(v@));
    r
}

/// The text that a translation puts out, ignoring its commands. In the mode that puts spaces
/// after words, a command that suppresses the space before it also keeps the text after it from
/// getting a space in between
pub open spec fn translation_texts(t: TranslationV, space_after: bool) -> Seq<TextV> {
    match t {
        TranslationV::Text(x) => seq![x],
        TranslationV::Command { text_after, suppress_space_before, .. } => (if space_after
            && suppress_space_before {
            seq![suppress_space_marker()]
        } else {
            Seq::empty()
        }) + match text_after {
            Some(a) => a,
            None => Seq::empty(),
        },
    }
}

/// An empty text that suppresses the space on both of its sides
pub open spec fn suppress_space_marker() -> TextV {
    TextV::Attached {
        text: Seq::empty(),
        joined_next: true,
        do_orthography: Some(false),
        carry_capitalization: true,
    }
}

/// The texts of a list of translations, in order
pub open spec fn all_texts(ts: Seq<TranslationV>, space_after: bool) -> Seq<TextV>
    decreases ts.len(),
{
    if ts.len() == 0 {
        Seq::empty()
    } else {
        all_texts(ts.drop_last(), space_after) + translation_texts(ts.last(), space_after)
    }
}

/// Converts a translation into text, ignoring commands
pub fn as_text(t: &Translation, space_after: bool) -> (r: Vec<Text>)
    ensures
        texts_view(r@) == translation_texts(t@, space_after),
{
    match t {
        Translation::Text(x) => {
            let r = vec![x.clone()];
            assert(texts_view(r@) =~= translation_texts(t@, space_after));
            r
        },
        Translation::Command { text_after, suppress_space_before, .. } => {
            let mut r: Vec<Text> = Vec::new();
            if space_after && *suppress_space_before {
                r.push(
                    Text::Attached {
                        text: String::new(),
                        joined_next: true,
                        do_orthography: Some(false),
                        carry_capitalization: true,
                    },
                );
            }
            let ghost start = texts_view(r@);
            if let Some(after) = text_after {
                let mut i: usize = 0;
                while i < after.len()
                    invariant
                        i <= after.len(),
                        texts_view(r@) == start + texts_view(after@).take(i as int),
                    decreases after.len() - i,
                {
                    let ghost prev = r@;
                    let c = after[i].clone();
                    r.push(c);
                    assert(texts_view(r@) =~= texts_view(prev).push(c@));
                    i += 1;
                    assert(texts_view(r@) =~= start + texts_view(after@).take(i as int));
                }
                assert(texts_view(after@).take(i as int) =~= texts_view(after@));
            }
            assert(texts_view(r@) =~= translation_texts(t@, space_after));
            r
        },
    }
}

/// Converts a list of translations into text, ignoring commands
pub fn all_as_text(ts: &Vec<Translation>, space_after: bool) -> (r: Vec<Text>)
    ensures
        texts_view(r@) == all_texts(translations_view(ts@), space_after),
{
    let mut r: Vec<Text> = Vec::new();
    let mut i: usize = 0;
    while i < ts.len()
        invariant
            i <= ts.len(),
            texts_view(r@) == all_texts(translations_view(ts@).take(i as int), space_after),
        decreases ts.len() - i,
    {
        let mut more = as_text(&ts[i], space_after);
        let ghost before = r@;
        let ghost added = more@;
        r.append(&mut more);
        i += 1;
        assert(translations_view(ts@).take(i as int).drop_last() =~= translations_view(
            ts@,
        ).take(i - 1));
        assert(texts_view(r@) =~= texts_view(before) + texts_view(added)) by {
            assert(r@ =~= before + added);
        }
    }
    assert(translations_view(ts@).take(i as int) =~= translations_view(ts@));
    r
}

} // verus!
