//! Translations of the first generation and the flags of their text actions.
use crate::base::stroke::Stroke;
use crate::legacy::commands::{Command, CommandV};
use vstd::prelude::*;

verus! {

/// What a text action sets
#[derive(Debug, Clone, Copy, PartialEq, Eq, Hash, Structural)]
pub enum TextActionType {
    /// true to force a space, false for no space
    SpaceNext,
    SpacePrev,
    /// true for uppercase, false for lowercase
    CaseNext,
    CasePrev,
}

/// A text action: a flag and its value
#[derive(Debug, Clone, Copy, PartialEq, Eq, Hash, Structural)]
pub struct TextAction {
    pub action_type: TextActionType,
    /// associated value for each text action (see TextActionType documentation)
    pub val: bool,
}

impl TextAction {
    /// Whether to put a space before the next word (or before the previous one)
    pub fn space(is_next: bool, val: bool) -> (a: Self)
        ensures
            a.action_type == if is_next {
                TextActionType::SpaceNext
            } else {
                TextActionType::SpacePrev
            },
            a.val == val,
    {
        Self {
            action_type: if is_next {
                TextActionType::SpaceNext
            } else {
                TextActionType::SpacePrev
            },
            val,
        }
    }

    /// Whether to upper (or lower) case the next word (or the previous one)
    pub fn case(is_next: bool, val: bool) -> (a: Self)
        ensures
            a.action_type == if is_next {
                TextActionType::CaseNext
            } else {
                TextActionType::CasePrev
            },
            a.val == val,
    {
        Self {
            action_type: if is_next {
                TextActionType::CaseNext
            } else {
                TextActionType::CasePrev
            },
            val,
        }
    }
}

/// A dictionary entry: text, an unknown stroke, text actions, or a command
#[derive(Debug, PartialEq, Eq)]
pub enum Translation {
    Text(String),
    UnknownStroke(Stroke),
    TextAction(Vec<TextAction>),
    Command(Command),
}

/// The value of a translation
pub enum TranslationV {
    Text(Seq<char>),
    UnknownStroke(Seq<char>),
    TextAction(Seq<TextAction>),
    Command(CommandV),
}

impl View for Translation {
    type V = TranslationV;

    open spec fn view(&self) -> TranslationV {
        match self {
            Translation::Text(s) => TranslationV::Text(s@),
            Translation::UnknownStroke(s) => TranslationV::UnknownStroke(s@),
            Translation::TextAction(a) => TranslationV::TextAction(a@),
            Translation::Command(c) => TranslationV::Command(c@),
        }
    }
}

/// The values of a list of translations
pub open spec fn translations_view(v: Seq<Translation>) -> Seq<TranslationV> {
    v.map_values(|t: Translation| t@)
}

/// Copies a list of text actions
pub fn copy_actions(v: &Vec<TextAction>) -> (r: Vec<TextAction>)
    ensures
        r@ == v@,
{
    let mut r: Vec<TextAction> = Vec::new();
    let mut i: usize = 0;
    while i < v.len()
        invariant
            i <= v.len(),
            r@ == v@.take(i as int),
        decreases v.len() - i,
    {
        r.push(v[i]);
        i += 1;
        assert(r@ =~= v@.take(i as int));
    }
    assert(v@.take(i as int) =~= v@);
    r
}

impl Clone for Translation {
    fn clone(&self) -> (r: Self)
        ensures
            r@ == self@,
    {
        match self {
            Translation::Text(s) => Translation::Text(s.clone()),
            Translation::UnknownStroke(s) => Translation::UnknownStroke(s.clone()),
            Translation::TextAction(a) => Translation::TextAction(copy_actions(a)),
            Translation::Command(c) => Translation::Command(c.clone()),
        }
    }
}

fn same_actions(a: &Vec<TextAction>, b: &Vec<TextAction>) -> (r: bool)
    ensures
        r == (a@ == b@),
{
    if a.len() != b.len() {
        return false;
    }
    let mut i: usize = 0;
    while i < a.len()
        invariant
            i <= a.len() == b.len(),
            a@.take(i as int) == b@.take(i as int),
        decreases a.len() - i,
    {
        if a[i] != b[i] {
            assert(a@[i as int] != b@[i as int]);
            return false;
        }
        assert(a@.take(i + 1) =~= a@.take(i as int).push(a@[i as int]));
        assert(b@.take(i + 1) =~= b@.take(i as int).push(b@[i as int]));
        i += 1;
    }
    assert(a@.take(i as int) =~= a@);
    assert(b@.take(i as int) =~= b@);
    true
}

impl Translation {
    /// A text translation
    pub fn text(text: &str) -> (t: Self)
        ensures
            t@ == TranslationV::Text(text@),
    {
        Translation::Text(text.to_owned())
    }

    /// Whether it is a command
    pub fn is_command(&self) -> (b: bool)
        ensures
            b == (self@ is Command),
    {
        match self {
            Translation::Command(_) => true,
            _ => false,
        }
    }

    /// Whether two translations are the same
    pub fn same(&self, other: &Self) -> (b: bool)
        ensures
            b == (self@ == other@),
    {
        match (self, other) {
            (Translation::Text(a), Translation::Text(b)) => *a == *b,
            (Translation::UnknownStroke(a), Translation::UnknownStroke(b)) => *a == *b,
            (Translation::TextAction(a), Translation::TextAction(b)) => same_actions(a, b),
            (Translation::Command(a), Translation::Command(b)) => a.same(b),
            _ => false,
        }
    }
}

} // verus!
