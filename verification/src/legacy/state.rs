//! The translation state of the first generation: the strokes that can still be undone, and how a
//! new stroke or an undo turns into a command.
use crate::base::stroke::Stroke;
use crate::legacy::commands::{Command, CommandV};
use crate::legacy::dictionary::Dictionary;
use crate::legacy::diff::{translation_diff, translation_diff_spec};
use crate::legacy::translate::{translate_spec, translate_strokes};
use crate::legacy::types::TranslationV;
use crate::standard::dictionary::strokes_view;
use vstd::prelude::*;

verus! {

/// Most number of strokes to keep; limits undo to this many strokes
pub const MAX_STROKE_BUFFER: usize = 100;

/// The strokes translated so far
#[derive(Debug, PartialEq)]
pub struct State {
    // should only include "undo-able" strokes (this excludes commands)
    prev_strokes: Vec<Stroke>,
}

impl View for State {
    type V = Seq<Seq<char>>;

    closed spec fn view(&self) -> Seq<Seq<char>> {
        strokes_view(self.prev_strokes@)
    }
}

impl Default for State {
    fn default() -> (s: Self)
        ensures
            s@ == Seq::<Seq<char>>::empty(),
    {
        let s = State { prev_strokes: Vec::new() };
        assert(s@ =~= Seq::<Seq<char>>::empty());
        s
    }
}

impl State {
    /// A state in which the strokes were translated
    pub fn with_strokes(prev_strokes: Vec<Stroke>) -> (s: Self)
        ensures
            s@ == strokes_view(prev_strokes@),
    {
        State { prev_strokes }
    }

    /// The number of strokes kept
    pub fn len(&self) -> (n: usize)
        ensures
            n == self@.len(),
    {
        self.prev_strokes.len()
    }
}

/// The strokes kept before a new one is added: the oldest one goes when there are more than
/// `MAX_STROKE_BUFFER`
pub open spec fn buffered(strokes: Seq<Seq<char>>) -> Seq<Seq<char>> {
    if strokes.len() > MAX_STROKE_BUFFER {
        strokes.skip(1)
    } else {
        strokes
    }
}

/// The command for a new stroke, and the strokes kept after it: the translations of the kept
/// strokes with the new one are diffed against those without it
pub open spec fn translate_state_spec(
    d: Map<Seq<char>, TranslationV>,
    strokes: Seq<Seq<char>>,
    stroke: Seq<char>,
) -> (CommandV, Seq<Seq<char>>) {
    let kept = buffered(strokes);
    let next = kept.push(stroke);
    (translation_diff_spec(translate_spec(d, kept), translate_spec(d, next)), next)
}

/// The strokes left after an undo: the stroke that asked for the undo and the one before it go
pub open spec fn undone(strokes: Seq<Seq<char>>) -> Seq<Seq<char>> {
    if strokes.len() >= 2 {
        strokes.take(strokes.len() - 2)
    } else {
        Seq::empty()
    }
}

/// The command for an undo, and the strokes left after it
pub open spec fn undo_spec(d: Map<Seq<char>, TranslationV>, strokes: Seq<Seq<char>>) -> (
    CommandV,
    Seq<Seq<char>>,
) {
    (
        translation_diff_spec(translate_spec(d, strokes), translate_spec(d, undone(strokes))),
        undone(strokes),
    )
}

/// Translating a stroke, then the stroke that asks for an undo, and then undoing leaves the
/// strokes as they were before the first stroke (when the buffer dropped none)
pub proof fn lemma_translate_then_undo_restores(
    d: Map<Seq<char>, TranslationV>,
    strokes: Seq<Seq<char>>,
    stroke: Seq<char>,
    undo_stroke: Seq<char>,
)
    requires
        strokes.len() < MAX_STROKE_BUFFER,
    ensures
        undo_spec(
            d,
            translate_state_spec(d, translate_state_spec(d, strokes, stroke).1, undo_stroke).1,
        ).1 == strokes,
{
    let once = translate_state_spec(d, strokes, stroke).1;
    assert(once == strokes.push(stroke));
    let twice = translate_state_spec(d, once, undo_stroke).1;
    assert(twice == strokes.push(stroke).push(undo_stroke));
    assert(undone(twice) =~= strokes);
}

/// Translates a new stroke: the command that changes the output from the translation of the old
/// strokes to that of the strokes with the new one
pub fn translate(stroke: Stroke, dict: &Dictionary, state: State) -> (r: (Command, State))
    ensures
        (r.0@, r.1@) == translate_state_spec(dict@, state@, stroke@),
{
    let ghost strokes = state@;
    let mut state = state;
    if state.prev_strokes.len() > MAX_STROKE_BUFFER {
        state.prev_strokes.remove(0);
        assert(strokes_view(state.prev_strokes@) =~= strokes.skip(1));
    }
    assert(state@ == buffered(strokes));
    let old_translations = translate_strokes(&state.prev_strokes, dict);
    let ghost stroke_view = stroke@;
    state.prev_strokes.push(stroke);
    assert(state@ =~= buffered(strokes).push(stroke_view));
    let new_translations = translate_strokes(&state.prev_strokes, dict);
    let command = translation_diff(&old_translations, &new_translations);
    (command, state)
}

/// Undoes the last stroke: the stroke that asked for the undo and the one before it are dropped
pub fn undo(dict: &Dictionary, state: State) -> (r: (Command, State))
    ensures
        (r.0@, r.1@) == undo_spec(dict@, state@),
{
    let ghost strokes = state@;
    let mut state = state;
    let old_translations = translate_strokes(&state.prev_strokes, dict);
    // need to remove two strokes: the one that triggered the undo and the stroke to be undone
    state.prev_strokes.pop();
    state.prev_strokes.pop();
    assert(state@ =~= undone(strokes));
    let new_translations = translate_strokes(&state.prev_strokes, dict);
    let command = translation_diff(&old_translations, &new_translations);
    (command, state)
}

} // verus!
