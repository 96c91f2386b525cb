//! The standard translator: it keeps the strokes pressed so far and types the difference between
//! their translations before and after each new stroke.
use crate::base::commands::{commands_view, Command, CommandV};
use crate::base::stroke::Stroke;
use crate::base::Translator;
use crate::standard::dictionary::{strokes_view, Dictionary};
use crate::standard::load::{dictionaries_spec, raw_view, ParseError, ParseErrorV};
use crate::standard::diff::{
    apply_commands, lemma_apply_one_command, lemma_translation_diff_types_new_text,
    translation_diff, translation_diff_spec,
};
use crate::standard::parser::render;
use crate::standard::translate::{
    dict_has_no_commands, lemma_translate_no_commands, translate_from, translate_spec,
    translations_view_of,
};
use crate::standard::types::{all_texts, texts_view, Text, TextV, Translation, TranslationV};
use vstd::prelude::*;

verus! {

/// Most strokes kept; limits undo to this many strokes
pub const MAX_STROKE_BUFFER: usize = 50;

/// Only this many of the latest strokes are translated when a stroke is pressed
pub const MAX_TRANSLATION_STROKE_LEN: usize = 10;

/// Whether a text puts out something that can be undone
pub open spec fn text_can_be_undone(t: TextV) -> bool {
    match t {
        TextV::TextAction(_) | TextV::StateAction(_) => false,
        TextV::UnknownStroke(_) => true,
        TextV::Attached { text, .. } => text.len() > 0,
        TextV::Glued(text) => text.len() > 0,
        TextV::Lit(text) => text.len() > 0,
    }
}

/// Whether some text of the list can be undone
pub open spec fn any_text_can_be_undone(a: Seq<TextV>) -> bool {
    exists|i: int| 0 <= i < a.len() && text_can_be_undone(#[trigger] a[i])
}

/// Commands, text actions, and text of length 0 cannot be undone; a command can only be undone
/// through text that comes after it
pub open spec fn can_be_undone_spec(t: TranslationV) -> bool {
    match t {
        TranslationV::Command { text_after, .. } => match text_after {
            Some(a) => any_text_can_be_undone(a),
            None => false,
        },
        TranslationV::Text(x) => text_can_be_undone(x),
    }
}

/// Whether some translation of the list can be undone
pub open spec fn any_can_be_undone(ts: Seq<TranslationV>) -> bool {
    exists|i: int| 0 <= i < ts.len() && can_be_undone_spec(#[trigger] ts[i])
}

/// Whether the translation of a stroke on its own can be undone
pub open spec fn stroke_can_be_undone(d: Map<Seq<char>, Seq<TranslationV>>, s: Seq<char>) -> bool {
    any_can_be_undone(translate_spec(d, seq![s]))
}

/// The index of the last of the first `n` strokes whose own translation can be undone; 0 when
/// none can
pub open spec fn last_undoable(
    d: Map<Seq<char>, Seq<TranslationV>>,
    strokes: Seq<Seq<char>>,
    n: int,
) -> int
    decreases n,
{
    if n <= 0 || n > strokes.len() {
        0
    } else if stroke_can_be_undone(d, strokes[n - 1]) {
        n - 1
    } else {
        last_undoable(d, strokes, n - 1)
    }
}

/// The value of a standard translator
pub struct TranslatorV {
    pub prev_strokes: Seq<Seq<char>>,
    pub dict: Map<Seq<char>, Seq<TranslationV>>,
    pub retrospective_add_space: Seq<Seq<char>>,
    pub add_space_insert: Option<Seq<char>>,
    pub space_after: bool,
}

/// The strokes kept before a new stroke is added: the oldest goes when there are too many
pub open spec fn trimmed(strokes: Seq<Seq<char>>) -> Seq<Seq<char>> {
    if strokes.len() > MAX_STROKE_BUFFER {
        strokes.skip(1)
    } else {
        strokes
    }
}

/// Where the strokes that are translated start
pub open spec fn window_start(strokes: Seq<Seq<char>>) -> int {
    if strokes.len() > MAX_TRANSLATION_STROKE_LEN {
        strokes.len() - MAX_TRANSLATION_STROKE_LEN
    } else {
        0
    }
}

/// The strokes after a stroke is pressed. A stroke of `retrospective_add_space` is not kept:
/// instead the `add_space_insert` stroke is put before the last stroke that can be undone
pub open spec fn strokes_after(t: TranslatorV, stroke: Seq<char>) -> Seq<Seq<char>> {
    let p = trimmed(t.prev_strokes);
    if t.retrospective_add_space.contains(stroke) {
        match t.add_space_insert {
            Some(space) => p.insert(last_undoable(t.dict, p, p.len() as int), space),
            None => p,
        }
    } else {
        p.push(stroke)
    }
}

/// The commands a stroke gives: the difference between the translations of the latest strokes
/// before and after it
pub open spec fn translate_commands(t: TranslatorV, stroke: Seq<char>) -> Seq<CommandV> {
    let p = trimmed(t.prev_strokes);
    let start = window_start(p);
    translation_diff_spec(
        translate_spec(t.dict, p.skip(start)),
        translate_spec(t.dict, strokes_after(t, stroke).skip(start)),
        t.space_after,
    )
}

/// The strokes left after an undo: strokes are removed from the end up to and including the
/// last one whose translation can be undone (all of them when none can)
pub open spec fn strokes_after_undo(
    d: Map<Seq<char>, Seq<TranslationV>>,
    strokes: Seq<Seq<char>>,
) -> Seq<Seq<char>> {
    strokes.take(last_undoable(d, strokes, strokes.len() as int))
}

/// The commands an undo gives: the difference between the translations of all the strokes before
/// and after it
pub open spec fn undo_commands(t: TranslatorV) -> Seq<CommandV> {
    translation_diff_spec(
        translate_spec(t.dict, t.prev_strokes),
        translate_spec(t.dict, strokes_after_undo(t.dict, t.prev_strokes)),
        t.space_after,
    )
}

proof fn lemma_last_undoable_bounds(
    d: Map<Seq<char>, Seq<TranslationV>>,
    strokes: Seq<Seq<char>>,
    n: int,
)
    ensures
        0 <= last_undoable(d, strokes, n),
        n > 0 ==> last_undoable(d, strokes, n) < n,
    decreases n,
{
    if n > 0 && n <= strokes.len() && !stroke_can_be_undone(d, strokes[n - 1]) {
        lemma_last_undoable_bounds(d, strokes, n - 1);
    }
}

/// Undo takes back a stroke that was added to the strokes, when its own translation can be undone
pub proof fn lemma_undo_removes_added_stroke(
    d: Map<Seq<char>, Seq<TranslationV>>,
    strokes: Seq<Seq<char>>,
    stroke: Seq<char>,
)
    requires
        stroke_can_be_undone(d, stroke),
    ensures
        strokes_after_undo(d, strokes.push(stroke)) == strokes,
{
    let p = strokes.push(stroke);
    assert(p[p.len() - 1] == stroke);
    assert(p.take(strokes.len() as int) =~= strokes);
}

/// Undoing right after a stroke takes back that stroke: the strokes are what they were before
/// it, when the stroke's own translation can be undone, it is not a stroke for adding a space,
/// and no old stroke had to make room for it
pub proof fn lemma_translate_then_undo(t: TranslatorV, stroke: Seq<char>)
    requires
        t.prev_strokes.len() <= MAX_STROKE_BUFFER,
        !t.retrospective_add_space.contains(stroke),
        stroke_can_be_undone(t.dict, stroke),
    ensures
        strokes_after_undo(t.dict, strokes_after(t, stroke)) == t.prev_strokes,
{
    assert(trimmed(t.prev_strokes) == t.prev_strokes);
    lemma_undo_removes_added_stroke(t.dict, t.prev_strokes, stroke);
}

/// The text that the translations of strokes put out
pub open spec fn shown_text(
    d: Map<Seq<char>, Seq<TranslationV>>,
    strokes: Seq<Seq<char>>,
    space_after: bool,
) -> Seq<char> {
    render(all_texts(translate_spec(d, strokes), space_after), space_after)
}

/// Undoing right after a stroke takes back the text it typed: the commands of the stroke and then
/// those of the undo, applied to the text the strokes had put out, give that text again. This
/// holds when the stroke's own translation can be undone, it is not a stroke for adding a space,
/// the dictionary has no commands, and all the strokes are in the window that is translated
pub proof fn lemma_translate_then_undo_restores_text(t: TranslatorV, stroke: Seq<char>)
    requires
        t.prev_strokes.len() <= MAX_TRANSLATION_STROKE_LEN,
        !t.retrospective_add_space.contains(stroke),
        stroke_can_be_undone(t.dict, stroke),
        dict_has_no_commands(t.dict),
        shown_text(t.dict, t.prev_strokes, t.space_after).len() <= usize::MAX,
        shown_text(t.dict, t.prev_strokes.push(stroke), t.space_after).len() <= usize::MAX,
    ensures
        apply_commands(
            apply_commands(
                shown_text(t.dict, t.prev_strokes, t.space_after),
                translate_commands(t, stroke),
            ),
            undo_commands(TranslatorV { prev_strokes: strokes_after(t, stroke), ..t }),
        ) == shown_text(t.dict, t.prev_strokes, t.space_after),
{
    let p = t.prev_strokes;
    let q = p.push(stroke);
    let d = t.dict;
    assert(trimmed(p) == p);
    assert(window_start(p) == 0);
    assert(p.skip(0) =~= p);
    assert(strokes_after(t, stroke) == q);
    assert(q.skip(0) =~= q);
    let before = translate_spec(d, p);
    let after = translate_spec(d, q);
    lemma_translate_no_commands(d, p);
    lemma_translate_no_commands(d, q);
    if before.len() + 1 == after.len() {
        assert(!(after[after.len() - 1] is Command));
    }
    if after.len() + 1 == before.len() {
        assert(!(before[before.len() - 1] is Command));
    }
    lemma_translation_diff_types_new_text(before, after, t.space_after);
    lemma_translation_diff_types_new_text(after, before, t.space_after);
    lemma_undo_removes_added_stroke(d, p, stroke);
    let first = translate_commands(t, stroke);
    let second = undo_commands(TranslatorV { prev_strokes: q, ..t });
    lemma_apply_one_command(shown_text(d, p, t.space_after), first);
    lemma_apply_one_command(shown_text(d, q, t.space_after), second);
}

/// The standard translator is very similar in feature to Plover and other CAT software.
///
/// It translates a stroke into a command by looking up the stroke in a dictionary. It maintains a
/// history of pressed strokes and tries to look up the longest stroke in the dictionary. If any
/// stroke in retrospective_add_space is pressed, the `add_space_insert` stroke will be inserted into
/// before the previous (undoable) stroke
pub struct StandardTranslator {
    prev_strokes: Vec<Stroke>,
    dict: Dictionary,
    retrospective_add_space: Vec<Stroke>,
    add_space_insert: Option<Stroke>,
    space_after: bool,
}

impl View for StandardTranslator {
    type V = TranslatorV;

    closed spec fn view(&self) -> TranslatorV {
        TranslatorV {
            prev_strokes: strokes_view(self.prev_strokes@),
            dict: self.dict@,
            retrospective_add_space: strokes_view(self.retrospective_add_space@),
            add_space_insert: match self.add_space_insert {
                Some(s) => Some(s@),
                None => None,
            },
            space_after: self.space_after,
        }
    }
}

/// Whether the translation can be undone
pub fn can_be_undone(translation: &Translation) -> (b: bool)
    ensures
        b == can_be_undone_spec(translation@),
{
    match translation {
        Translation::Command { text_after, .. } => {
            if let Some(text_after) = text_after {
                let ghost a = translation@->text_after->0;
                assert(a == texts_view(text_after@));
                // check all the text that comes after the command
                let mut i: usize = 0;
                while i < text_after.len()
                    invariant
                        i <= text_after.len(),
                        a == texts_view(text_after@),
                        translation@ is Command,
                        translation@->text_after == Some(a),
                        forall|j: int|
                            0 <= j < i ==> !text_can_be_undone(#[trigger] text_after@[j]@),
                    decreases text_after.len() - i,
                {
                    if text_can_be_undone_exec(&text_after[i]) {
                        assert(a[i as int] == text_after@[i as int]@);
                        assert(0 <= i < a.len() && text_can_be_undone(a[i as int]));
                        assert(any_text_can_be_undone(a));
                        return true;
                    }
                    i += 1;
                }
                proof {
                    assert forall|j: int| 0 <= j < a.len() implies !text_can_be_undone(
                        #[trigger] a[j],
                    ) by {
                        assert(a[j] == text_after@[j]@);
                    }
                }
            }
            false
        },
        Translation::Text(text) => text_can_be_undone_exec(text),
    }
}

fn text_can_be_undone_exec(text: &Text) -> (b: bool)
    ensures
        b == text_can_be_undone(text@),
{
    match text {
        Text::TextAction(_) | Text::StateAction(_) => false,
        Text::UnknownStroke(_) => true,
        Text::Attached { text, .. } => !text.as_str().is_empty(),
        Text::Glued(text) => !text.as_str().is_empty(),
        Text::Lit(text) => !text.as_str().is_empty(),
    }
}

fn any_undoable(ts: &Vec<Translation>) -> (b: bool)
    ensures
        b == any_can_be_undone(translations_view_of(*ts)),
{
    let mut i: usize = 0;
    while i < ts.len()
        invariant
            i <= ts.len(),
            forall|j: int| 0 <= j < i ==> !can_be_undone_spec(#[trigger] ts@[j]@),
        decreases ts.len() - i,
    {
        if can_be_undone(&ts[i]) {
            assert(translations_view_of(*ts)[i as int] == ts@[i as int]@);
            return true;
        }
        i += 1;
    }
    proof {
        let v = translations_view_of(*ts);
        assert forall|j: int| 0 <= j < v.len() implies !can_be_undone_spec(#[trigger] v[j]) by {
            assert(v[j] == ts@[j]@);
        }
    }
    false
}

impl StandardTranslator {
    /// Whether the translation of this stroke alone can be undone
    fn stroke_undoable(&self, stroke: &Stroke) -> (b: bool)
        ensures
            b == stroke_can_be_undone(self@.dict, stroke@),
    {
        let single = vec![stroke.clone()];
        assert(strokes_view(single@).skip(0) =~= seq![stroke@]);
        let translated = translate_from(&self.dict, single.as_slice(), 0);
        any_undoable(&translated)
    }

    /// The index of the last of the first `n` strokes that can be undone by itself; 0 when none
    fn last_undoable_stroke(&self) -> (r: usize)
        ensures
            r == last_undoable(self@.dict, self@.prev_strokes, self@.prev_strokes.len() as int),
    {
        let mut n: usize = self.prev_strokes.len();
        while n > 0
            invariant
                n <= self.prev_strokes.len(),
                last_undoable(self@.dict, self@.prev_strokes, n as int) == last_undoable(
                    self@.dict,
                    self@.prev_strokes,
                    self@.prev_strokes.len() as int,
                ),
            decreases n,
        {
            assert(self@.prev_strokes[n - 1] == self.prev_strokes@[n - 1]@);
            if self.stroke_undoable(&self.prev_strokes[n - 1]) {
                return n - 1;
            }
            n -= 1;
        }
        0
    }

    /// Remove all strokes that cannot be undone (currently Commands and text actions), and the
    /// last one that can
    fn remove_non_undoable_strokes(&mut self)
        ensures
            final(self)@ == (TranslatorV {
                prev_strokes: strokes_after_undo(old(self)@.dict, old(self)@.prev_strokes),
                ..old(self)@
            }),
    {
        let keep = self.last_undoable_stroke();
        proof {
            lemma_last_undoable_bounds(
                self@.dict,
                self@.prev_strokes,
                self@.prev_strokes.len() as int,
            );
        }
        self.prev_strokes.truncate(keep);
        assert(self@.prev_strokes =~= strokes_after_undo(old(self)@.dict, old(self)@.prev_strokes));
    }

    /// Creates a translator that takes the raw dictionary string from one or more dictionaries. The
    /// dictionaries further down in the list can override the earlier dictionaries.
    ///
    /// The starting strokes will be added to the stroke list when the translator is created.
    ///
    /// It has strokes for retroactively adding a space and the space stroke that is actually
    /// added; there must be such a space stroke when there are strokes for adding it
    pub fn new(
        raw_dicts: Vec<String>,
        starting_strokes: Vec<Stroke>,
        retrospective_add_space: Vec<Stroke>,
        add_space_insert: Option<Stroke>,
        space_after: bool,
    ) -> (r: Result<Self, ParseError>)
        requires
            dictionaries_spec(raw_view(raw_dicts@)) is Ok && retrospective_add_space.len() > 0
                ==> add_space_insert is Some,
        ensures
            match r {
                Ok(t) => dictionaries_spec(raw_view(raw_dicts@)) == Ok::<
                    Map<Seq<char>, Seq<TranslationV>>,
                    ParseErrorV,
                >(t@.dict) && t@ == (TranslatorV {
                    prev_strokes: strokes_view(starting_strokes@),
                    dict: t@.dict,
                    retrospective_add_space: strokes_view(retrospective_add_space@),
                    add_space_insert: match add_space_insert {
                        Some(s) => Some(s@),
                        None => None,
                    },
                    space_after,
                }),
                Err(e) => dictionaries_spec(raw_view(raw_dicts@)) == Err::<
                    Map<Seq<char>, Seq<TranslationV>>,
                    ParseErrorV,
                >(e@),
            },
    {
        let dict = Dictionary::new(raw_dicts)?;
        Ok(
            Self::with_dictionary(
                dict,
                starting_strokes,
                retrospective_add_space,
                add_space_insert,
                space_after,
            ),
        )
    }

    /// Creates a translator from a dictionary. The starting strokes are the strokes it starts
    /// with. It has strokes for retroactively adding a space and the space stroke that is
    /// actually added
    pub fn with_dictionary(
        dict: Dictionary,
        starting_strokes: Vec<Stroke>,
        retrospective_add_space: Vec<Stroke>,
        add_space_insert: Option<Stroke>,
        space_after: bool,
    ) -> (t: Self)
        requires
            retrospective_add_space.len() > 0 ==> add_space_insert is Some,
        ensures
            t@ == (TranslatorV {
                prev_strokes: strokes_view(starting_strokes@),
                dict: dict@,
                retrospective_add_space: strokes_view(retrospective_add_space@),
                add_space_insert: match add_space_insert {
                    Some(s) => Some(s@),
                    None => None,
                },
                space_after,
            }),
    {
        Self {
            prev_strokes: starting_strokes,
            dict,
            retrospective_add_space,
            add_space_insert,
            space_after,
        }
    }
}

impl Translator for StandardTranslator {
    fn translate(&mut self, stroke: Stroke) -> (r: Vec<Command>)
        ensures
            commands_view(r@) == translate_commands(old(self)@, stroke@),
            final(self)@ == (TranslatorV {
                prev_strokes: strokes_after(old(self)@, stroke@),
                ..old(self)@
            }),
    {
        if self.prev_strokes.len() > MAX_STROKE_BUFFER {
            self.prev_strokes.remove(0);
            assert(strokes_view(self.prev_strokes@) =~= trimmed(old(self)@.prev_strokes));
        }
        let ghost p = self@.prev_strokes;
        assert(p == trimmed(old(self)@.prev_strokes));

        // translate only latest strokes
        let start = if self.prev_strokes.len() > MAX_TRANSLATION_STROKE_LEN {
            self.prev_strokes.len() - MAX_TRANSLATION_STROKE_LEN
        } else {
            0
        };

        let old_translations = translate_from(&self.dict, self.prev_strokes.as_slice(), start);

        // add a space if necessary
        let mut is_retro = false;
        let mut i: usize = 0;
        while i < self.retrospective_add_space.len() && !is_retro
            invariant
                i <= self.retrospective_add_space.len(),
                is_retro ==> i < self.retrospective_add_space.len()
                    && self.retrospective_add_space@[i as int]@ == stroke@,
                forall|j: int|
                    0 <= j < i ==> #[trigger] self.retrospective_add_space@[j]@ != stroke@,
            decreases self.retrospective_add_space.len() - i + if is_retro {
                0int
            } else {
                1int
            },
        {
            if self.retrospective_add_space[i] == stroke {
                is_retro = true;
            } else {
                i += 1;
            }
        }
        proof {
            let retro = self@.retrospective_add_space;
            if is_retro {
                assert(retro[i as int] == stroke@);
            } else {
                assert forall|j: int| 0 <= j < retro.len() implies retro[j] != stroke@ by {
                    assert(retro[j] == self.retrospective_add_space@[j]@);
                }
            }
        }
        if is_retro {
            // find the first undoable stroke (from the back)
            let index = self.last_undoable_stroke();
            proof {
                lemma_last_undoable_bounds(self@.dict, p, p.len() as int);
            }
            // add a space
            if let Some(space) = &self.add_space_insert {
                let space = space.clone();
                self.prev_strokes.insert(index, space);
                assert(strokes_view(self.prev_strokes@) =~= p.insert(index as int, space@));
            }
        } else {
            self.prev_strokes.push(stroke);
            assert(strokes_view(self.prev_strokes@) =~= p.push(stroke@));
        }

        let new_translations = translate_from(&self.dict, self.prev_strokes.as_slice(), start);
        translation_diff(&old_translations, &new_translations, self.space_after)
    }

    fn undo(&mut self) -> (r: Vec<Command>)
        ensures
            commands_view(r@) == undo_commands(old(self)@),
            final(self)@ == (TranslatorV {
                prev_strokes: strokes_after_undo(old(self)@.dict, old(self)@.prev_strokes),
                ..old(self)@
            }),
    {
        assert(strokes_view(self.prev_strokes@).skip(0) =~= self@.prev_strokes);
        let old_translations = translate_from(&self.dict, self.prev_strokes.as_slice(), 0);
        self.remove_non_undoable_strokes();
        assert(strokes_view(self.prev_strokes@).skip(0) =~= self@.prev_strokes);
        let new_translations = translate_from(&self.dict, self.prev_strokes.as_slice(), 0);
        translation_diff(&old_translations, &new_translations, self.space_after)
    }
}

} // verus!
