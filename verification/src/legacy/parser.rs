//! Converts translations into their string representation: consecutive text actions are merged
//! into a set of flags, and each word looks at the flags just before and just after it.
use crate::base::stroke::Stroke;
use crate::legacy::types::{TextAction, TextActionType};
use crate::standard::parser::change_first_letter;
use crate::text::{chars_of, push_char, push_str, string_from_chars};
use vstd::prelude::*;

verus! {

/// The flags a run of text actions sets; a later action overrides an earlier one of the same type
#[derive(Debug, Clone, Copy, PartialEq, Eq, Structural)]
pub struct ActionSet {
    pub space_next: Option<bool>,
    pub space_prev: Option<bool>,
    pub case_next: Option<bool>,
    pub case_prev: Option<bool>,
}

/// No flag set
pub open spec fn no_actions() -> ActionSet {
    ActionSet { space_next: None, space_prev: None, case_next: None, case_prev: None }
}

/// The flags after an action
pub open spec fn with_action(s: ActionSet, a: TextAction) -> ActionSet {
    match a.action_type {
        TextActionType::SpaceNext => ActionSet { space_next: Some(a.val), ..s },
        TextActionType::SpacePrev => ActionSet { space_prev: Some(a.val), ..s },
        TextActionType::CaseNext => ActionSet { case_next: Some(a.val), ..s },
        TextActionType::CasePrev => ActionSet { case_prev: Some(a.val), ..s },
    }
}

/// The flags after the actions, in order
pub open spec fn with_actions(s: ActionSet, actions: Seq<TextAction>) -> ActionSet
    decreases actions.len(),
{
    if actions.len() == 0 {
        s
    } else {
        with_action(with_actions(s, actions.drop_last()), actions.last())
    }
}

impl ActionSet {
    /// No flag set
    pub fn new() -> (s: Self)
        ensures
            s == no_actions(),
    {
        ActionSet { space_next: None, space_prev: None, case_next: None, case_prev: None }
    }

    /// Sets a flag
    pub fn insert(&mut self, action_type: TextActionType, val: bool)
        ensures
            *final(self) == with_action(*old(self), TextAction { action_type, val }),
    {
        match action_type {
            TextActionType::SpaceNext => self.space_next = Some(val),
            TextActionType::SpacePrev => self.space_prev = Some(val),
            TextActionType::CaseNext => self.case_next = Some(val),
            TextActionType::CasePrev => self.case_prev = Some(val),
        }
    }

    /// The value of a flag, if set
    pub fn get(&self, action_type: TextActionType) -> (r: Option<bool>)
        ensures
            r == match action_type {
                TextActionType::SpaceNext => self.space_next,
                TextActionType::SpacePrev => self.space_prev,
                TextActionType::CaseNext => self.case_next,
                TextActionType::CasePrev => self.case_prev,
            },
    {
        match action_type {
            TextActionType::SpaceNext => self.space_next,
            TextActionType::SpacePrev => self.space_prev,
            TextActionType::CaseNext => self.case_next,
            TextActionType::CasePrev => self.case_prev,
        }
    }

    /// The flags set by the pairs, in order
    pub fn from_pairs(pairs: Vec<(TextActionType, bool)>) -> (s: Self)
        ensures
            s == with_actions(
                no_actions(),
                pairs@.map_values(|p: (TextActionType, bool)| TextAction { action_type: p.0, val: p.1 }),
            ),
    {
        let ghost all = pairs@.map_values(
            |p: (TextActionType, bool)| TextAction { action_type: p.0, val: p.1 },
        );
        let mut s = ActionSet::new();
        let mut i: usize = 0;
        while i < pairs.len()
            invariant
                i <= pairs.len(),
                all == pairs@.map_values(
                    |p: (TextActionType, bool)| TextAction { action_type: p.0, val: p.1 },
                ),
                s == with_actions(no_actions(), all.take(i as int)),
            decreases pairs.len() - i,
        {
            assert(all.take(i + 1).drop_last() =~= all.take(i as int));
            s.insert(pairs[i].0, pairs[i].1);
            i += 1;
        }
        assert(all.take(i as int) =~= all);
        s
    }
}

/// A translation that does not have a command
#[derive(Debug)]
pub enum TranslationNoCommand {
    Text(String),
    UnknownStroke(Stroke),
    TextAction(Vec<TextAction>),
}

/// The value of a translation without a command
pub enum NoCommandV {
    Text(Seq<char>),
    UnknownStroke(Seq<char>),
    TextAction(Seq<TextAction>),
}

impl View for TranslationNoCommand {
    type V = NoCommandV;

    open spec fn view(&self) -> NoCommandV {
        match self {
            TranslationNoCommand::Text(s) => NoCommandV::Text(s@),
            TranslationNoCommand::UnknownStroke(s) => NoCommandV::UnknownStroke(s@),
            TranslationNoCommand::TextAction(a) => NoCommandV::TextAction(a@),
        }
    }
}

/// The values of translations without commands
pub open spec fn no_commands_view(v: Seq<TranslationNoCommand>) -> Seq<NoCommandV> {
    v.map_values(|t: TranslationNoCommand| t@)
}

/// Text literals and merged text actions
#[derive(Debug, PartialEq)]
pub enum Text {
    /// text literal, such as from a translation or a unknown stroke
    Lit(String),
    /// actions that could apply to the previous or the next word and its boolean value
    Actions(ActionSet),
}

/// The value of a merged text
pub enum TextV {
    Lit(Seq<char>),
    Actions(ActionSet),
}

impl View for Text {
    type V = TextV;

    open spec fn view(&self) -> TextV {
        match self {
            Text::Lit(s) => TextV::Lit(s@),
            Text::Actions(a) => TextV::Actions(*a),
        }
    }
}

/// The values of merged texts
pub open spec fn merged_view(v: Seq<Text>) -> Seq<TextV> {
    v.map_values(|t: Text| t@)
}

/// The merged texts so far and the run of text actions not yet closed
pub struct Merging {
    pub acc: Seq<TextV>,
    pub actions: Option<ActionSet>,
}

/// The run of actions, closed before a literal
pub open spec fn close_actions(m: Merging) -> Seq<TextV> {
    match m.actions {
        Some(a) => m.acc.push(TextV::Actions(a)),
        None => m.acc,
    }
}

/// The effect of one translation on the merging
pub open spec fn merge_step(m: Merging, t: NoCommandV) -> Merging {
    match t {
        NoCommandV::Text(s) => Merging { acc: close_actions(m).push(TextV::Lit(s)), actions: None },
        NoCommandV::UnknownStroke(s) => Merging {
            acc: close_actions(m).push(TextV::Lit(s)),
            actions: None,
        },
        NoCommandV::TextAction(list) => Merging {
            acc: m.acc,
            actions: Some(
                with_actions(
                    match m.actions {
                        Some(a) => a,
                        None => no_actions(),
                    },
                    list,
                ),
            ),
        },
    }
}

/// The merging after the translations
pub open spec fn merge_all(ts: Seq<NoCommandV>) -> Merging
    decreases ts.len(),
{
    if ts.len() == 0 {
        Merging { acc: Seq::empty(), actions: None }
    } else {
        merge_step(merge_all(ts.drop_last()), ts.last())
    }
}

/// The translations with each run of consecutive text actions merged into one set of flags
pub open spec fn merge_spec(ts: Seq<NoCommandV>) -> Seq<TextV> {
    close_actions(merge_all(ts))
}

/// The literal texts of translations, in order: texts and unknown strokes
pub open spec fn literals_of(ts: Seq<NoCommandV>) -> Seq<Seq<char>>
    decreases ts.len(),
{
    if ts.len() == 0 {
        Seq::empty()
    } else {
        literals_of(ts.drop_last()) + match ts.last() {
            NoCommandV::Text(s) => seq![s],
            NoCommandV::UnknownStroke(s) => seq![s],
            NoCommandV::TextAction(_) => Seq::empty(),
        }
    }
}

/// The literals of merged texts, in order
pub open spec fn merged_literals(m: Seq<TextV>) -> Seq<Seq<char>>
    decreases m.len(),
{
    if m.len() == 0 {
        Seq::empty()
    } else {
        merged_literals(m.drop_last()) + match m.last() {
            TextV::Lit(s) => seq![s],
            TextV::Actions(_) => Seq::empty(),
        }
    }
}

/// Whether no two sets of flags stand side by side
pub open spec fn no_adjacent_actions(m: Seq<TextV>) -> bool {
    forall|k: int| 0 <= k < m.len() - 1 ==> !(#[trigger] m[k] is Actions && m[k + 1] is Actions)
}

proof fn lemma_push_lit(m: Seq<TextV>, s: Seq<char>)
    requires
        no_adjacent_actions(m),
    ensures
        no_adjacent_actions(m.push(TextV::Lit(s))),
        merged_literals(m.push(TextV::Lit(s))) == merged_literals(m) + seq![s],
{
    let r = m.push(TextV::Lit(s));
    assert(r.drop_last() =~= m);
    assert forall|k: int| 0 <= k < r.len() - 1 implies !(#[trigger] r[k] is Actions && r[k
        + 1] is Actions) by {
        if k + 1 < m.len() {
            assert(r[k] == m[k] && r[k + 1] == m[k + 1]);
        }
    }
}

proof fn lemma_close_actions(m: Merging)
    requires
        no_adjacent_actions(m.acc),
        m.acc.len() == 0 || m.acc.last() is Lit,
    ensures
        no_adjacent_actions(close_actions(m)),
        merged_literals(close_actions(m)) == merged_literals(m.acc),
{
    if let Some(a) = m.actions {
        let r = m.acc.push(TextV::Actions(a));
        assert(r.drop_last() =~= m.acc);
        assert(merged_literals(r) =~= merged_literals(m.acc));
        assert forall|k: int| 0 <= k < r.len() - 1 implies !(#[trigger] r[k] is Actions && r[k
            + 1] is Actions) by {
            if k + 1 < m.acc.len() {
                assert(r[k] == m.acc[k] && r[k + 1] == m.acc[k + 1]);
            } else {
                assert(r[k] == m.acc.last());
            }
        }
    }
}

proof fn lemma_merge_all(ts: Seq<NoCommandV>)
    ensures
        no_adjacent_actions(merge_all(ts).acc),
        merge_all(ts).acc.len() == 0 || merge_all(ts).acc.last() is Lit,
        merged_literals(merge_all(ts).acc) == literals_of(ts),
    decreases ts.len(),
{
    if ts.len() > 0 {
        let m = merge_all(ts.drop_last());
        lemma_merge_all(ts.drop_last());
        lemma_close_actions(m);
        match ts.last() {
            NoCommandV::Text(s) => {
                lemma_push_lit(close_actions(m), s);
            },
            NoCommandV::UnknownStroke(s) => {
                lemma_push_lit(close_actions(m), s);
            },
            NoCommandV::TextAction(_) => {
                assert(literals_of(ts) =~= literals_of(ts.drop_last()));
            },
        }
    }
}

/// Merging keeps the literal texts, in their order, and leaves no two sets of flags side by side
pub proof fn lemma_merge_keeps_literals(ts: Seq<NoCommandV>)
    ensures
        merged_literals(merge_spec(ts)) == literals_of(ts),
        no_adjacent_actions(merge_spec(ts)),
{
    lemma_merge_all(ts);
    lemma_close_actions(merge_all(ts));
}

/// Simplifies a series of translations by merging consecutive text actions into a set
pub fn merge_translations(translations: Vec<TranslationNoCommand>) -> (r: Vec<Text>)
    ensures
        merged_view(r@) == merge_spec(no_commands_view(translations@)),
{
    let ghost all = no_commands_view(translations@);
    let mut acc: Vec<Text> = Vec::new();
    let mut actions: Option<ActionSet> = None;
    let mut i: usize = 0;
    assert(merged_view(acc@) =~= Seq::<TextV>::empty());
    assert(all.take(0) =~= Seq::<NoCommandV>::empty());
    while i < translations.len()
        invariant
            i <= translations.len(),
            all == no_commands_view(translations@),
            merge_all(all.take(i as int)) == (Merging { acc: merged_view(acc@), actions }),
        decreases translations.len() - i,
    {
        assert(all.take(i + 1).drop_last() =~= all.take(i as int));
        assert(all.take(i + 1).last() == translations@[i as int]@);
        let ghost before = merged_view(acc@);
        match &translations[i] {
            TranslationNoCommand::Text(text) => {
                if let Some(a) = actions {
                    acc.push(Text::Actions(a));
                    actions = None;
                }
                acc.push(Text::Lit(text.clone()));
            },
            TranslationNoCommand::UnknownStroke(stroke) => {
                if let Some(a) = actions {
                    acc.push(Text::Actions(a));
                    actions = None;
                }
                acc.push(Text::Lit(stroke.clone().to_raw()));
            },
            TranslationNoCommand::TextAction(list) => {
                let mut set = match actions {
                    Some(a) => a,
                    None => ActionSet::new(),
                };
                let ghost first = set;
                let mut k: usize = 0;
                while k < list.len()
                    invariant
                        k <= list.len(),
                        set == with_actions(first, list@.take(k as int)),
                    decreases list.len() - k,
                {
                    assert(list@.take(k + 1).drop_last() =~= list@.take(k as int));
                    set.insert(list[k].action_type, list[k].val);
                    k += 1;
                }
                assert(list@.take(k as int) =~= list@);
                actions = Some(set);
            },
        }
        assert(merged_view(acc@) =~= merge_all(all.take(i + 1)).acc);
        i += 1;
    }
    assert(all.take(i as int) =~= all);
    if let Some(a) = actions {
        acc.push(Text::Actions(a));
    }
    assert(merged_view(acc@) =~= merge_spec(all));
    acc
}

/// Whether a space goes before the word at `k`: by default it does; the flags before it, then
/// those after it, can say otherwise
pub open spec fn word_space(m: Seq<TextV>, k: int) -> bool {
    let after = if k + 1 < m.len() {
        match m[k + 1] {
            TextV::Actions(a) => a.space_prev,
            _ => None,
        }
    } else {
        None
    };
    let before = if k > 0 {
        match m[k - 1] {
            TextV::Actions(a) => a.space_next,
            _ => None,
        }
    } else {
        None
    };
    match after {
        Some(v) => v,
        None => match before {
            Some(v) => v,
            None => true,
        },
    }
}

/// How the word at `k` is cased: the flags after it override those before it
pub open spec fn word_case(m: Seq<TextV>, k: int) -> Option<bool> {
    let after = if k + 1 < m.len() {
        match m[k + 1] {
            TextV::Actions(a) => a.case_prev,
            _ => None,
        }
    } else {
        None
    };
    let before = if k > 0 {
        match m[k - 1] {
            TextV::Actions(a) => a.case_next,
            _ => None,
        }
    } else {
        None
    };
    match after {
        Some(v) => Some(v),
        None => before,
    }
}

/// What the text at `k` types
pub open spec fn piece(m: Seq<TextV>, k: int) -> Seq<char> {
    match m[k] {
        TextV::Lit(s) => (if word_space(m, k) {
            seq![' ']
        } else {
            Seq::empty()
        }) + match word_case(m, k) {
            Some(upper) => change_first_letter(s, upper),
            None => s,
        },
        TextV::Actions(_) => Seq::empty(),
    }
}

/// What the first `n` merged texts type
pub open spec fn render_upto(m: Seq<TextV>, n: int) -> Seq<char>
    decreases n,
{
    if n <= 0 {
        Seq::empty()
    } else {
        render_upto(m, n - 1) + piece(m, n - 1)
    }
}

/// The string of translations without commands
pub open spec fn parse_spec(ts: Seq<NoCommandV>) -> Seq<char> {
    let m = merge_spec(ts);
    render_upto(m, m.len() as int)
}

/// Converts translations into their string representation by adding spaces in between words and
/// applying text actions.
pub fn parse_translation(translations: Vec<TranslationNoCommand>) -> (r: String)
    ensures
        r@ == parse_spec(no_commands_view(translations@)),
{
    let merged = merge_translations(translations);
    let ghost m = merged_view(merged@);
    let mut s = String::new();
    let mut k: usize = 0;
    while k < merged.len()
        invariant
            k <= merged.len(),
            m == merged_view(merged@),
            s@ == render_upto(m, k as int),
        decreases merged.len() - k,
    {
        if let Text::Lit(text_str) = &merged[k] {
            let mut force_space = true;
            let mut uppercase: Option<bool> = None;
            // apply transformations on it by looking ahead and backwards

            // looking backwards first
            if k > 0 {
                if let Text::Actions(actions) = &merged[k - 1] {
                    if let Some(v) = actions.get(TextActionType::SpaceNext) {
                        force_space = v;
                    }
                    if let Some(v) = actions.get(TextActionType::CaseNext) {
                        uppercase = Some(v);
                    }
                }
            }
            // then look ahead, because things ahead can override things behind
            if k + 1 < merged.len() {
                if let Text::Actions(actions) = &merged[k + 1] {
                    if let Some(v) = actions.get(TextActionType::SpacePrev) {
                        force_space = v;
                    }
                    if let Some(v) = actions.get(TextActionType::CasePrev) {
                        uppercase = Some(v);
                    }
                }
            }
            assert(force_space == word_space(m, k as int));
            assert(uppercase == word_case(m, k as int));
            if force_space {
                push_char(&mut s, ' ');
            }
            match uppercase {
                Some(upper) => {
                    let changed = crate::standard::parser::word_change_first_letter(
                        text_str.clone(),
                        upper,
                    );
                    push_str(&mut s, changed.as_str());
                },
                None => push_str(&mut s, text_str.as_str()),
            }
        }
        k += 1;
    }
    s
}

} // verus!
