//! Finding the difference between two translations of the first generation and turning that into
//! a command.
use crate::legacy::commands::{Command, CommandV};
use crate::legacy::parser::{parse_spec, parse_translation, NoCommandV, TranslationNoCommand, no_commands_view};
use crate::legacy::types::{copy_actions, translations_view, Translation, TranslationV};
use crate::text::{chars_of, string_from_chars};
use vstd::prelude::*;
use vstd::string::*;

verus! {

/// The character at `i`, or nothing past the end
pub open spec fn char_at(s: Seq<char>, i: int) -> Option<char> {
    if 0 <= i < s.len() {
        Some(s[i])
    } else {
        None
    }
}

/// How far two texts are compared: from `i` while both have the same character (or both have
/// none left), but not beyond `limit`
pub open spec fn compared_from(a: Seq<char>, b: Seq<char>, i: int, limit: int) -> int
    decreases limit - i,
{
    if 0 <= i < limit && char_at(a, i) == char_at(b, i) {
        compared_from(a, b, i + 1, limit)
    } else {
        i
    }
}

/// How far two texts are compared: the characters are compared one by one, up to the length of
/// the shorter text
pub open spec fn compared(a: Seq<char>, b: Seq<char>) -> int {
    let limit = if a.len() < b.len() {
        a.len()
    } else {
        b.len()
    };
    compared_from(a, b, 0, limit as int)
}

proof fn lemma_compared_from(a: Seq<char>, b: Seq<char>, i: int, limit: int)
    requires
        0 <= i <= limit,
    ensures
        i <= compared_from(a, b, i, limit) <= limit,
    decreases limit - i,
{
    if i < limit && char_at(a, i) == char_at(b, i) {
        lemma_compared_from(a, b, i + 1, limit);
    }
}

/// The replacement from where the texts stop being compared: the rest of the old text is deleted,
/// counted in characters, and the rest of the new text typed
pub open spec fn replace_tail(a: Seq<char>, b: Seq<char>) -> CommandV {
    let i = compared(a, b);
    CommandV::Replace((a.len() - i) as usize, b.skip(i))
}

/// Diffs two non-empty strings: the command that deletes the end of the old one and types the
/// end of the new one
pub fn replace_from_difference(old: &str, new: &str) -> (c: Command)
    ensures
        c@ == replace_tail(old@, new@),
{
    let old_chars = chars_of(old);
    let new_chars = chars_of(new);
    let limit = if old_chars.len() < new_chars.len() {
        old_chars.len()
    } else {
        new_chars.len()
    };
    // find where the new text differs from the old
    let mut i: usize = 0;
    while i < limit && same_char_at(&old_chars, &new_chars, i)
        invariant
            i <= limit,
            old_chars@ == old@,
            new_chars@ == new@,
            limit as int == if old@.len() < new@.len() {
                old@.len() as int
            } else {
                new@.len() as int
            },
            compared_from(old@, new@, i as int, limit as int) == compared(old@, new@),
        decreases limit - i,
    {
        i += 1;
    }
    proof {
        lemma_compared_from(old@, new@, 0, limit as int);
    }
    let mut rest: Vec<char> = Vec::new();
    let mut k: usize = i;
    while k < new_chars.len()
        invariant
            i <= k <= new_chars.len(),
            rest@ == new@.subrange(i as int, k as int),
            new_chars@ == new@,
        decreases new_chars.len() - k,
    {
        rest.push(new_chars[k]);
        k += 1;
        assert(rest@ =~= new@.subrange(i as int, k as int));
    }
    assert(new@.subrange(i as int, new@.len() as int) =~= new@.skip(i as int));
    let rest = string_from_chars(rest.as_slice());
    Command::replace_text(old_chars.len() - i, rest.as_str())
}

fn same_char_at(a: &Vec<char>, b: &Vec<char>, i: usize) -> (r: bool)
    ensures
        r == (char_at(a@, i as int) == char_at(b@, i as int)),
{
    if i < a.len() && i < b.len() {
        a[i] == b[i]
    } else {
        !(i < a.len()) && !(i < b.len())
    }
}

/// The command that makes the old string into the new: with an empty old string the new one is
/// typed; with an empty new string all the characters of the old one are deleted
pub open spec fn text_diff_spec(old: Seq<char>, new: Seq<char>) -> CommandV {
    if old.len() == 0 {
        CommandV::Replace(0, new)
    } else if new.len() == 0 {
        CommandV::Replace(old.len() as usize, Seq::empty())
    } else {
        replace_tail(old, new)
    }
}

/// Compute the command necessary to make the old string into the new
pub fn text_diff(old: String, new: String) -> (c: Command)
    ensures
        c@ == text_diff_spec(old@, new@),
{
    if old.as_str().is_empty() {
        return Command::add_text(new.as_str());
    }
    if new.as_str().is_empty() {
        proof {
            reveal_strlit("");
            assert(""@ =~= Seq::<char>::empty());
        }
        return Command::replace_text(old.as_str().unicode_len(), "");
    }
    replace_from_difference(old.as_str(), new.as_str())
}

/// The text after a command is carried out on it: the backspaces delete characters from its
/// end, then the text of the command is typed
pub open spec fn apply_command(text: Seq<char>, c: CommandV) -> Seq<char> {
    match c {
        CommandV::Replace(n, typed) => text.take(text.len() - n) + typed,
        _ => text,
    }
}

proof fn lemma_compared_from_same(a: Seq<char>, b: Seq<char>, i: int, limit: int)
    requires
        0 <= i <= limit,
    ensures
        forall|j: int| i <= j < compared_from(a, b, i, limit) ==> char_at(a, j) == char_at(b, j),
    decreases limit - i,
{
    if i < limit && char_at(a, i) == char_at(b, i) {
        lemma_compared_from_same(a, b, i + 1, limit);
    }
}

/// Carrying out the difference of two texts on the old one gives the new one
pub proof fn lemma_text_diff_applies(old: Seq<char>, new: Seq<char>)
    requires
        old.len() <= usize::MAX,
    ensures
        apply_command(old, text_diff_spec(old, new)) == new,
{
    if old.len() == 0 {
        assert(old.take(0) + new =~= new);
    } else if new.len() == 0 {
        assert(old.take(0) + Seq::<char>::empty() =~= new);
    } else {
        let limit = if old.len() < new.len() {
            old.len() as int
        } else {
            new.len() as int
        };
        let i = compared(old, new);
        lemma_compared_from(old, new, 0, limit);
        lemma_compared_from_same(old, new, 0, limit);
        assert forall|j: int| 0 <= j < i implies old[j] == new[j] by {
            assert(char_at(old, j) == char_at(new, j));
        }
        assert(old.take(i) =~= new.take(i));
        assert(old.take(old.len() - (old.len() - i)) =~= old.take(i));
        assert(new.take(i) + new.skip(i) =~= new);
    }
}

/// The translations without their commands
pub open spec fn without_commands(ts: Seq<TranslationV>) -> Seq<NoCommandV>
    decreases ts.len(),
{
    if ts.len() == 0 {
        Seq::empty()
    } else {
        let rest = without_commands(ts.drop_last());
        match ts.last() {
            TranslationV::Text(s) => rest.push(NoCommandV::Text(s)),
            TranslationV::UnknownStroke(s) => rest.push(NoCommandV::UnknownStroke(s)),
            TranslationV::TextAction(a) => rest.push(NoCommandV::TextAction(a)),
            TranslationV::Command(_) => rest,
        }
    }
}

/// Removes the commands from translations, from `start` on
pub fn remove_commands(translations: &Vec<Translation>, start: usize) -> (r: Vec<TranslationNoCommand>)
    requires
        start <= translations.len(),
    ensures
        no_commands_view(r@) == without_commands(translations_view(translations@).skip(start as int)),
{
    let ghost all = translations_view(translations@).skip(start as int);
    let mut result: Vec<TranslationNoCommand> = Vec::new();
    let mut i: usize = start;
    assert(all.take(0) =~= Seq::<TranslationV>::empty());
    assert(no_commands_view(result@) =~= Seq::<NoCommandV>::empty());
    while i < translations.len()
        invariant
            start <= i <= translations.len(),
            all == translations_view(translations@).skip(start as int),
            no_commands_view(result@) == without_commands(all.take(i - start)),
        decreases translations.len() - i,
    {
        let ghost before = no_commands_view(result@);
        assert(all.take(i - start + 1).drop_last() =~= all.take(i - start));
        assert(all.take(i - start + 1).last() == translations@[i as int]@);
        match &translations[i] {
            Translation::Text(text) => {
                result.push(TranslationNoCommand::Text(text.clone()));
            },
            Translation::TextAction(actions) => {
                result.push(TranslationNoCommand::TextAction(copy_actions(actions)));
            },
            Translation::UnknownStroke(stroke) => {
                result.push(TranslationNoCommand::UnknownStroke(stroke.clone()));
            },
            Translation::Command(_) => {
                // ignore commands
            },
        }
        assert(no_commands_view(result@) =~= without_commands(all.take(i - start + 1)));
        i += 1;
    }
    assert(all.take(i - start) =~= all);
    result
}

/// The number of translations the two lists start with in common
pub open spec fn common_from(old: Seq<TranslationV>, new: Seq<TranslationV>, i: int) -> int
    decreases old.len() - i,
{
    if 0 <= i < old.len() && i < new.len() && old[i] == new[i] {
        common_from(old, new, i + 1)
    } else {
        i
    }
}

/// Where the texts to compare start: one translation before the first difference, in case the
/// first text action needs the previous text
pub open spec fn diff_start(old: Seq<TranslationV>, new: Seq<TranslationV>) -> int {
    let i = common_from(old, new, 0);
    if i > 0 {
        i - 1
    } else {
        0
    }
}

/// The command the new translations end with, when it is to be performed directly: the old
/// translations do not end with a command, or with a different one, or the new ones are more (a
/// repeated command)
pub open spec fn new_command(old: Seq<TranslationV>, new: Seq<TranslationV>) -> Option<CommandV> {
    if new.len() > 0 && new.last() is Command {
        let cmd = new.last()->Command_0;
        if old.len() > 0 && old.last() is Command {
            if cmd != old.last()->Command_0 || new.len() > old.len() {
                Some(cmd)
            } else {
                None
            }
        } else {
            Some(cmd)
        }
    } else {
        None
    }
}

/// The texts of both lists from where they differ, without commands
pub open spec fn diff_texts(old: Seq<TranslationV>, new: Seq<TranslationV>) -> (Seq<char>, Seq<char>) {
    let start = diff_start(old, new);
    (parse_spec(without_commands(old.skip(start))), parse_spec(without_commands(new.skip(start))))
}

/// The command that makes the old translations into the new ones
pub open spec fn translation_diff_spec(old: Seq<TranslationV>, new: Seq<TranslationV>) -> CommandV {
    match new_command(old, new) {
        Some(cmd) => cmd,
        None => text_diff_spec(diff_texts(old, new).0, diff_texts(old, new).1),
    }
}

proof fn lemma_common_from(old: Seq<TranslationV>, new: Seq<TranslationV>, i: int)
    requires
        0 <= i <= old.len(),
        i <= new.len(),
    ensures
        i <= common_from(old, new, i) <= old.len(),
        common_from(old, new, i) <= new.len(),
    decreases old.len() - i,
{
    if i < old.len() && i < new.len() && old[i] == new[i] {
        lemma_common_from(old, new, i + 1);
    }
}

/// Finds the difference between two translations, converts them to their string representations,
/// and diffs the strings to create a command
pub fn translation_diff(old: &Vec<Translation>, new: &Vec<Translation>) -> (c: Command)
    ensures
        c@ == translation_diff_spec(translations_view(old@), translations_view(new@)),
{
    let ghost o = translations_view(old@);
    let ghost n = translations_view(new@);
    // find where the new translations differ from the old
    let mut i: usize = 0;
    while i < old.len() && i < new.len() && old[i].same(&new[i])
        invariant
            i <= old.len(),
            i <= new.len(),
            o == translations_view(old@),
            n == translations_view(new@),
            common_from(o, n, i as int) == common_from(o, n, 0),
        decreases old.len() - i,
    {
        assert(o[i as int] == old@[i as int]@ && n[i as int] == new@[i as int]@);
        i += 1;
    }
    proof {
        if i < old.len() && i < new.len() {
            assert(o[i as int] == old@[i as int]@ && n[i as int] == new@[i as int]@);
        }
    }
    // include 1 addition translation in case the first text command needs the previous text
    if i > 0 {
        i -= 1;
    }
    // directly return the new command if that is what differs
    if new.len() > 0 {
        if let Translation::Command(cmd) = &new[new.len() - 1] {
            assert(n.last() == new@[new.len() - 1]@);
            if old.len() > 0 {
                assert(o.last() == old@[old.len() - 1]@);
                match &old[old.len() - 1] {
                    Translation::Command(old_cmd) => {
                        // a different command, or the same one repeated
                        if !cmd.same(old_cmd) || new.len() > old.len() {
                            return cmd.clone();
                        }
                    },
                    _ => {
                        return cmd.clone();
                    },
                }
            } else {
                return cmd.clone();
            }
        }
    }
    // only diff translations starting from where they differ and ignore commands
    let old_no_command = remove_commands(old, i);
    let new_no_command = remove_commands(new, i);
    text_diff(parse_translation(old_no_command), parse_translation(new_no_command))
}

} // verus!
