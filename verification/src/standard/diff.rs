//! Finding the difference between two translations and turning that into commands.
use crate::base::commands::{clone_commands, commands_view, is_replace, Command, CommandV};
use crate::standard::parser::{parse_translation, render};
use crate::standard::types::{all_as_text, all_texts, translations_view, Translation, TranslationV};
use crate::text::{chars_of, string_from_chars};
use vstd::prelude::*;

verus! {

/// The length of the longest common prefix of `a` and `b`, looking from position `i` on
pub open spec fn common_prefix_from(a: Seq<char>, b: Seq<char>, i: int) -> int
    decreases a.len() - i,
{
    if 0 <= i < a.len() && i < b.len() && a[i] == b[i] {
        common_prefix_from(a, b, i + 1)
    } else {
        i
    }
}

/// The length of the longest common prefix of `a` and `b`
pub open spec fn common_prefix(a: Seq<char>, b: Seq<char>) -> int {
    common_prefix_from(a, b, 0)
}

proof fn lemma_common_prefix_from(a: Seq<char>, b: Seq<char>, i: int)
    requires
        0 <= i <= a.len(),
        i <= b.len(),
        a.take(i) == b.take(i),
    ensures
        i <= common_prefix_from(a, b, i) <= a.len(),
        common_prefix_from(a, b, i) <= b.len(),
        a.take(common_prefix_from(a, b, i)) == b.take(common_prefix_from(a, b, i)),
        common_prefix_from(a, b, i) < a.len() && common_prefix_from(a, b, i) < b.len() ==> a[common_prefix_from(a, b, i)] != b[common_prefix_from(a, b, i)],
    decreases a.len() - i,
{
    if i < a.len() && i < b.len() && a[i] == b[i] {
        assert(a.take(i + 1) =~= a.take(i).push(a[i]));
        assert(b.take(i + 1) =~= b.take(i).push(b[i]));
        lemma_common_prefix_from(a, b, i + 1);
    }
}

/// The longest common prefix of `a` and `b` is a prefix of both, and stops at the first
/// difference
pub proof fn lemma_common_prefix(a: Seq<char>, b: Seq<char>)
    ensures
        0 <= common_prefix(a, b) <= a.len(),
        common_prefix(a, b) <= b.len(),
        a.take(common_prefix(a, b)) == b.take(common_prefix(a, b)),
        common_prefix(a, b) < a.len() && common_prefix(a, b) < b.len() ==> a[common_prefix(a, b)]
            != b[common_prefix(a, b)],
{
    assert(a.take(0) =~= b.take(0));
    lemma_common_prefix_from(a, b, 0);
}

/// The command that makes the old string into the new: the characters after the common prefix
/// are deleted and the rest of the new string typed. When the new string is empty, all the
/// characters of the old string are deleted
pub open spec fn text_diff_spec(old: Seq<char>, new: Seq<char>) -> CommandV {
    if old.len() == 0 {
        if new.len() == 0 {
            CommandV::NoOp
        } else {
            CommandV::Replace(0, new)
        }
    } else if new.len() == 0 {
        CommandV::Replace(old.len() as usize, Seq::empty())
    } else {
        let i = common_prefix(old, new);
        if i == old.len() && old.len() == new.len() {
            CommandV::NoOp
        } else {
            CommandV::Replace((old.len() - i) as usize, new.skip(i))
        }
    }
}

/// Compute the command necessary to make the old string into the new
pub fn text_diff(old: String, new: String) -> (c: Command)
    ensures
        c@ == text_diff_spec(old@, new@),
{
    if old.as_str().is_empty() {
        if new.as_str().is_empty() {
            return Command::NoOp;
        }
        return Command::add_text(new.as_str());
    }
    if new.as_str().is_empty() {
        proof {
            reveal_strlit("");
            assert(""@ =~= Seq::<char>::empty());
        }
        return Command::replace_text(old.as_str().unicode_len(), "");
    }
    let old_chars = chars_of(old.as_str());
    let new_chars = chars_of(new.as_str());

    // find where the new translations differ from the old
    let mut i: usize = 0;
    while i < old_chars.len() && i < new_chars.len() && old_chars[i] == new_chars[i]
        invariant
            i <= old_chars.len(),
            i <= new_chars.len(),
            old_chars@ == old@,
            new_chars@ == new@,
            common_prefix_from(old@, new@, i as int) == common_prefix(old@, new@),
        decreases old_chars.len() - i,
    {
        i += 1;
    }

    if i == old_chars.len() && old_chars.len() == new_chars.len() {
        return Command::NoOp;
    }
    let mut rest: Vec<char> = Vec::new();
    let mut k: usize = i;
    while k < new_chars.len()
        invariant
            i <= k <= new_chars.len(),
            rest@ == new@.subrange(i as int, k as int),
            new_chars@ == new@,
        decreases new_chars.len() - k,
    {
        rest.push(new_chars[k]);
        k += 1;
        assert(rest@ =~= new@.subrange(i as int, k as int));
    }
    let rest = string_from_chars(rest.as_slice());
    Command::replace_text(old_chars.len() - i, rest.as_str())
}

/// What a command does to the text before the cursor: a replace deletes characters from the end
/// and types its text; other commands leave the text as it is
pub open spec fn apply_to_text(text: Seq<char>, c: CommandV) -> Seq<char> {
    match c {
        CommandV::Replace(n, s) => text.take(text.len() - n) + s,
        _ => text,
    }
}

/// What commands do to the text before the cursor, one after the other
pub open spec fn apply_commands(text: Seq<char>, cs: Seq<CommandV>) -> Seq<char>
    decreases cs.len(),
{
    if cs.len() == 0 {
        text
    } else {
        apply_commands(apply_to_text(text, cs[0]), cs.skip(1))
    }
}

/// Applying a single command is applying that command
pub proof fn lemma_apply_one_command(text: Seq<char>, cs: Seq<CommandV>)
    requires
        cs.len() == 1,
    ensures
        apply_commands(text, cs) == apply_to_text(text, cs[0]),
{
    assert(cs.skip(1).len() == 0);
    assert(apply_commands(apply_to_text(text, cs[0]), cs.skip(1)) == apply_to_text(text, cs[0]));
}

/// Applying the difference of two texts to the old one gives the new one
pub proof fn lemma_text_diff_applies(old: Seq<char>, new: Seq<char>)
    requires
        old.len() <= usize::MAX,
    ensures
        apply_to_text(old, text_diff_spec(old, new)) == new,
{
    if old.len() == 0 {
        assert(old.take(0) + new =~= new);
    } else if new.len() == 0 {
        assert(old.take(0) =~= new);
    } else {
        lemma_common_prefix(old, new);
        let i = common_prefix(old, new);
        if i == old.len() && old.len() == new.len() {
            assert(old =~= old.take(i));
            assert(new =~= new.take(i));
        } else {
            assert(old.take(old.len() - (old.len() - i)) =~= old.take(i));
            assert(new.take(i) + new.skip(i) =~= new);
        }
    }
}

/// The difference of a text with itself does nothing
pub proof fn lemma_text_diff_same(s: Seq<char>)
    ensures
        text_diff_spec(s, s) == CommandV::NoOp,
{
    if s.len() > 0 {
        lemma_common_prefix(s, s);
    }
}

/// The commands that make the old translations into the new ones. When exactly one translation
/// was added and it is a command, that command is performed, after deleting the space before it
/// if it asks for that. Otherwise both are turned into strings and the strings compared
pub open spec fn translation_diff_spec(
    old: Seq<TranslationV>,
    new: Seq<TranslationV>,
    space_after: bool,
) -> Seq<CommandV> {
    let old_parsed = render(all_texts(old, space_after), space_after);
    if old.len() + 1 == new.len() && new.last() is Command {
        let cmds = new.last()->cmds;
        if new.last()->suppress_space_before && old_parsed.len() > 0 && old_parsed.last() == ' ' {
            seq![CommandV::Replace(1, Seq::empty())] + cmds
        } else {
            cmds
        }
    } else {
        seq![text_diff_spec(old_parsed, render(all_texts(new, space_after), space_after))]
    }
}

/// Unless a command was just added, the difference of two translations is a single command that
/// turns the text of the old translations into the text of the new ones
pub proof fn lemma_translation_diff_types_new_text(
    old: Seq<TranslationV>,
    new: Seq<TranslationV>,
    space_after: bool,
)
    requires
        !(old.len() + 1 == new.len() && new.last() is Command),
        render(all_texts(old, space_after), space_after).len() <= usize::MAX,
    ensures
        translation_diff_spec(old, new, space_after).len() == 1,
        apply_to_text(
            render(all_texts(old, space_after), space_after),
            translation_diff_spec(old, new, space_after)[0],
        ) == render(all_texts(new, space_after), space_after),
{
    lemma_text_diff_applies(
        render(all_texts(old, space_after), space_after),
        render(all_texts(new, space_after), space_after),
    );
}

/// Finds the difference between two translations, converts them to their string representations,
/// and diffs the strings to create a command. Has an option to insert spaces after words instead
/// of before
pub fn translation_diff(old: &Vec<Translation>, new: &Vec<Translation>, space_after: bool) -> (r:
    Vec<Command>)
    ensures
        commands_view(r@) == translation_diff_spec(
            translations_view(old@),
            translations_view(new@),
            space_after,
        ),
{
    // ignore commands and convert old translations to text
    let old_texts = all_as_text(old, space_after);
    let old_parsed = parse_translation(old_texts, space_after);

    // if added a command, return that directly
    if old.len() < new.len() && new.len() - old.len() == 1 {
        let last = &new[new.len() - 1];
        assert(translations_view(new@).last() == last@);
        if let Translation::Command { cmds, suppress_space_before, .. } = last {
            let mut result: Vec<Command> = Vec::new();
            let old_chars = chars_of(old_parsed.as_str());
            // if suppress space, delete the space if there is any
            if *suppress_space_before && old_chars.len() > 0 && old_chars[old_chars.len() - 1]
                == ' ' {
                proof {
                    reveal_strlit("");
                    assert(""@ =~= Seq::<char>::empty());
                }
                result.push(Command::replace_text(1, ""));
            }
            let ghost start = commands_view(result@);
            let mut i: usize = 0;
            while i < cmds.len()
                invariant
                    i <= cmds.len(),
                    commands_view(result@) == start + commands_view(cmds@).take(i as int),
                decreases cmds.len() - i,
            {
                let ghost prev = result@;
                let c = cmds[i].clone();
                result.push(c);
                assert(commands_view(result@) =~= commands_view(prev).push(c@));
                i += 1;
                assert(commands_view(result@) =~= start + commands_view(cmds@).take(i as int));
            }
            assert(commands_view(cmds@).take(i as int) =~= commands_view(cmds@));
            proof {
                if *suppress_space_before && old_chars.len() > 0 && old_chars@.last() == ' ' {
                    assert(start =~= seq![CommandV::Replace(1, Seq::empty())]);
                } else {
                    assert(start =~= Seq::<CommandV>::empty());
                }
            }
            assert(commands_view(result@) =~= translation_diff_spec(
                translations_view(old@),
                translations_view(new@),
                space_after,
            ));
            return result;
        }
    }
    // ignore commands and convert new translations to text
    let new_texts = all_as_text(new, space_after);
    let new_parsed = parse_translation(new_texts, space_after);

    // compare the two and return the result
    let r = vec![text_diff(old_parsed, new_parsed)];
    assert(commands_view(r@) =~= translation_diff_spec(
        translations_view(old@),
        translations_view(new@),
        space_after,
    ));
    r
}

} // verus!
