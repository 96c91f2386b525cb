use plojo::base::{Command, Stroke};
use plojo::standard::diff::{text_diff, translation_diff};
use plojo::standard::{StateAction, Text, TextAction, Translation};

fn translation_diff_space_after(old: &Vec<Translation>, new: &Vec<Translation>) -> Vec<Command> {
    translation_diff(old, new, false)
}

fn basic_command(cmds: Vec<Command>) -> Translation {
    Translation::Command {
        cmds,
        text_after: None,
        suppress_space_before: false,
    }
}

#[test]
fn diff_test_diff_same() {
    let command = translation_diff_space_after(
        &vec![
            Translation::Text(Text::Lit("Hello".to_string())),
            Translation::Text(Text::Lit("Hi".to_string())),
        ],
        &vec![
            Translation::Text(Text::Lit("Hello".to_string())),
            Translation::Text(Text::Lit("Hi".to_string())),
        ],
    );

    assert_eq!(command, vec![Command::NoOp]);
}

#[test]
fn diff_test_diff_empty() {
    let command = translation_diff_space_after(&vec![], &vec![]);

    assert_eq!(command, vec![Command::NoOp]);
}

#[test]
fn diff_test_diff_one_empty() {
    let command = translation_diff_space_after(
        &vec![],
        &vec![Translation::Text(Text::Lit("Hello".to_string()))],
    );

    assert_eq!(command, vec![Command::add_text(" Hello")]);
}

#[test]
fn diff_test_diff_one_command_empty() {
    let command =
        translation_diff_space_after(&vec![], &vec![basic_command(vec![Command::PrintHello])]);

    assert_eq!(command, vec![Command::PrintHello]);
}

#[test]
fn diff_test_diff_simple_add() {
    let command = translation_diff_space_after(
        &vec![Translation::Text(Text::Lit("Hello".to_string()))],
        &vec![
            Translation::Text(Text::Lit("Hello".to_string())),
            Translation::Text(Text::Lit("Hi".to_string())),
        ],
    );

    assert_eq!(command, vec![Command::add_text(" Hi")]);
}

#[test]
fn diff_test_diff_correction() {
    let command = translation_diff_space_after(
        &vec![Translation::Text(Text::Lit("Hello".to_string()))],
        &vec![Translation::Text(Text::Lit("He..llo".to_string()))],
    );

    assert_eq!(command, vec![Command::replace_text(3, "..llo")]);
}

#[test]
fn diff_test_diff_deletion() {
    let command = translation_diff_space_after(
        &vec![Translation::Text(Text::Lit("Hello".to_string()))],
        &vec![],
    );

    assert_eq!(command, vec![Command::replace_text(6, "")]);
}

#[test]
fn diff_test_diff_unknown_correction() {
    let command = translation_diff_space_after(
        &vec![
            Translation::Text(Text::Lit("Hello".to_string())),
            Translation::Text(Text::UnknownStroke(Stroke::new("WUPB"))),
        ],
        &vec![
            Translation::Text(Text::Lit("Hello".to_string())),
            Translation::Text(Text::Lit("Won".to_string())),
        ],
    );

    assert_eq!(command, vec![Command::replace_text(3, "on")]);
}

#[test]
fn diff_test_diff_text_actions() {
    let command = translation_diff_space_after(
        &vec![
            Translation::Text(Text::Lit("Hello".to_string())),
            Translation::Text(Text::Lit("world".to_string())),
        ],
        &vec![
            Translation::Text(Text::Lit("Hi".to_string())),
            Translation::Text(Text::StateAction(StateAction::ForceCapitalize)),
            Translation::Text(Text::Lit("world".to_string())),
        ],
    );

    assert_eq!(command, vec![Command::replace_text(10, "i World")]);
}

#[test]
fn diff_test_diff_prev_word_text_actions() {
    let command = translation_diff_space_after(
        &vec![
            Translation::Text(Text::Lit("Hello".to_string())),
            Translation::Text(Text::Lit("world".to_string())),
        ],
        &vec![
            Translation::Text(Text::Lit("Hello".to_string())),
            Translation::Text(Text::Lit("world".to_string())),
            Translation::Text(Text::TextAction(TextAction::CapitalizePrev)),
        ],
    );

    assert_eq!(command, vec![Command::replace_text(5, "World")]);
}

#[test]
fn diff_test_diff_same_command() {
    let command = translation_diff_space_after(
        &vec![
            Translation::Text(Text::Lit("Hello".to_string())),
            basic_command(vec![Command::PrintHello]),
            basic_command(vec![Command::PrintHello]),
        ],
        &vec![
            Translation::Text(Text::Lit("Hello".to_string())),
            basic_command(vec![Command::PrintHello]),
            basic_command(vec![Command::PrintHello]),
        ],
    );

    assert_eq!(command, vec![Command::NoOp]);
}

#[test]
fn diff_test_diff_repeated_command() {
    let command = translation_diff_space_after(
        &vec![
            basic_command(vec![Command::PrintHello]),
            basic_command(vec![Command::PrintHello]),
        ],
        &vec![
            basic_command(vec![Command::PrintHello]),
            basic_command(vec![Command::PrintHello]),
            basic_command(vec![Command::PrintHello]),
        ],
    );

    assert_eq!(command, vec![Command::PrintHello]);
}

#[test]
fn diff_test_diff_external_command() {
    let command = translation_diff_space_after(
        &vec![
            Translation::Text(Text::Lit("Hello".to_string())),
            Translation::Text(Text::Lit("world".to_string())),
        ],
        &vec![
            Translation::Text(Text::Lit("Hello".to_string())),
            Translation::Text(Text::Lit("world".to_string())),
            basic_command(vec![Command::PrintHello]),
        ],
    );

    assert_eq!(command, vec![Command::PrintHello]);
}

#[test]
fn diff_test_unicode() {
    let command = text_diff(
        // note that these are "em dashes"
        " ——a".to_string(),
        " —Ω".to_string(),
    );

    assert_eq!(command, Command::Replace(2, "Ω".to_string()));
}

