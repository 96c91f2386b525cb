use plojo::base::Stroke;
use plojo::legacy::commands::{Command, ExternalCommand, InternalCommand};
use plojo::legacy::diff::{text_diff, translation_diff};
use plojo::legacy::{TextAction, Translation};

#[test]
fn mod_test_diff_same() {
    let command = translation_diff(
        &vec![
            Translation::Text("Hello".to_string()),
            Translation::Text("Hi".to_string()),
        ],
        &vec![
            Translation::Text("Hello".to_string()),
            Translation::Text("Hi".to_string()),
        ],
    );

    assert_eq!(command, Command::add_text(""));
}

#[test]
fn mod_test_diff_empty() {
    let command = translation_diff(&vec![], &vec![]);

    assert_eq!(command, Command::add_text(""));
}

#[test]
fn mod_test_diff_one_empty() {
    let command = translation_diff(&vec![], &vec![Translation::Text("Hello".to_string())]);

    assert_eq!(command, Command::add_text(" Hello"));
}

#[test]
fn mod_test_diff_one_command_empty() {
    let command = translation_diff(
        &vec![],
        &vec![Translation::Command(Command::External(
            ExternalCommand::PrintHello,
        ))],
    );

    assert_eq!(command, Command::External(ExternalCommand::PrintHello));
}

#[test]
fn mod_test_diff_simple_add() {
    let command = translation_diff(
        &vec![Translation::Text("Hello".to_string())],
        &vec![
            Translation::Text("Hello".to_string()),
            Translation::Text("Hi".to_string()),
        ],
    );

    assert_eq!(command, Command::add_text(" Hi"));
}

#[test]
fn mod_test_diff_correction() {
    let command = translation_diff(
        &vec![Translation::Text("Hello".to_string())],
        &vec![Translation::Text("He..llo".to_string())],
    );

    assert_eq!(command, Command::replace_text(3, "..llo"));
}

#[test]
fn mod_test_diff_deletion() {
    let command = translation_diff(&vec![Translation::Text("Hello".to_string())], &vec![]);

    assert_eq!(command, Command::replace_text(6, ""));
}

#[test]
fn mod_test_diff_unknown_correction() {
    let command = translation_diff(
        &vec![
            Translation::Text("Hello".to_string()),
            Translation::UnknownStroke(Stroke::new("WUPB")),
        ],
        &vec![
            Translation::Text("Hello".to_string()),
            Translation::Text("Won".to_string()),
        ],
    );

    assert_eq!(command, Command::replace_text(3, "on"));
}

#[test]
fn mod_test_diff_text_actions() {
    let command = translation_diff(
        &vec![
            Translation::Text("Hello".to_string()),
            Translation::TextAction(vec![TextAction::space(true, false)]),
            Translation::Text("world".to_string()),
        ],
        &vec![
            Translation::Text("Hi".to_string()),
            Translation::TextAction(vec![TextAction::case(true, true)]),
            Translation::Text("world".to_string()),
        ],
    );

    assert_eq!(command, Command::replace_text(9, "i World"));
}

#[test]
fn mod_test_diff_prev_word_text_actions() {
    let command = translation_diff(
        &vec![
            Translation::Text("Hello".to_string()),
            Translation::Text("world".to_string()),
        ],
        &vec![
            Translation::Text("Hello".to_string()),
            Translation::Text("world".to_string()),
            Translation::TextAction(vec![TextAction::case(false, true)]),
        ],
    );

    assert_eq!(command, Command::replace_text(5, "World"));
}

#[test]
fn mod_test_diff_same_command() {
    let command = translation_diff(
        &vec![
            Translation::Text("Hello".to_string()),
            Translation::Command(Command::External(ExternalCommand::PrintHello)),
            Translation::Command(Command::External(ExternalCommand::PrintHello)),
        ],
        &vec![
            Translation::Text("Hello".to_string()),
            Translation::Command(Command::External(ExternalCommand::PrintHello)),
            Translation::Command(Command::External(ExternalCommand::PrintHello)),
        ],
    );

    assert_eq!(command, Command::add_text(""));
}

#[test]
fn mod_test_diff_repeated_command() {
    let command = translation_diff(
        &vec![
            Translation::Command(Command::External(ExternalCommand::PrintHello)),
            Translation::Command(Command::External(ExternalCommand::PrintHello)),
        ],
        &vec![
            Translation::Command(Command::External(ExternalCommand::PrintHello)),
            Translation::Command(Command::External(ExternalCommand::PrintHello)),
            Translation::Command(Command::External(ExternalCommand::PrintHello)),
        ],
    );

    assert_eq!(command, Command::External(ExternalCommand::PrintHello));
}

#[test]
fn mod_test_diff_external_command() {
    let command = translation_diff(
        &vec![
            Translation::Text("Hello".to_string()),
            Translation::Text("world".to_string()),
        ],
        &vec![
            Translation::Text("Hello".to_string()),
            Translation::Text("world".to_string()),
            Translation::Command(Command::External(ExternalCommand::PrintHello)),
        ],
    );

    assert_eq!(command, Command::External(ExternalCommand::PrintHello));
}

#[test]
fn test_diff_undo() {
    let command = translation_diff(
        &vec![
            Translation::Text("Hello".to_string()),
            Translation::Text("world".to_string()),
        ],
        &vec![
            Translation::Text("Hello".to_string()),
            Translation::Text("world".to_string()),
            Translation::Command(Command::Internal(InternalCommand::Undo)),
        ],
    );

    assert_eq!(command, Command::Internal(InternalCommand::Undo));
}

#[test]
fn legacy_text_diff_counts_characters() {
    assert_eq!(
        text_diff(" café au".to_string(), " café ou".to_string()),
        Command::replace_text(2, "ou")
    );
    assert_eq!(
        text_diff(" é".to_string(), " éa".to_string()),
        Command::replace_text(0, "a")
    );
    assert_eq!(
        text_diff(" ——a".to_string(), " —Ω".to_string()),
        Command::replace_text(2, "Ω")
    );
}
