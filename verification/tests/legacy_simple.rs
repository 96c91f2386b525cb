use plojo::legacy::commands::Command;
use plojo::legacy::simple::{translation_diff, translation_to_string, TextAction, Translation};
use plojo::standard::parser::word_change_first_letter;

#[test]
fn test_translation_diff_same() {
    let command = translation_diff(
        &vec![Translation::text("Hello"), Translation::text("Hi")],
        &vec![Translation::text("Hello"), Translation::text("Hi")],
    );

    assert_eq!(command, Command::add_text(""));
}

#[test]
fn test_translation_diff_empty() {
    let command = translation_diff(&vec![], &vec![]);

    assert_eq!(command, Command::add_text(""));
}

#[test]
fn test_translation_diff_simple_add() {
    let command = translation_diff(
        &vec![Translation::text("Hello")],
        &vec![Translation::text("Hello"), Translation::text("Hi")],
    );

    assert_eq!(command, Command::add_text(" Hi"));
}

#[test]
fn test_translation_to_string_basic() {
    let translated =
        translation_to_string(vec![&Translation::text("hello"), &Translation::text("hi")]);

    assert_eq!(translated, " hello hi");
}

#[test]
fn test_translation_to_string_text_commands() {
    let translated = translation_to_string(vec![
        &Translation::TextAction(vec![TextAction::NoSpace, TextAction::UppercaseNext]),
        &Translation::text("hello"),
        &Translation::text("hi"),
        &Translation::TextAction(vec![TextAction::UppercaseNext]),
        &Translation::text("FOo"),
        &Translation::text("bar"),
        &Translation::text("baZ"),
        &Translation::TextAction(vec![TextAction::LowercaseNext]),
        &Translation::TextAction(vec![TextAction::NoSpace]),
        &Translation::text("NICE"),
        &Translation::TextAction(vec![TextAction::NoSpace]),
        &Translation::text(""),
        &Translation::text("well done"),
    ]);

    assert_eq!(translated, "Hello hi FOo bar baZnICE well done");
}

#[test]
fn test_translation_to_string_line_start() {
    let translated = translation_to_string(vec![
        &Translation::TextAction(vec![TextAction::NoSpace, TextAction::UppercaseNext]),
        &Translation::text("hello"),
        &Translation::text("hi"),
    ]);

    assert_eq!(translated, "Hello hi");
}

#[test]
fn diff_test_word_change_first_letter() {
    assert_eq!(word_change_first_letter("hello".to_owned(), true), "Hello");
    assert_eq!(word_change_first_letter("".to_owned(), true), "");
    assert_eq!(word_change_first_letter("Hello".to_owned(), true), "Hello");
}
