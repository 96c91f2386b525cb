use plojo::base::{Command, Stroke};
use plojo::legacy::commands::Command as LegacyCommand;
use plojo::standard::load::{load_dicts, parse_special};
use plojo::standard::{StateAction, Text, Translation};

#[test]
fn standard_empty_new_text_deletes_characters() {
    assert_eq!(
        plojo::standard::diff::text_diff(" —é".to_string(), String::new()),
        Command::Replace(3, String::new())
    );
    assert_eq!(
        plojo::standard::diff::text_diff(" Hello".to_string(), String::new()),
        Command::Replace(6, String::new())
    );
}

#[test]
fn legacy_empty_new_text_deletes_characters() {
    assert_eq!(
        plojo::legacy::diff::text_diff(" —é".to_string(), String::new()),
        LegacyCommand::replace_text(3, "")
    );
    assert_eq!(
        plojo::legacy::simple::text_diff(" —é".to_string(), String::new()),
        LegacyCommand::replace_text(3, "")
    );
    assert_eq!(
        plojo::legacy::simple::translation_diff(
            &vec![plojo::legacy::simple::Translation::text("Hello")],
            &vec![]
        ),
        LegacyCommand::replace_text(6, "")
    );
}

#[test]
fn empty_special_action_cancels_formatting() {
    assert_eq!(
        parse_special("").unwrap(),
        vec![Translation::Text(Text::StateAction(StateAction::Clear))]
    );
    let entries = load_dicts(r#"{"KPA": "{}{-|}"}"#).unwrap();
    assert_eq!(
        entries,
        vec![(
            Stroke::new("KPA"),
            vec![
                Translation::Text(Text::StateAction(StateAction::Clear)),
                Translation::Text(Text::StateAction(StateAction::ForceCapitalize))
            ]
        )]
    );
}
