use plojo::base::Stroke;
use plojo::legacy::parser::{
    merge_translations, parse_translation, ActionSet, Text, TranslationNoCommand,
};
use plojo::standard::parser::word_change_first_letter;
use plojo::legacy::{TextAction, TextActionType};

#[test]
fn test_merge_translations() {
    let translated = merge_translations(vec![
        TranslationNoCommand::TextAction(vec![
            TextAction::space(true, true),
            TextAction::case(true, true),
        ]),
        TranslationNoCommand::Text("hello".to_string()),
        TranslationNoCommand::Text("hi".to_string()),
        TranslationNoCommand::TextAction(vec![TextAction::case(true, false)]),
        TranslationNoCommand::TextAction(vec![
            TextAction::case(false, true),
            TextAction::case(false, true),
            TextAction::case(true, false),
        ]),
        TranslationNoCommand::TextAction(vec![
            TextAction::case(false, true),
            TextAction::space(false, false),
            TextAction::case(true, false),
        ]),
        TranslationNoCommand::Text("FOo".to_string()),
        TranslationNoCommand::TextAction(vec![
            TextAction::case(false, true),
            TextAction::case(false, false),
        ]),
        TranslationNoCommand::TextAction(vec![TextAction::case(false, false)]),
        TranslationNoCommand::Text("FOo".to_string()),
        TranslationNoCommand::TextAction(vec![
            TextAction::case(true, false),
            TextAction::case(true, true),
        ]),
    ]);

    assert_eq!(
        translated,
        vec![
            Text::Actions(ActionSet::from_pairs(vec![
                (TextActionType::SpaceNext, true),
                (TextActionType::CaseNext, true),
            ])),
            Text::Lit("hello".to_string()),
            Text::Lit("hi".to_string()),
            Text::Actions(ActionSet::from_pairs(vec![
                (TextActionType::CasePrev, true),
                (TextActionType::SpacePrev, false),
                (TextActionType::CaseNext, false),
            ])),
            Text::Lit("FOo".to_string()),
            Text::Actions(ActionSet::from_pairs(vec![(TextActionType::CasePrev, false),])),
            Text::Lit("FOo".to_string()),
            Text::Actions(ActionSet::from_pairs(vec![(TextActionType::CaseNext, true),])),
        ]
    );
}

#[test]
fn test_parse_empty() {
    let translated = parse_translation(vec![]);

    assert_eq!(translated, "");
}

#[test]
fn test_parse_basic() {
    let translated = parse_translation(vec![
        TranslationNoCommand::Text("hello".to_string()),
        TranslationNoCommand::Text("hi".to_string()),
    ]);

    assert_eq!(translated, " hello hi");
}

#[test]
fn test_parse_text_actions() {
    let translated = parse_translation(vec![
        TranslationNoCommand::TextAction(vec![
            TextAction::space(true, false),
            TextAction::case(true, true),
        ]),
        TranslationNoCommand::Text("hello".to_string()),
        TranslationNoCommand::Text("hi".to_string()),
        TranslationNoCommand::TextAction(vec![TextAction::case(true, true)]),
        TranslationNoCommand::Text("FOo".to_string()),
        TranslationNoCommand::Text("bar".to_string()),
        TranslationNoCommand::Text("baZ".to_string()),
        TranslationNoCommand::TextAction(vec![TextAction::case(true, false)]),
        TranslationNoCommand::TextAction(vec![TextAction::space(true, false)]),
        TranslationNoCommand::Text("NICE".to_string()),
        TranslationNoCommand::TextAction(vec![TextAction::space(true, false)]),
        TranslationNoCommand::Text("".to_string()),
        TranslationNoCommand::Text("well done".to_string()),
    ]);

    assert_eq!(translated, "Hello hi FOo bar baZnICE well done");
}

#[test]
fn test_parse_prev_word_text_actions() {
    let translated = parse_translation(vec![
        TranslationNoCommand::Text("hi".to_string()),
        TranslationNoCommand::TextAction(vec![
            TextAction::case(false, true),
            TextAction::case(false, false),
        ]),
        TranslationNoCommand::TextAction(vec![TextAction::case(true, false)]),
        TranslationNoCommand::TextAction(vec![TextAction::case(false, true)]),
        TranslationNoCommand::Text("FOo".to_string()),
        TranslationNoCommand::Text("bar".to_string()),
        TranslationNoCommand::TextAction(vec![
            TextAction::space(false, false),
            TextAction::case(false, true),
        ]),
        TranslationNoCommand::Text("hello".to_string()),
        TranslationNoCommand::Text("Hi a".to_string()),
        TranslationNoCommand::TextAction(vec![
            TextAction::space(true, true),
            TextAction::case(true, false),
        ]),
        TranslationNoCommand::TextAction(vec![TextAction::case(false, true)]),
        TranslationNoCommand::TextAction(vec![
            TextAction::case(true, true),
            TextAction::case(true, true),
        ]),
        TranslationNoCommand::Text("nice".to_string()),
        TranslationNoCommand::UnknownStroke(Stroke::new("TP-TDZ")),
        TranslationNoCommand::TextAction(vec![
            TextAction::case(false, false),
            TextAction::space(false, false),
        ]),
        TranslationNoCommand::Text("nice".to_string()),
        TranslationNoCommand::TextAction(vec![TextAction::space(true, false)]),
        TranslationNoCommand::Text("another".to_string()),
        TranslationNoCommand::TextAction(vec![TextAction::space(false, true)]),
    ]);

    assert_eq!(translated, " Hi fOoBar hello Hi a NicetP-TDZ nice another");
}

#[test]
fn test_parse_line_start() {
    let translated = parse_translation(vec![
        TranslationNoCommand::TextAction(vec![
            TextAction::space(true, false),
            TextAction::case(true, true),
        ]),
        TranslationNoCommand::Text("hello".to_string()),
        TranslationNoCommand::Text("hi".to_string()),
    ]);

    assert_eq!(translated, "Hello hi");
}

#[test]
fn test_word_change_first_letter() {
    assert_eq!(word_change_first_letter("hello".to_owned(), true), "Hello");
    assert_eq!(word_change_first_letter("".to_owned(), true), "");
    assert_eq!(word_change_first_letter("Hello".to_owned(), true), "Hello");
}

#[test]
fn merging_keeps_literals_in_order() {
    let merged = merge_translations(vec![
        TranslationNoCommand::TextAction(vec![TextAction::case(true, true)]),
        TranslationNoCommand::TextAction(vec![TextAction::space(true, false)]),
        TranslationNoCommand::Text("a".to_string()),
        TranslationNoCommand::UnknownStroke(Stroke::new("TP-TDZ")),
        TranslationNoCommand::TextAction(vec![TextAction::case(false, true)]),
        TranslationNoCommand::Text("b".to_string()),
    ]);
    assert_eq!(
        merged,
        vec![
            Text::Actions(ActionSet::from_pairs(vec![
                (TextActionType::CaseNext, true),
                (TextActionType::SpaceNext, false),
            ])),
            Text::Lit("a".to_string()),
            Text::Lit("TP-TDZ".to_string()),
            Text::Actions(ActionSet::from_pairs(vec![(TextActionType::CasePrev, true)])),
            Text::Lit("b".to_string()),
        ]
    );
}
