use plojo::base::{Command, Stroke};
use plojo::standard::dictionary::Dictionary;
use plojo::standard::translate::{translate_strokes, try_suffix_folding};
use plojo::standard::{StateAction, Text, Translation};

fn testing_dict() -> Dictionary {
    // handy helper function for making dictionary entries
    fn row(stroke: &str, translation: &str) -> (Stroke, Vec<Translation>) {
        (
            Stroke::new(stroke),
            vec![Translation::Text(Text::Lit(translation.to_string()))],
        )
    }

    Dictionary::from_entries(vec![
        (row("H-L", "Hello")),
        (row("WORLD", "World")),
        (row("H-L/A", "He..llo")),
        (row("A", "Wrong thing")),
        (row("TPHO/WUPB", "no one")),
        (row("KW/A/TP", "request an if")),
        (row("H-L/A/WORLD", "hello a world")),
        (row("KW/H-L/WORLD", "request a hello world")),
        (row("PWEUG", "big")),
        (row("PWEUG/PWOEU", "Big Boy")),
        (row("TPAOD", "food")),
        (row("-S", "s")),
        (row("-G", "ing")),
        (row("PH*PB", "mountain")),
        (
            Stroke::new("KPA"),
            vec![Translation::Text(Text::StateAction(
                StateAction::ForceCapitalize,
            ))],
        ),
        (
            Stroke::new("TKAO*ER"),
            vec![
                Translation::Text(Text::Lit("deer and printing hello".to_string())),
                Translation::Command {
                    cmds: vec![Command::PrintHello],
                    text_after: None,
                    suppress_space_before: false,
                },
            ],
        ),
    ])
}

#[test]
fn test_basic() {
    let dict = testing_dict();
    let strokes = vec![Stroke::new("H-L")];
    let translations = translate_strokes(&dict, &strokes);

    assert_eq!(
        translations,
        vec![Translation::Text(Text::Lit("Hello".to_string()))]
    );
}

#[test]
fn test_multistroke() {
    let dict = testing_dict();
    let strokes = vec![Stroke::new("A"), Stroke::new("H-L")];
    let translations = translate_strokes(&dict, &strokes);

    assert_eq!(
        translations,
        vec![
            Translation::Text(Text::Lit("Wrong thing".to_string())),
            Translation::Text(Text::Lit("Hello".to_string()))
        ]
    );
}

#[test]
fn test_correction() {
    let dict = testing_dict();
    let strokes = vec![Stroke::new("H-L"), Stroke::new("A")];
    let translations = translate_strokes(&dict, &strokes);

    assert_eq!(
        translations,
        vec![Translation::Text(Text::Lit("He..llo".to_string()))]
    );
}

#[test]
fn test_correction_with_history() {
    let dict = testing_dict();
    let strokes = vec![Stroke::new("WORLD"), Stroke::new("H-L"), Stroke::new("A")];
    let translations = translate_strokes(&dict, &strokes);

    assert_eq!(
        translations,
        vec![
            Translation::Text(Text::Lit("World".to_string())),
            Translation::Text(Text::Lit("He..llo".to_string()))
        ]
    );
}

#[test]
fn test_unknown_stroke() {
    let dict = testing_dict();
    let strokes = vec![Stroke::new("SKWR")];
    let translations = translate_strokes(&dict, &strokes);

    assert_eq!(
        translations,
        vec![Translation::Text(Text::UnknownStroke(Stroke::new("SKWR")))]
    );
}

#[test]
fn test_all_unknown_stroke() {
    let dict = testing_dict();
    let strokes = vec![
        Stroke::new("TPHO"),
        Stroke::new("TPHOU"),
        Stroke::new("TPHOUT"),
    ];

    let translations = translate_strokes(&dict, &strokes);

    assert_eq!(
        translations,
        vec![
            Translation::Text(Text::UnknownStroke(Stroke::new("TPHO"))),
            Translation::Text(Text::UnknownStroke(Stroke::new("TPHOU"))),
            Translation::Text(Text::UnknownStroke(Stroke::new("TPHOUT")))
        ]
    );
}

#[test]
fn test_multi_unknown_stroke() {
    let dict = testing_dict();
    let strokes = vec![
        Stroke::new("TPHO"),
        Stroke::new("TPHOU"),
        Stroke::new("TPHO"),
        Stroke::new("WUPB"),
    ];

    let translations = translate_strokes(&dict, &strokes);

    assert_eq!(
        translations,
        vec![
            Translation::Text(Text::UnknownStroke(Stroke::new("TPHO"))),
            Translation::Text(Text::UnknownStroke(Stroke::new("TPHOU"))),
            Translation::Text(Text::Lit("no one".to_string()))
        ]
    );
}

#[test]
fn test_middle_unknown() {
    let dict = testing_dict();
    let strokes = vec![Stroke::new("H-L"), Stroke::new("A"), Stroke::new("WORLD")];

    let translations = translate_strokes(&dict, &strokes);

    assert_eq!(
        translations,
        vec![Translation::Text(Text::Lit("hello a world".to_string()))]
    );
}

#[test]
fn test_around_unknown() {
    let dict = testing_dict();
    let strokes = vec![Stroke::new("KW"), Stroke::new("A"), Stroke::new("TP")];

    let translations = translate_strokes(&dict, &strokes);

    assert_eq!(
        translations,
        vec![Translation::Text(Text::Lit("request an if".to_string()))]
    );
}

#[test]
fn test_beginning_unknown() {
    let dict = testing_dict();
    let strokes = vec![Stroke::new("KW"), Stroke::new("H-L"), Stroke::new("WORLD")];

    let translations = translate_strokes(&dict, &strokes);

    assert_eq!(
        translations,
        vec![Translation::Text(Text::Lit(
            "request a hello world".to_string()
        ))]
    );
}

#[test]
fn test_multiple_translations() {
    let dict = testing_dict();
    let strokes = vec![Stroke::new("H-L"), Stroke::new("TKAO*ER")];

    let translations = translate_strokes(&dict, &strokes);

    assert_eq!(
        translations,
        vec![
            Translation::Text(Text::Lit("Hello".to_string())),
            Translation::Text(Text::Lit("deer and printing hello".to_string())),
            Translation::Command {
                cmds: vec![Command::PrintHello],
                text_after: None,
                suppress_space_before: false,
            },
        ]
    );
}

#[test]
fn test_text_actions() {
    let dict = testing_dict();
    let strokes = vec![Stroke::new("H-L"), Stroke::new("KPA")];

    let translations = translate_strokes(&dict, &strokes);

    assert_eq!(
        translations,
        vec![
            Translation::Text(Text::Lit("Hello".to_string())),
            Translation::Text(Text::StateAction(StateAction::ForceCapitalize))
        ]
    );
}

#[test]
fn test_suffix_folding() {
    fn all_text_helper(text: &[&str]) -> Vec<Translation> {
        let mut translations = Vec::with_capacity(text.len());
        for t in text {
            translations.push(Translation::Text(Text::Lit(t.to_string())));
        }
        translations
    }
    let dict = testing_dict();

    assert_eq!(
        try_suffix_folding(&dict, &Stroke::new("H-LS")).unwrap(),
        all_text_helper(&["Hello", "s"])
    );
    assert_eq!(
        try_suffix_folding(&dict, &Stroke::new("TPAOGD")).unwrap(),
        all_text_helper(&["food", "ing"])
    );
    assert_eq!(
        try_suffix_folding(&dict, &Stroke::new("PH*PBS")).unwrap(),
        all_text_helper(&["mountain", "s"])
    );
    assert!(try_suffix_folding(&dict, &Stroke::new("SH-L")).is_none());
    assert!(try_suffix_folding(&dict, &Stroke::new("TPAOGSD")).is_none());
    assert!(try_suffix_folding(&dict, &Stroke::new("H")).is_none());
    assert!(try_suffix_folding(&dict, &Stroke::new("H-LZ")).is_none());
    assert!(try_suffix_folding(&dict, &Stroke::new("STPAODS")).is_none());
}

#[test]
fn dictionary_overwrite() {
    let raw_dict1 = r#"
        {
            "H-L": "hello",
            "WORLD": "world"
        }
    "#
    .to_string();
    let raw_dict2 = r#"
        {
            "WORLD": "something else"
        }
    "#
    .to_string();

    let dict = Dictionary::new(vec![raw_dict1, raw_dict2]).unwrap();
    assert_eq!(
        dict.lookup(&[Stroke::new("WORLD")]).unwrap(),
        vec![Translation::Text(Text::Lit("something else".to_string()))]
    );
}
