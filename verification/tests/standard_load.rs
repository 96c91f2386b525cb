use plojo::base::Stroke;
use plojo::standard::load::{load_dicts, parse_translation, ParseError};
use plojo::standard::{StateAction, Text, TextAction, Translation};

#[test]
fn test_translation_literal_bracket() {
    assert_eq!(
        parse_translation("{bracketleft}").unwrap(),
        vec![Translation::Text(Text::Lit("{".to_string())),]
    );
    assert_eq!(
        parse_translation("{bracketright}").unwrap(),
        vec![Translation::Text(Text::Lit("}".to_string())),]
    );
}

#[test]
fn test_translation_unicode() {
    assert_eq!(
        parse_translation("©").unwrap(),
        vec![Translation::Text(Text::Lit("©".to_string()))]
    );
}

#[test]
fn test_translation_empty_err() {
    assert_eq!(
        parse_translation("").unwrap_err(),
        ParseError::EmptyTranslation
    );
}

#[test]
fn parse_error_text() {
    assert_eq!(ParseError::EmptyTranslation.to_string(), "EmptyTranslation");
    assert_eq!(
        ParseError::InvalidStroke("a\"b".to_string()).to_string(),
        r#"InvalidStroke("a\"b")"#
    );
    assert_eq!(
        ParseError::JsonError("x".to_string()).to_string(),
        format!("{:?}", ParseError::JsonError("x".to_string()))
    );
}

// The older generation of these cases wrote spacing and capitalization as text actions; the
// same inputs are checked here in the translation types of the standard translator: an
// attached text carries whether it joins the next word, whether it attaches to the previous one
// (with or without orthography) and whether it carries the capitalization.

fn attached(text: &str, joined_next: bool, do_orthography: Option<bool>, carry: bool) -> Translation {
    Translation::Text(Text::Attached {
        text: text.to_string(),
        joined_next,
        do_orthography,
        carry_capitalization: carry,
    })
}

fn lit(text: &str) -> Translation {
    Translation::Text(Text::Lit(text.to_string()))
}

#[test]
fn load_test_translation_suffix() {
    // `{^}` should suppress space
    assert_eq!(parse_translation("{^}").unwrap(), vec![attached("", true, Some(false), false)]);
    // `{^^}` should also suppress space
    assert_eq!(parse_translation("{^^}").unwrap(), vec![attached("", true, Some(false), false)]);
    // `{^}sh` should simply join "sh" to the previous word
    assert_eq!(
        parse_translation("{^}sh").unwrap(),
        vec![attached("", true, Some(false), false), lit("sh")]
    );
    // `{^ish}` should be an attached (apply orthography) ish
    assert_eq!(parse_translation("{^ish}").unwrap(), vec![attached("ish", false, Some(true), false)]);
    // `{^-to-^}` should be "-to-" attached with orthography with space suppressed following it
    assert_eq!(
        parse_translation("{^-to-^}").unwrap(),
        vec![attached("-to-", true, Some(true), false)]
    );
    // `{in^}` should be an "in" followed by a suppressed space
    assert_eq!(parse_translation("{in^}").unwrap(), vec![attached("in", true, None, false)]);
}

#[test]
fn test_translation_text_actions() {
    let force_cap = || Translation::Text(Text::StateAction(StateAction::ForceCapitalize));
    // uppercase next word
    assert_eq!(parse_translation("{-|}").unwrap(), vec![force_cap()]);
    // uppercase next word and suppress space
    assert_eq!(
        parse_translation("{^}{-|}").unwrap(),
        vec![attached("", true, Some(false), false), force_cap()]
    );
    // uppercase previus word
    assert_eq!(
        parse_translation("{*-|}").unwrap(),
        vec![Translation::Text(Text::TextAction(TextAction::CapitalizePrev))]
    );
    // add space to prev word
    assert_eq!(
        parse_translation("{*?}").unwrap(),
        vec![Translation::Text(Text::TextAction(TextAction::AddSpacePrev))]
    );
    // remove space from prev word
    assert_eq!(
        parse_translation("{*!}").unwrap(),
        vec![Translation::Text(Text::TextAction(TextAction::SuppressSpacePrev))]
    );
}

#[test]
fn loading_a_dictionary_with_an_empty_action() {
    let contents = r#"
{
"TP": "if",
"KPA": "{}{-|}",
"-T/WUPB": "The One"
}
        "#;
    let mut parsed = load_dicts(contents).unwrap();
    parsed.sort_by(|a, b| a.0.as_str().cmp(b.0.as_str()));
    assert_eq!(
        parsed,
        vec![
            (
                Stroke::new("-T/WUPB"),
                vec![Translation::Text(Text::Lit("The One".to_string()))],
            ),
            (
                Stroke::new("KPA"),
                vec![
                    Translation::Text(Text::StateAction(StateAction::Clear)),
                    Translation::Text(Text::StateAction(StateAction::ForceCapitalize)),
                ],
            ),
            (Stroke::new("TP"), vec![Translation::Text(Text::Lit("if".to_string()))]),
        ]
    );
}

#[test]
fn test_translation_carrying_capitalization() {
    // quote attached to next word
    assert_eq!(parse_translation(r#"{~|"^}"#).unwrap(), vec![attached("\"", true, None, true)]);
    // parentheses attached to previous word
    assert_eq!(parse_translation(r#"{^~|(}"#).unwrap(), vec![attached("(", false, Some(true), true)]);
    // quote attached on both sides
    assert_eq!(parse_translation(r#"{^~|'^}"#).unwrap(), vec![attached("'", true, Some(true), true)]);
    // quote followed by word
    assert_eq!(
        parse_translation(r#"{~|'^}cause"#).unwrap(),
        vec![attached("'", true, None, true), lit("cause")]
    );
    // long text carrying capitalized
    assert_eq!(parse_translation(r#"{~|hello^}"#).unwrap(), vec![attached("hello", true, None, true)]);
}

#[test]
fn test_translation_punctuation() {
    assert_eq!(
        parse_translation("{.}").unwrap(),
        vec![
            attached(".", false, Some(false), false),
            Translation::Text(Text::StateAction(StateAction::ForceCapitalize)),
        ]
    );
}
