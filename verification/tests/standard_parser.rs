use plojo::base::Stroke;
use plojo::standard::parser::{
    find_last_word, parse_translation, perform_text_action, word_change_first_letter,
};
use plojo::standard::{StateAction, Text, TextAction};

#[test]
fn parser_test_parse_empty() {
    let translated = parse_translation(vec![], false);

    assert_eq!(translated, "");
}

#[test]
fn parser_test_parse_basic() {
    let translated = parse_translation(
    vec![
        Text::Lit("hello".to_string()),
        Text::Lit("hi".to_string()),
    ],
        false,
    );

    assert_eq!(translated, " hello hi");
}

#[test]
fn parser_test_parse_text_actions() {
    let translated = parse_translation(
    vec![
        Text::StateAction(StateAction::SuppressSpace),
        Text::StateAction(StateAction::ForceCapitalize),
        Text::Lit("hello".to_string()),
        Text::Lit("hi".to_string()),
        Text::StateAction(StateAction::ForceCapitalize),
        Text::Lit("FOo".to_string()),
        Text::Lit("bar".to_string()),
        Text::Lit("baZ".to_string()),
        Text::StateAction(StateAction::SuppressSpace),
        Text::Lit("NICE".to_string()),
        Text::StateAction(StateAction::SuppressSpace),
        Text::Lit("".to_string()),
        Text::Lit("well done".to_string()),
    ],
        false,
    );

    assert_eq!(translated, "Hello hi FOo bar baZNICE well done");
}

#[test]
fn parser_test_parse_prev_word_text_actions() {
    let translated = parse_translation(
    vec![
        Text::Lit("hi".to_string()),
        Text::TextAction(TextAction::CapitalizePrev),
        Text::TextAction(TextAction::CapitalizePrev),
        Text::Lit("FOo".to_string()),
        Text::Lit("bar".to_string()),
        Text::TextAction(TextAction::SuppressSpacePrev),
        Text::TextAction(TextAction::CapitalizePrev),
        Text::Lit("hello".to_string()),
        Text::Lit("Hi a".to_string()),
        Text::TextAction(TextAction::CapitalizePrev),
        Text::StateAction(StateAction::ForceCapitalize),
        Text::Lit("nice".to_string()),
        Text::UnknownStroke(Stroke::new("TP-TDZ")),
        Text::TextAction(TextAction::SuppressSpacePrev),
        Text::Lit("nice".to_string()),
        Text::StateAction(StateAction::SuppressSpace),
        Text::Lit("another".to_string()),
    ],
        false,
    );

    assert_eq!(translated, " Hi FOobar hello Hi A NiceTP-TDZ niceanother");
}

#[test]
fn parser_test_parse_line_start() {
    let translated = parse_translation(
    vec![
        Text::StateAction(StateAction::SuppressSpace),
        Text::StateAction(StateAction::ForceCapitalize),
        Text::Lit("hello".to_string()),
        Text::Lit("hi".to_string()),
    ],
        false,
    );

    assert_eq!(translated, "Hello hi");
}

#[test]
fn test_parse_glued() {
    let translated = parse_translation(
    vec![
        Text::Lit("hello".to_string()),
        Text::Glued("hi".to_string()),
        Text::Glued("hi".to_string()),
        Text::Lit("foo".to_string()),
        Text::Glued("two".to_string()),
        Text::Glued("three".to_string()),
    ],
        false,
    );

    assert_eq!(translated, " hello hihi foo twothree");
}

#[test]
fn parser_test_word_change_first_letter() {
    assert_eq!(word_change_first_letter("hello".to_owned(), true), "Hello");
    assert_eq!(word_change_first_letter("".to_owned(), true), "");
    assert_eq!(word_change_first_letter("Hello".to_owned(), true), "Hello");
}

#[test]
fn parser_test_unicode() {
    let translated = parse_translation(
    vec![
        Text::Lit("hi".to_string()),
        Text::Lit("hello".to_string()),
        Text::Lit("𐀀".to_string()),
        Text::TextAction(TextAction::SuppressSpacePrev),
        Text::Lit("©aa".to_string()),
        Text::TextAction(TextAction::CapitalizePrev),
        Text::TextAction(TextAction::SuppressSpacePrev),
    ],
        false,
    );

    assert_eq!(translated, " hi hello𐀀©aa");
}

#[test]
fn test_double_space() {
    let translated = parse_translation(
    vec![
        Text::Lit("hello".to_string()),
        Text::Attached {
            text: " ".to_string(),
            joined_next: true,
            do_orthography: Some(true),
                carry_capitalization: false,
        },
        Text::Attached {
            text: " ".to_string(),
            joined_next: true,
            do_orthography: Some(true),
                carry_capitalization: false,
        },
    ],
        false,
    );

    assert_eq!(translated, " hello  ");
}

#[test]
fn test_find_last_word() {
    assert_eq!(find_last_word("hello world"), 6);
    assert_eq!(find_last_word(" world"), 1);
    assert_eq!(find_last_word("test "), 5);
    assert_eq!(find_last_word("nospace"), 0);
    assert_eq!(find_last_word(" there are many words"), 16);
}

#[test]
fn test_perform_text_action() {
    assert_eq!(
        perform_text_action("foo bar", TextAction::SuppressSpacePrev),
        "foobar"
    );
    assert_eq!(
        perform_text_action(" hello", TextAction::CapitalizePrev),
        " Hello"
    );
    assert_eq!(
        perform_text_action(" there are many words", TextAction::CapitalizePrev),
        " there are many Words"
    );
}

#[test]
fn adding_a_space_before_the_previous_word() {
    assert_eq!(perform_text_action("hello", TextAction::AddSpacePrev), " hello");
    assert_eq!(perform_text_action(" hello", TextAction::AddSpacePrev), " hello");
    assert_eq!(perform_text_action("foo\thello", TextAction::AddSpacePrev), "foo\t hello");
    assert_eq!(perform_text_action("hello ", TextAction::AddSpacePrev), "hello ");
    assert_eq!(perform_text_action("", TextAction::AddSpacePrev), "");
    let removed = perform_text_action(" foo bar", TextAction::SuppressSpacePrev);
    assert_eq!(removed, " foobar");
    assert_eq!(perform_text_action(&removed, TextAction::AddSpacePrev), " foobar");
}
