use plojo::text::{is_whitespace, to_ascii_lowercase, to_ascii_uppercase};

#[test]
fn whitespace_characters() {
    for c in ['\t', '\n', '\u{b}', '\u{c}', '\r', ' ', '\u{85}', '\u{a0}', '\u{1680}', '\u{2000}',
        '\u{200a}', '\u{2028}', '\u{2029}', '\u{202f}', '\u{205f}', '\u{3000}']
    {
        assert!(is_whitespace(c), "{:?}", c);
        assert_eq!(is_whitespace(c), c.is_whitespace());
    }
    for c in ['a', '\u{8}', '\u{e}', '\u{180e}', '\u{200b}', '\u{feff}', 'é', '-'] {
        assert!(!is_whitespace(c), "{:?}", c);
        assert_eq!(is_whitespace(c), c.is_whitespace());
    }
}

#[test]
fn ascii_case_of_characters() {
    assert_eq!(to_ascii_uppercase('a'), 'A');
    assert_eq!(to_ascii_uppercase('z'), 'Z');
    assert_eq!(to_ascii_uppercase('A'), 'A');
    assert_eq!(to_ascii_uppercase('é'), 'é');
    assert_eq!(to_ascii_uppercase('{'), '{');
    assert_eq!(to_ascii_lowercase('A'), 'a');
    assert_eq!(to_ascii_lowercase('Z'), 'z');
    assert_eq!(to_ascii_lowercase('@'), '@');
    assert_eq!(to_ascii_lowercase('É'), 'É');
}
