use plojo::base::Stroke;
use plojo::input_stdin::{trim, StdinMachine};

#[test]
fn line_with_stroke() {
    let m = StdinMachine::new();
    assert_eq!(m.stroke_from_line("  H-L \n"), Some(Stroke::new("H-L")));
    assert_eq!(m.stroke_from_line("STPH/WORLD"), Some(Stroke::new("STPH/WORLD")));
}

#[test]
fn blank_line_has_no_stroke() {
    let m = StdinMachine::new();
    assert_eq!(m.stroke_from_line(""), None);
    assert_eq!(m.stroke_from_line(" \t\r\n"), None);
}

#[test]
fn trim_unicode_whitespace() {
    assert_eq!(trim("\t a b\u{3000}"), "a b");
    assert_eq!(trim("x"), "x");
    assert_eq!(trim("   "), "");
}
