use plojo::base::{Command, Stroke, Translator};
use plojo::geminipr::parse_raw;
use plojo::standard::load::parse_translation;
use plojo::standard::translator::StandardTranslator;
use plojo::telemetry::{Content, FrequencyAnalyzer, LogEntry, Processor};

/// Performs the text commands on the text before the cursor
fn apply(text: &mut String, commands: Vec<Command>) {
    for command in commands {
        if let Command::Replace(backspace_num, add_text) = command {
            let kept = text.chars().count() - backspace_num;
            *text = text.chars().take(kept).collect::<String>() + &add_text;
        }
    }
}

fn translator(raw_dict: &str, starting: &[&str]) -> StandardTranslator {
    StandardTranslator::new(
        vec![raw_dict.to_string()],
        starting.iter().map(|s| Stroke::new(s)).collect(),
        vec![],
        None,
        false,
    )
    .unwrap()
}

#[test]
fn translate_then_undo_restores_text() {
    let mut t = translator(r#"{"H-L": "hello", "WORLD": "world"}"#, &["H-L"]);
    let mut text = " hello".to_string();
    apply(&mut text, t.translate(Stroke::new("WORLD")));
    assert_eq!(text, " hello world");
    apply(&mut text, t.undo());
    assert_eq!(text, " hello");
}

#[test]
fn translate_then_undo_restores_text_with_accents() {
    let mut t = translator(
        r#"{"KAEF": "café", "KAEF/-S": "cafés", "-S": "{^s}"}"#,
        &["KAEF"],
    );
    let mut text = " café".to_string();
    apply(&mut text, t.translate(Stroke::new("-S")));
    assert_eq!(text, " cafés");
    apply(&mut text, t.undo());
    assert_eq!(text, " café");
}

#[test]
fn parse_raw_ignores_bits_of_no_key() {
    let plain = parse_raw(&vec![128, 48, 36, 0, 2, 0]);
    let noisy = parse_raw(&vec![192, 176, 39, 64, 130, 142]);
    assert_eq!(plain, Stroke::new("STA*S"));
    assert_eq!(noisy, plain);
}

fn entry(stroke: &str, content: Content) -> LogEntry {
    LogEntry {
        time: 0,
        stroke: stroke.to_string(),
        content,
    }
}

fn typed(stroke: &str) -> LogEntry {
    entry(
        stroke,
        Content::Replace {
            backspace_num: 0,
            text: " x".to_string(),
        },
    )
}

#[test]
fn grams_1_holds_each_stroke_once_with_its_count() {
    let mut f = FrequencyAnalyzer::new();
    f.process(&vec![typed("-T"), typed("K-R"), typed("-T")]);
    f.process(&vec![
        typed("-T"),
        typed("TO"),
        entry("*", Content::Replace { backspace_num: 3, text: String::new() }),
        entry("K-R", Content::Command),
        entry("TO", Content::NoOp),
    ]);
    let t = "-T".to_string();
    let kr = "K-R".to_string();
    let to = "TO".to_string();
    assert_eq!(f.grams_1(1), vec![(&t, 3), (&kr, 1), (&to, 1)]);
    assert_eq!(f.grams_1(2), vec![(&t, 3)]);
    assert_eq!(f.grams_1(4), vec![]);
}

#[test]
fn parsing_concatenated_entries() {
    let mut both = parse_translation("{^}").unwrap();
    both.extend(parse_translation("sh").unwrap());
    assert_eq!(parse_translation("{^}sh").unwrap(), both);

    let mut both = parse_translation("{^}").unwrap();
    both.extend(parse_translation("{-|}").unwrap());
    assert_eq!(parse_translation("{^}{-|}").unwrap(), both);

    let mut both = parse_translation("hi").unwrap();
    both.extend(parse_translation("{,}there").unwrap());
    assert_eq!(parse_translation("hi{,}there").unwrap(), both);
}
