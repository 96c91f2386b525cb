use plojo::base::{Command, Key, Modifier, SpecialKey};
use plojo::plover::{
    convert_keyboard_shortcut, convert_translation, parse_key_combo, serialize, Cmd,
    ConversionError,
};
use serde_json::Value;

#[test]
fn test_parse_key_combo() {
    assert_eq!(
        parse_key_combo("Control_L(Alt_L(Super_L(Left)))").unwrap(),
        Command::Keys(
            Key::Special(SpecialKey::LeftArrow),
            vec![Modifier::Control, Modifier::Alt, Modifier::Meta]
        )
    );
    assert_eq!(
        parse_key_combo("option(a)").unwrap(),
        Command::Keys(Key::Layout('a'), vec![Modifier::Option])
    );
    assert_eq!(
        parse_key_combo("bAcKsPacE").unwrap(),
        Command::Keys(Key::Special(SpecialKey::Backspace), vec![])
    );
}

#[test]
fn test_keyboard_shortcut_fails() {
    assert_eq!(
        convert_keyboard_shortcut("{#Tab Tab}").unwrap_err(),
        ConversionError::InvalidFormat
    );
    assert_eq!(
        convert_keyboard_shortcut("{#super(a) super(b)}").unwrap_err(),
        ConversionError::InvalidFormat
    );
    assert_eq!(
        convert_keyboard_shortcut("{#shift_l(space space)}").unwrap_err(),
        ConversionError::InvalidFormat
    );
    assert_eq!(
        convert_keyboard_shortcut("{#shift_l(alt_l(b)}").unwrap_err(),
        ConversionError::UnbalancedParens
    );
}

#[test]
fn shortcut_entries() {
    let c = convert_keyboard_shortcut("{^}{#Tab}{^}{-|}").unwrap();
    assert_eq!(c.cmds, vec![Command::Keys(Key::Special(SpecialKey::Tab), vec![])]);
    assert_eq!(c.text_after, Some("{^}{-|}".to_string()));
    assert!(c.suppress_space_before);
    let c = convert_keyboard_shortcut("{#Tab}").unwrap();
    assert_eq!(c.text_after, None);
    assert!(!c.suppress_space_before);
    assert_eq!(
        parse_key_combo("hyper(a)").unwrap_err(),
        ConversionError::UnknownModifier("hyper".to_string())
    );
    assert_eq!(
        parse_key_combo("shift(nokey)").unwrap_err(),
        ConversionError::UnknownKey("nokey".to_string())
    );
    assert!(convert_translation("{#}").is_none());
    assert!(convert_translation("hello").is_none());
    assert!(convert_translation("{#Return}").unwrap().is_ok());
}

fn tab_entry(text_after: Option<&str>, suppress_space_before: bool) -> Cmd {
    Cmd {
        cmds: vec![Command::Keys(Key::Special(SpecialKey::Tab), vec![])],
        text_after: text_after.map(|t| t.to_string()),
        suppress_space_before,
    }
}

#[test]
fn test_convert_keyboard_shortcut() {
    // { "cmds": [{ "Keys": [{ "Special": "Tab" }, []] }] }
    assert_eq!(
        convert_keyboard_shortcut("{#Tab}").unwrap(),
        tab_entry(None, false)
    );
    // with "suppress_space_before": true
    assert_eq!(
        convert_keyboard_shortcut("{^}{#Tab}").unwrap(),
        tab_entry(None, true)
    );
    // with "text_after": "{^}"
    assert_eq!(
        convert_keyboard_shortcut("{#Tab}{^}").unwrap(),
        tab_entry(Some("{^}"), false)
    );
    // with both
    assert_eq!(
        convert_keyboard_shortcut("{^}{#Tab}{^}{-|}").unwrap(),
        tab_entry(Some("{^}{-|}"), true)
    );
}

/// The entries of a JSON object in the order `serde_json` keeps them (sorted by key), each with
/// the JSON text of its value
fn object_entries(json: &str) -> Vec<(String, String)> {
    match serde_json::from_str::<Value>(json).unwrap() {
        Value::Object(map) => map
            .iter()
            .map(|(k, v)| (k.clone(), v.to_string()))
            .collect(),
        _ => panic!("top level serialize value should be an object"),
    }
}

#[test]
fn test_serialize() {
    assert_eq!(
        serialize(&object_entries(
            r#"{
                "T-R": "interest",
                "PAT": "pat",
                "H-L": "hello",
                "WORLD": "world",
                "R-R": {
                    "cmds": [{ "Keys": [{ "Special": "Tab" }, []] }]
                }
            }"#
        )),
        r#"{
"H-L": "hello",
"PAT": "pat",
"R-R": {"cmds":[{"Keys":[{"Special":"Tab"},[]]}]},
"T-R": "interest",
"WORLD": "world"
}"#
        .to_string()
    );
    assert_eq!(
        serialize(&object_entries(
            r#"{
                "R-R": {
                    "cmds": [{ "Keys": [{ "Special": "Tab" }, []] }],
                    "suppress_space_before": true,
                    "text_after": "{^}{-|}"
                }
            }"#
        )),
        r#"{
"R-R": {"cmds":[{"Keys":[{"Special":"Tab"},[]]}],"suppress_space_before":true,"text_after":"{^}{-|}"}
}"#
        .to_string()
    );
    assert_eq!(serialize(&object_entries("{}")), "{}".to_string());
}
