use plojo::base::{Command, Key, Modifier, SpecialKey};
use plojo::json_text::{write_command_json, write_json_str};
use plojo::plover::{convert_dictionary, serialize, NOT_JSON, NOT_OBJECT, NOT_STRINGS};

#[test]
fn convert_whole_dictionary() {
    let contents = r#"{
        "E": "{^}{#shift(a)}{^}",
        "A": "{#Tab}",
        "B": "hello",
        "C": "{#super(a) super(b)}",
        "D": "{#}"
    }"#;
    let entries = convert_dictionary(contents).unwrap();
    assert_eq!(
        entries,
        vec![
            ("A".to_string(), r#"{"cmds":[{"Keys":[{"Special":"Tab"},[]]}]}"#.to_string()),
            ("B".to_string(), r#""hello""#.to_string()),
            ("C".to_string(), r#""{#super(a) super(b)}""#.to_string()),
            ("D".to_string(), r#""{#}""#.to_string()),
            (
                "E".to_string(),
                r#"{"cmds":[{"Keys":[{"Layout":"a"},["Shift"]]}],"suppress_space_before":true,"text_after":"{^}"}"#
                    .to_string()
            ),
        ]
    );
    assert_eq!(
        serialize(&entries[..1].to_vec()),
        "{\n\"A\": {\"cmds\":[{\"Keys\":[{\"Special\":\"Tab\"},[]]}]}\n}"
    );
}

#[test]
fn convert_dictionary_errors() {
    assert_eq!(convert_dictionary("{"), Err(NOT_JSON.to_string()));
    assert_eq!(convert_dictionary("[1]"), Err(NOT_OBJECT.to_string()));
    assert_eq!(
        convert_dictionary(r#"{"A": "a", "B": 3}"#),
        Err(NOT_STRINGS.to_string())
    );
    assert_eq!(convert_dictionary("{}"), Ok(vec![]));
}

#[test]
fn json_strings_as_serde_writes_them() {
    assert_eq!(write_json_str(""), r#""""#);
    assert_eq!(write_json_str("plain"), r#""plain""#);
    assert_eq!(write_json_str("a\"b\\c"), r#""a\"b\\c""#);
    assert_eq!(write_json_str("line\nbreak\ttab\r"), r#""line\nbreak\ttab\r""#);
    assert_eq!(write_json_str("\u{1}\u{8}\u{c}\u{1f}"), r#""\u0001\b\f\u001f""#);
    assert_eq!(write_json_str("é—Ω\u{7f}"), "\"é—Ω\u{7f}\"");
    assert_eq!(write_json_str("{^}"), r#""{^}""#);
}

#[test]
fn commands_as_json() {
    assert_eq!(
        write_command_json(&Command::Keys(
            Key::Layout('"'),
            vec![Modifier::Control, Modifier::Meta]
        )),
        r#"{"Keys":[{"Layout":"\""},["Control","Meta"]]}"#
    );
    assert_eq!(
        write_command_json(&Command::Replace(3, "hi".to_string())),
        r#"{"Replace":[3,"hi"]}"#
    );
    assert_eq!(write_command_json(&Command::NoOp), r#""NoOp""#);
    assert_eq!(write_command_json(&Command::Raw(126)), r#"{"Raw":126}"#);
    assert_eq!(
        write_command_json(&Command::Shell(
            "open".to_string(),
            vec!["-a".to_string(), "Safari".to_string()]
        )),
        r#"{"Shell":["open",["-a","Safari"]]}"#
    );
    assert_eq!(
        write_command_json(&Command::Keys(Key::Special(SpecialKey::PageUp), vec![])),
        r#"{"Keys":[{"Special":"PageUp"},[]]}"#
    );
}
