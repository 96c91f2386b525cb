use plojo::applescript::{type_key, ApplescriptController, Cmd, OsaAction};
use plojo::base::{Command, Key, Modifier, SpecialKey};

#[test]
fn test_type_key() {
    assert_eq!(
        type_key(Key::Layout('a'), vec![Modifier::Meta]),
        Cmd(r#"keystroke "a" using { command down }"#.to_string())
    );
    assert_eq!(
        type_key(
            Key::Special(SpecialKey::PageUp),
            vec![Modifier::Control, Modifier::Shift]
        ),
        Cmd(r#"key code 116 using { control down, shift down }"#.to_string())
    );
    assert_eq!(
        type_key(Key::Special(SpecialKey::PageDown), vec![]),
        Cmd(r#"key code 121"#.to_string())
    );
}

#[test]
fn dispatch_replace_and_keys() {
    let mut c = ApplescriptController::new();
    assert_eq!(
        c.dispatch(Command::Replace(0, "hi".to_string())),
        vec![
            OsaAction::Run(vec![
                "repeat 0 times".to_string(),
                r#"tell application "System Events" to key code 51"#.to_string(),
                "end repeat".to_string(),
            ]),
            OsaAction::Run(vec![
                r#"tell application "System Events" to keystroke "hi""#.to_string()
            ]),
        ]
    );
    assert_eq!(
        c.dispatch(Command::Keys(Key::Special(SpecialKey::Tab), vec![Modifier::Meta])),
        vec![OsaAction::Run(vec![
            r#"tell application "System Events" to key code 48 using { command down }"#.to_string()
        ])]
    );
    assert_eq!(c.dispatch(Command::NoOp), vec![]);
    assert_eq!(c.dispatch(Command::PrintHello), vec![OsaAction::PrintHello]);
}
