use plojo::base::{Command, Key, Modifier, SpecialKey};
use plojo::output_enigo::{
    from_internal_key, from_modifier, EnigoController, EnigoKey, KeyboardAction,
    BACKSPACE_DELAY, KEY_DELAY, KEY_HOLD_DELAY,
};

#[test]
fn replace_presses_backspace_then_types() {
    let mut c = EnigoController::new();
    let actions = c.dispatch(Command::Replace(2, "hé".to_string()));
    assert_eq!(
        actions,
        vec![
            KeyboardAction::Click(EnigoKey::Backspace),
            KeyboardAction::Sleep(BACKSPACE_DELAY),
            KeyboardAction::Click(EnigoKey::Backspace),
            KeyboardAction::Sleep(BACKSPACE_DELAY),
            KeyboardAction::Sequence("h".to_string()),
            KeyboardAction::Sleep(KEY_DELAY),
            KeyboardAction::Sequence("é".to_string()),
            KeyboardAction::Sleep(KEY_DELAY),
        ]
    );
    assert_eq!(c.dispatch(Command::Replace(0, String::new())), vec![]);
}

#[test]
fn keys_hold_modifiers_first() {
    let mut c = EnigoController::new();
    let actions = c.dispatch(Command::Keys(
        Key::Layout('a'),
        vec![Modifier::Control, Modifier::Shift],
    ));
    assert_eq!(
        actions,
        vec![
            KeyboardAction::Down(EnigoKey::Control),
            KeyboardAction::Sleep(KEY_HOLD_DELAY),
            KeyboardAction::Down(EnigoKey::Shift),
            KeyboardAction::Sleep(KEY_HOLD_DELAY),
            KeyboardAction::Down(EnigoKey::Layout('a')),
            KeyboardAction::Sleep(KEY_HOLD_DELAY),
            KeyboardAction::Up(EnigoKey::Control),
            KeyboardAction::Up(EnigoKey::Shift),
            KeyboardAction::Up(EnigoKey::Layout('a')),
        ]
    );
}

#[test]
fn other_commands() {
    let mut c = EnigoController::new();
    assert_eq!(c.dispatch(Command::Raw(12)), vec![KeyboardAction::Click(EnigoKey::Raw(12))]);
    assert_eq!(c.dispatch(Command::NoOp), vec![]);
    assert_eq!(c.dispatch(Command::PrintHello), vec![KeyboardAction::PrintHello]);
    assert_eq!(
        c.dispatch(Command::Shell("open".to_string(), vec!["-a".to_string()])),
        vec![KeyboardAction::Shell("open".to_string(), vec!["-a".to_string()])]
    );
}

#[test]
fn key_conversion() {
    assert_eq!(from_internal_key(Key::Special(SpecialKey::UpArrow)), EnigoKey::Raw(0x7e));
    assert_eq!(from_internal_key(Key::Special(SpecialKey::F10)), EnigoKey::F10);
    assert_eq!(from_internal_key(Key::Layout('z')), EnigoKey::Layout('z'));
    assert_eq!(from_modifier(Modifier::Meta), EnigoKey::Meta);
    assert_eq!(from_modifier(Modifier::Option), EnigoKey::Option);
}
