use plojo::base::{Command, Key, Modifier};
use plojo::legacy::{Controller, ControllerAction};
use plojo::output_autopilot::{AutopilotAction, AutopilotController};
use plojo::output_enigo::{EnigoKey, KeyboardAction};

#[test]
fn legacy_controller_types_one_key_at_a_time() {
    let mut c = Controller::new();
    let actions = c.parse(vec![
        ControllerAction::BackspaceWithDelay(2, 10),
        ControllerAction::TypeWithDelay("hé".to_string(), 20),
        ControllerAction::PrintHello,
    ]);
    assert_eq!(
        actions,
        vec![
            KeyboardAction::Click(EnigoKey::Backspace),
            KeyboardAction::Sleep(10),
            KeyboardAction::Click(EnigoKey::Backspace),
            KeyboardAction::Sleep(10),
            KeyboardAction::Sequence("h".to_string()),
            KeyboardAction::Sleep(20),
            KeyboardAction::Sequence("é".to_string()),
            KeyboardAction::Sleep(20),
            KeyboardAction::PrintHello,
        ]
    );
    assert_eq!(c.parse(vec![]), vec![]);
}

#[test]
fn autopilot_taps_backspace_and_types_text() {
    let mut c = AutopilotController::new();
    assert_eq!(
        c.dispatch(Command::Replace(2, "ab".to_string())),
        vec![
            AutopilotAction::TapBackspace(5),
            AutopilotAction::TapBackspace(5),
            AutopilotAction::TypeString("ab".to_string()),
        ]
    );
    assert_eq!(
        c.dispatch(Command::Replace(0, "x".to_string())),
        vec![AutopilotAction::TypeString("x".to_string())]
    );
    assert_eq!(
        c.dispatch(Command::Replace(1, String::new())),
        vec![AutopilotAction::TapBackspace(5)]
    );
    assert_eq!(c.dispatch(Command::NoOp), vec![]);
    assert_eq!(c.dispatch(Command::PrintHello), vec![AutopilotAction::PrintHello]);
}

#[test]
fn autopilot_warns_of_keys_and_raw_codes() {
    let mut c = AutopilotController::new();
    assert_eq!(
        c.dispatch(Command::Keys(Key::Layout('a'), vec![Modifier::Control])),
        vec![AutopilotAction::UnsupportedKeys(Key::Layout('a'), vec![Modifier::Control])]
    );
    assert_eq!(c.dispatch(Command::Raw(3)), vec![AutopilotAction::UnsupportedRaw(3)]);
}
