use plojo::base::{Command, Key, Modifier, SpecialKey};
use plojo::output_macos::{
    find_keycode, key_to_keycode, modifier_to_key, modifiers_to_flags, MacController, MacEvent,
    BACKSPACE_DELAY, KEY_HOLD_DELAY, MODIFIER_DELAY, TYPE_DELAY,
};

#[test]
fn special_key_codes() {
    assert_eq!(key_to_keycode(SpecialKey::Backspace), 0x33);
    assert_eq!(key_to_keycode(SpecialKey::Delete), 0x75);
    assert_eq!(key_to_keycode(SpecialKey::UpArrow), 0x7e);
    assert_eq!(key_to_keycode(SpecialKey::F1), 0x7a);
    assert_eq!(modifier_to_key(Modifier::Alt), 0x3a);
    assert_eq!(modifier_to_key(Modifier::Meta), 0x37);
}

#[test]
fn flags_of_modifiers() {
    assert_eq!(modifiers_to_flags(&[]), 0);
    assert_eq!(
        modifiers_to_flags(&[Modifier::Shift, Modifier::Meta]),
        0x00020000 | 0x00100000
    );
    // Alt and Option are the same key
    assert_eq!(
        modifiers_to_flags(&[Modifier::Alt, Modifier::Option]),
        0x00080000
    );
}

#[test]
fn later_keys_win_in_scan() {
    let mut scan = vec![None; 70];
    scan[0] = Some('a');
    scan[5] = Some('a');
    scan[66] = Some('a');
    scan[9] = Some('z');
    assert_eq!(find_keycode(&scan, 'a'), Some(5));
    assert_eq!(find_keycode(&scan, 'z'), Some(9));
    assert_eq!(find_keycode(&scan, 'q'), None);
}

#[test]
fn replace_events() {
    let mut m = MacController::new(true, vec![]);
    let events = m.dispatch(Command::Replace(1, "é".to_string()), &vec![]);
    assert_eq!(
        events,
        vec![
            MacEvent::KeyDown(0x33, 0),
            MacEvent::Sleep(KEY_HOLD_DELAY),
            MacEvent::KeyUp(0x33),
            MacEvent::Sleep(BACKSPACE_DELAY),
            MacEvent::Char('é', true),
            MacEvent::Sleep(KEY_HOLD_DELAY),
            MacEvent::Char('é', false),
            MacEvent::Sleep(TYPE_DELAY),
        ]
    );
}

#[test]
fn shortcut_events_use_scan() {
    let mut scan = vec![None; 10];
    scan[3] = Some('c');
    // the keys are scanned for each shortcut unless scanning is disabled
    let mut m = MacController::new(false, vec![]);
    let command = Command::Keys(Key::Layout('c'), vec![Modifier::Meta, Modifier::Shift]);
    assert!(m.needs_scan(&command));
    let events = m.dispatch(command, &scan);
    assert_eq!(
        events,
        vec![
            MacEvent::KeyDown(3, 0x00100000 | 0x00020000),
            MacEvent::Sleep(KEY_HOLD_DELAY),
            MacEvent::KeyUp(0x37),
            MacEvent::Sleep(MODIFIER_DELAY),
            MacEvent::KeyUp(0x38),
            MacEvent::Sleep(MODIFIER_DELAY),
            MacEvent::KeyUp(3),
        ]
    );
    // with scanning disabled, the scan made at the beginning is used
    let mut kept = MacController::new(true, scan);
    let command = Command::Keys(Key::Layout('c'), vec![]);
    assert!(!kept.needs_scan(&command));
    assert_eq!(
        kept.dispatch(command, &vec![]),
        vec![
            MacEvent::KeyDown(3, 0),
            MacEvent::Sleep(KEY_HOLD_DELAY),
            MacEvent::KeyUp(3),
        ]
    );
}

#[test]
fn other_mac_events() {
    let mut m = MacController::new(true, vec![]);
    assert_eq!(m.dispatch(Command::NoOp, &vec![]), vec![]);
    assert_eq!(m.dispatch(Command::PrintHello, &vec![]), vec![MacEvent::PrintHello]);
    assert_eq!(
        m.dispatch(Command::Raw(7), &vec![]),
        vec![
            MacEvent::KeyDown(7, 0),
            MacEvent::Sleep(KEY_HOLD_DELAY),
            MacEvent::KeyUp(7),
        ]
    );
    assert_eq!(
        m.dispatch(Command::Keys(Key::Special(SpecialKey::Tab), vec![]), &vec![]),
        vec![
            MacEvent::KeyDown(0x30, 0),
            MacEvent::Sleep(KEY_HOLD_DELAY),
            MacEvent::KeyUp(0x30),
        ]
    );
}
