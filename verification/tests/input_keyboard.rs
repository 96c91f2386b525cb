use plojo::base::Stroke;
use plojo::input_keyboard::{convert_stroke, Key, KeyboardMachine, Layout};

fn convert(keys: Vec<&str>) -> Option<Stroke> {
    convert_stroke(
        &Layout::steno_querty(),
        &keys.into_iter().map(Key::new).collect::<Vec<_>>(),
    )
}

#[test]
fn convert_stroke_basic() {
    assert_eq!(
        convert(vec!["KeyQ", "KeyA", "KeyT", "KeyG"]).unwrap(),
        Stroke::new("S*")
    );
    assert_eq!(
        convert(vec!["KeyQ", "KeyC", "KeyU"]).unwrap(),
        Stroke::new("SAF")
    );
    assert_eq!(
        convert(vec!["KeyZ", "KeyQ", "KeyC", "KeyU"]).unwrap(),
        Stroke::new("SAF")
    );
    assert!(convert(vec!["KeyZ"]).is_none());
}

#[test]
fn handle_key_basic() {
    let mut m = KeyboardMachine::new();
    m.handle_key(Key::new("KeyQ"), true);
    assert!(m.get_stroke().is_none());
    m.handle_key(Key::new("KeyW"), true);
    assert!(m.get_stroke().is_none());
    m.handle_key(Key::new("KeyQ"), false);
    assert!(m.get_stroke().is_none());
    m.handle_key(Key::new("KeyW"), false);

    assert_eq!(m.get_stroke().unwrap(), Stroke::new("ST"));
}

#[test]
fn handle_key_mixed_order() {
    let mut m = KeyboardMachine::new();
    m.handle_key(Key::new("KeyQ"), true);
    m.handle_key(Key::new("KeyW"), true);
    m.handle_key(Key::new("KeyI"), true);
    m.handle_key(Key::new("KeyI"), false);
    m.handle_key(Key::new("KeyQ"), false);
    m.handle_key(Key::new("KeyW"), false);

    assert_eq!(m.get_stroke().unwrap(), Stroke::new("ST-P"));
}

#[test]
fn handle_key_multiple_presses() {
    let mut m = KeyboardMachine::new();
    m.handle_key(Key::new("KeyQ"), true);
    m.handle_key(Key::new("KeyW"), true);
    m.handle_key(Key::new("KeyW"), true);
    m.handle_key(Key::new("KeyW"), true);
    m.handle_key(Key::new("KeyW"), true);
    m.handle_key(Key::new("KeyW"), false);
    m.handle_key(Key::new("KeyQ"), false);

    assert_eq!(m.get_stroke().unwrap(), Stroke::new("ST"));
}

#[test]
fn handle_key_ignore_other_keys() {
    let mut m = KeyboardMachine::new();
    m.handle_key(Key::new("KeyQ"), true);
    m.handle_key(Key::new("KeyW"), true);
    m.handle_key(Key::new("BackSlash"), true);
    m.handle_key(Key::new("KeyW"), false);
    m.handle_key(Key::new("KeyQ"), false);
    m.handle_key(Key::new("BackSlash"), false);

    assert_eq!(m.get_stroke().unwrap(), Stroke::new("ST"));
}

#[test]
fn handle_key_multiple_strokes() {
    let mut m = KeyboardMachine::new();
    m.handle_key(Key::new("KeyQ"), true);
    m.handle_key(Key::new("KeyW"), true);
    m.handle_key(Key::new("KeyW"), false);
    m.handle_key(Key::new("KeyQ"), false);
    assert_eq!(m.get_stroke().unwrap(), Stroke::new("ST"));

    m.handle_key(Key::new("KeyU"), true);
    m.handle_key(Key::new("KeyI"), true);
    m.handle_key(Key::new("KeyI"), false);
    m.handle_key(Key::new("KeyU"), false);
    assert_eq!(m.get_stroke().unwrap(), Stroke::new("-FP"));
}

#[test]
fn only_unknown_keys_form_no_stroke() {
    let mut m = KeyboardMachine::new();
    m.handle_key(Key::new("KeyZ"), true);
    m.handle_key(Key::new("KeyZ"), false);
    assert!(m.get_stroke().is_none());
}

#[test]
fn layout_letters_once_in_order() {
    // both S keys and all star keys give one letter each; vowels and the star keep the layout order
    assert_eq!(
        convert(vec!["KeyM", "KeyT", "KeyY", "KeyA", "KeyQ", "KeyC", "Quote", "KeyU"]).unwrap(),
        Stroke::new("SA*UFZ")
    );
}
