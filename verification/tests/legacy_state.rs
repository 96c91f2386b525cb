use plojo::base::Stroke;
use plojo::legacy::dictionary::Dictionary;
use plojo::legacy::dispatch::{BACKSPACE_DELAY, KEY_DELAY};
use plojo::legacy::state::{translate, undo, MAX_STROKE_BUFFER};
use plojo::legacy::{
    is_valid_stroke, parse_command, Command, ControllerAction, ExternalCommand, InternalCommand,
    State, Translation,
};

fn undo_dict() -> Dictionary {
    Dictionary::new(vec![
        (Stroke::new("H-L"), Translation::text("hello")),
        (Stroke::new("WORLD"), Translation::text("world")),
        (
            Stroke::new("*"),
            Translation::Command(Command::Internal(InternalCommand::Undo)),
        ),
        (
            Stroke::new("HI"),
            Translation::Command(Command::External(ExternalCommand::PrintHello)),
        ),
    ])
}

#[test]
fn test_undo_command() {
    // state includes the undo stroke because that was the newest translation which turned into the undo command
    let state = State::with_strokes(vec![Stroke::new("H-L"), Stroke::new("*")]);
    let dict = undo_dict();
    let action = Command::Internal(InternalCommand::Undo);

    let (actions, _new_state) = parse_command(state, &dict, action);
    assert_eq!(
        actions,
        vec![ControllerAction::BackspaceWithDelay(6, BACKSPACE_DELAY)]
    );
}

#[test]
fn test_dict_lower_overwrite() {
    // later dictionary entries should overwrite earlier ones
    let dict = Dictionary::new(vec![
        (Stroke::new("H-L"), Translation::text("Hello")),
        (Stroke::new("WORLD"), Translation::text("World")),
        (Stroke::new("H-L"), Translation::text("another")),
    ]);

    let state = State::default();

    let (command, _) = translate(Stroke::new("H-L"), &dict, state);

    assert_eq!(command, Command::add_text(" another"));
}

#[test]
fn translate_then_undo() {
    let dict = undo_dict();
    let state = State::default();
    let (command, state) = translate(Stroke::new("H-L"), &dict, state);
    assert_eq!(command, Command::add_text(" hello"));
    let (command, state) = translate(Stroke::new("WORLD"), &dict, state);
    assert_eq!(command, Command::add_text(" world"));
    let (command, state) = translate(Stroke::new("*"), &dict, state);
    assert_eq!(command, Command::Internal(InternalCommand::Undo));
    assert_eq!(state.len(), 3);
    let (actions, state) = parse_command(state, &dict, command);
    assert_eq!(
        actions,
        vec![ControllerAction::BackspaceWithDelay(6, BACKSPACE_DELAY)]
    );
    assert_eq!(state, State::with_strokes(vec![Stroke::new("H-L")]));
}

#[test]
fn undo_on_empty_state() {
    let dict = undo_dict();
    let (command, state) = undo(&dict, State::default());
    assert_eq!(command, Command::add_text(""));
    assert_eq!(state, State::default());
    let (actions, _) = parse_command(State::default(), &dict, Command::Internal(InternalCommand::Undo));
    assert_eq!(actions, vec![]);
}

#[test]
fn dispatch_external_commands() {
    let dict = undo_dict();
    let (actions, _) = parse_command(State::default(), &dict, Command::replace_text(2, "ab"));
    assert_eq!(
        actions,
        vec![
            ControllerAction::BackspaceWithDelay(2, BACKSPACE_DELAY),
            ControllerAction::TypeWithDelay("ab".to_string(), KEY_DELAY),
        ]
    );
    let (actions, _) = parse_command(State::default(), &dict, Command::add_text(""));
    assert_eq!(actions, vec![]);
    let (actions, _) = parse_command(
        State::default(),
        &dict,
        Command::External(ExternalCommand::PrintHello),
    );
    assert_eq!(actions, vec![ControllerAction::PrintHello]);
}

#[test]
fn stroke_buffer_drops_oldest() {
    let dict = undo_dict();
    let strokes: Vec<Stroke> = (0..MAX_STROKE_BUFFER + 1).map(|_| Stroke::new("H-L")).collect();
    let (_, state) = translate(Stroke::new("WORLD"), &dict, State::with_strokes(strokes));
    assert_eq!(state.len(), MAX_STROKE_BUFFER + 1);
}

#[test]
fn valid_strokes() {
    assert!(is_valid_stroke("H-L"));
    assert!(!is_valid_stroke(""));
}
