//! Dispatching commands as key presses of the `enigo` keyboard simulator: each command becomes the
//! list of keyboard actions, with the waits between them, that the simulator carries out.
use crate::base::commands::{strings_view, Command, CommandV, Key, Modifier, SpecialKey};
use vstd::prelude::*;

verus! {

// NOTE: these are irrelevant because enigo imposes a delay of 20 milliseconds for every key press
/// Delay between pressing backspace (for corrections)
pub const BACKSPACE_DELAY: u64 = 2;

/// Delay between pressing keys for typing normal text
pub const KEY_DELAY: u64 = 5;

/// Delay between starting to hold down keys for keyboard shortcuts
pub const KEY_HOLD_DELAY: u64 = 2;

/// The keys of the simulator that commands press
#[derive(Debug, Clone, Copy, PartialEq, Eq, Structural)]
pub enum EnigoKey {
    Alt,
    Backspace,
    CapsLock,
    Control,
    Delete,
    DownArrow,
    End,
    Escape,
    F1,
    F2,
    F3,
    F4,
    F5,
    F6,
    F7,
    F8,
    F9,
    F10,
    F11,
    F12,
    Home,
    LeftArrow,
    Meta,
    Option,
    PageDown,
    PageUp,
    Return,
    RightArrow,
    Shift,
    Space,
    Tab,
    /// The key that types the character in the current layout
    Layout(char),
    /// A key by its key code
    Raw(u16),
}

/// One thing for the simulator to do
#[derive(Debug, PartialEq)]
pub enum KeyboardAction {
    /// Type the text
    Sequence(String),
    /// Press and release a key
    Click(EnigoKey),
    /// Press a key and hold it down
    Down(EnigoKey),
    /// Release a key
    Up(EnigoKey),
    /// Wait this many milliseconds
    Sleep(u64),
    /// Print a greeting
    PrintHello,
    /// Start a program with arguments
    Shell(String, Vec<String>),
}

/// The value of a keyboard action
pub enum ActionV {
    Sequence(Seq<char>),
    Click(EnigoKey),
    Down(EnigoKey),
    Up(EnigoKey),
    Sleep(u64),
    PrintHello,
    Shell(Seq<char>, Seq<Seq<char>>),
}

/// The value of a keyboard action
pub open spec fn action_view(a: KeyboardAction) -> ActionV {
    match a {
        KeyboardAction::Sequence(s) => ActionV::Sequence(s@),
        KeyboardAction::Click(k) => ActionV::Click(k),
        KeyboardAction::Down(k) => ActionV::Down(k),
        KeyboardAction::Up(k) => ActionV::Up(k),
        KeyboardAction::Sleep(ms) => ActionV::Sleep(ms),
        KeyboardAction::PrintHello => ActionV::PrintHello,
        KeyboardAction::Shell(c, args) => ActionV::Shell(c@, strings_view(args@)),
    }
}

/// The values of keyboard actions
pub open spec fn actions_view(v: Seq<KeyboardAction>) -> Seq<ActionV> {
    v.map_values(|a: KeyboardAction| action_view(a))
}

pub(crate) proof fn lemma_view_push(v: Seq<KeyboardAction>, a: KeyboardAction)
    ensures
        actions_view(v.push(a)) == actions_view(v).push(action_view(a)),
{
    assert(actions_view(v.push(a)) =~= actions_view(v).push(action_view(a)));
}

proof fn lemma_wait_step(items: Seq<ActionV>, i: int, delay: u64)
    requires
        0 <= i < items.len(),
    ensures
        with_waits(items.take(i + 1), delay) == with_waits(items.take(i), delay) + seq![
            items[i],
            ActionV::Sleep(delay),
        ],
{
    assert(items.take(i + 1).drop_last() =~= items.take(i));
}

/// The simulator key of a special key
pub open spec fn special_key_spec(k: SpecialKey) -> EnigoKey {
    match k {
        SpecialKey::Backspace => EnigoKey::Backspace,
        SpecialKey::CapsLock => EnigoKey::CapsLock,
        SpecialKey::Delete => EnigoKey::Delete,
        SpecialKey::DownArrow => EnigoKey::DownArrow,
        SpecialKey::End => EnigoKey::End,
        SpecialKey::Escape => EnigoKey::Escape,
        SpecialKey::F1 => EnigoKey::F1,
        SpecialKey::F10 => EnigoKey::F10,
        SpecialKey::F11 => EnigoKey::F11,
        SpecialKey::F12 => EnigoKey::F12,
        SpecialKey::F2 => EnigoKey::F2,
        SpecialKey::F3 => EnigoKey::F3,
        SpecialKey::F4 => EnigoKey::F4,
        SpecialKey::F5 => EnigoKey::F5,
        SpecialKey::F6 => EnigoKey::F6,
        SpecialKey::F7 => EnigoKey::F7,
        SpecialKey::F8 => EnigoKey::F8,
        SpecialKey::F9 => EnigoKey::F9,
        SpecialKey::Home => EnigoKey::Home,
        SpecialKey::LeftArrow => EnigoKey::LeftArrow,
        SpecialKey::PageDown => EnigoKey::PageDown,
        SpecialKey::PageUp => EnigoKey::PageUp,
        SpecialKey::Return => EnigoKey::Return,
        SpecialKey::RightArrow => EnigoKey::RightArrow,
        SpecialKey::Space => EnigoKey::Space,
        SpecialKey::Tab => EnigoKey::Tab,
        // the up arrow goes by its key code, which works around a fault of the simulator
        SpecialKey::UpArrow => EnigoKey::Raw(0x7e),
    }
}

/// The simulator key of a key of a command
pub open spec fn internal_key_spec(key: Key) -> EnigoKey {
    match key {
        Key::Special(k) => special_key_spec(k),
        Key::Layout(c) => EnigoKey::Layout(c),
    }
}

/// The simulator key of a key of a command
pub fn from_internal_key(key: Key) -> (r: EnigoKey)
    ensures
        r == internal_key_spec(key),
{
    match key {
        Key::Special(special_key) => match special_key {
            SpecialKey::Backspace => EnigoKey::Backspace,
            SpecialKey::CapsLock => EnigoKey::CapsLock,
            SpecialKey::Delete => EnigoKey::Delete,
            SpecialKey::DownArrow => EnigoKey::DownArrow,
            SpecialKey::End => EnigoKey::End,
            SpecialKey::Escape => EnigoKey::Escape,
            SpecialKey::F1 => EnigoKey::F1,
            SpecialKey::F10 => EnigoKey::F10,
            SpecialKey::F11 => EnigoKey::F11,
            SpecialKey::F12 => EnigoKey::F12,
            SpecialKey::F2 => EnigoKey::F2,
            SpecialKey::F3 => EnigoKey::F3,
            SpecialKey::F4 => EnigoKey::F4,
            SpecialKey::F5 => EnigoKey::F5,
            SpecialKey::F6 => EnigoKey::F6,
            SpecialKey::F7 => EnigoKey::F7,
            SpecialKey::F8 => EnigoKey::F8,
            SpecialKey::F9 => EnigoKey::F9,
            SpecialKey::Home => EnigoKey::Home,
            SpecialKey::LeftArrow => EnigoKey::LeftArrow,
            SpecialKey::PageDown => EnigoKey::PageDown,
            SpecialKey::PageUp => EnigoKey::PageUp,
            SpecialKey::Return => EnigoKey::Return,
            SpecialKey::RightArrow => EnigoKey::RightArrow,
            SpecialKey::Space => EnigoKey::Space,
            SpecialKey::Tab => EnigoKey::Tab,
            SpecialKey::UpArrow => EnigoKey::Raw(0x7e),  // NOTE: fixes a bug in enigo
        },
        Key::Layout(c) => EnigoKey::Layout(c),
    }
}

/// The simulator key of a modifier; the function key has none
pub open spec fn modifier_spec(m: Modifier) -> EnigoKey {
    match m {
        Modifier::Alt => EnigoKey::Alt,
        Modifier::Control => EnigoKey::Control,
        Modifier::Meta => EnigoKey::Meta,
        Modifier::Option => EnigoKey::Option,
        _ => EnigoKey::Shift,
    }
}

/// The simulator key of a modifier
pub fn from_modifier(modifier: Modifier) -> (r: EnigoKey)
    requires
        modifier != Modifier::Fn,
    ensures
        r == modifier_spec(modifier),
{
    match modifier {
        Modifier::Alt => EnigoKey::Alt,
        Modifier::Control => EnigoKey::Control,
        Modifier::Meta => EnigoKey::Meta,
        Modifier::Option => EnigoKey::Option,
        _ => EnigoKey::Shift,
    }
}

/// Whether the simulator can carry out a command: a command for the translator is not one for
/// the keyboard, and the function key has no simulator key
pub open spec fn can_dispatch(c: CommandV) -> bool {
    match c {
        CommandV::TranslatorCommand(_) => false,
        CommandV::Keys(_, modifiers) => forall|i: int|
            0 <= i < modifiers.len() ==> modifiers[i] != Modifier::Fn,
        _ => true,
    }
}

/// Each item followed by a wait
pub open spec fn with_waits(items: Seq<ActionV>, delay: u64) -> Seq<ActionV>
    decreases items.len(),
{
    if items.len() == 0 {
        Seq::empty()
    } else {
        with_waits(items.drop_last(), delay) + seq![items.last(), ActionV::Sleep(delay)]
    }
}

/// Typing text: each character on its own, followed by a wait
pub open spec fn type_actions(text: Seq<char>, delay: u64) -> Seq<ActionV> {
    with_waits(text.map_values(|c: char| ActionV::Sequence(seq![c])), delay)
}

/// Pressing backspace `n` times, each press followed by a wait
pub open spec fn backspace_actions(n: nat, delay: u64) -> Seq<ActionV> {
    with_waits(Seq::new(n, |i: int| ActionV::Click(EnigoKey::Backspace)), delay)
}

/// A keyboard shortcut: each key held down in turn, with a wait after each, then all released in
/// the same order
pub open spec fn combo_actions(keys: Seq<EnigoKey>, delay: u64) -> Seq<ActionV> {
    with_waits(keys.map_values(|k: EnigoKey| ActionV::Down(k)), delay) + keys.map_values(
        |k: EnigoKey| ActionV::Up(k),
    )
}

/// The keyboard actions of a command
pub open spec fn dispatch_spec(c: CommandV) -> Seq<ActionV> {
    match c {
        CommandV::Replace(n, text) => (if n > 0 {
            backspace_actions(n as nat, BACKSPACE_DELAY)
        } else {
            Seq::empty()
        }) + (if text.len() > 0 {
            type_actions(text, KEY_DELAY)
        } else {
            Seq::empty()
        }),
        CommandV::PrintHello => seq![ActionV::PrintHello],
        CommandV::NoOp => Seq::empty(),
        CommandV::Keys(key, modifiers) => combo_actions(
            modifiers.map_values(|m: Modifier| modifier_spec(m)).push(internal_key_spec(key)),
            KEY_HOLD_DELAY,
        ),
        CommandV::Raw(code) => seq![ActionV::Click(EnigoKey::Raw(code))],
        CommandV::Shell(cmd, args) => seq![ActionV::Shell(cmd, args)],
        CommandV::TranslatorCommand(_) => Seq::empty(),
    }
}

/// Dispatches commands by simulating the keyboard with `enigo`
pub struct EnigoController {}

impl EnigoController {
    pub fn new() -> Self {
        Self {  }
    }

    /// Types text one character at a time, waiting `delay` milliseconds after each
    pub(crate) fn type_with_delay(&self, actions: &mut Vec<KeyboardAction>, text: &str, delay: u64)
        ensures
            actions_view(final(actions)@) == actions_view(old(actions)@) + type_actions(
                text@,
                delay,
            ),
    {
        let chars = crate::text::chars_of(text);
        let ghost start = actions_view(actions@);
        let ghost items = chars@.map_values(|c: char| ActionV::Sequence(seq![c]));
        let mut i: usize = 0;
        while i < chars.len()
            invariant
                i <= chars.len(),
                chars@ == text@,
                items == chars@.map_values(|c: char| ActionV::Sequence(seq![c])),
                actions_view(actions@) == start + with_waits(items.take(i as int), delay),
            decreases chars.len() - i,
        {
            let mut one = String::new();
            crate::text::push_char(&mut one, chars[i]);
            assert(one@ =~= seq![chars@[i as int]]);
            let ghost before = actions@;
            let ghost first = KeyboardAction::Sequence(one);
            actions.push(KeyboardAction::Sequence(one));
            actions.push(KeyboardAction::Sleep(delay));
            proof {
                lemma_view_push(before, first);
                lemma_view_push(before.push(first), KeyboardAction::Sleep(delay));
                lemma_wait_step(items, i as int, delay);
            }
            i += 1;
            assert(actions_view(actions@) =~= start + with_waits(items.take(i as int), delay));
        }
        assert(items.take(i as int) =~= items);
    }

    /// Press the backspace key with specified delay in milliseconds between each press
    pub(crate) fn backspace(&self, actions: &mut Vec<KeyboardAction>, num: usize, delay: u64)
        ensures
            actions_view(final(actions)@) == actions_view(old(actions)@) + backspace_actions(
                num as nat,
                delay,
            ),
    {
        let ghost start = actions_view(actions@);
        let ghost items = Seq::new(num as nat, |i: int| ActionV::Click(EnigoKey::Backspace));
        let mut i: usize = 0;
        while i < num
            invariant
                i <= num,
                items == Seq::new(num as nat, |i: int| ActionV::Click(EnigoKey::Backspace)),
                actions_view(actions@) == start + with_waits(items.take(i as int), delay),
            decreases num - i,
        {
            let ghost before = actions@;
            actions.push(KeyboardAction::Click(EnigoKey::Backspace));
            actions.push(KeyboardAction::Sleep(delay));
            proof {
                lemma_view_push(before, KeyboardAction::Click(EnigoKey::Backspace));
                lemma_view_push(
                    before.push(KeyboardAction::Click(EnigoKey::Backspace)),
                    KeyboardAction::Sleep(delay),
                );
                lemma_wait_step(items, i as int, delay);
            }
            i += 1;
            assert(actions_view(actions@) =~= start + with_waits(items.take(i as int), delay));
        }
        assert(items.take(i as int) =~= items);
    }

    /// Holds the keys down in order, then releases them all
    fn key_combo(&self, actions: &mut Vec<KeyboardAction>, keys: Vec<EnigoKey>, delay: u64)
        ensures
            actions_view(final(actions)@) == actions_view(old(actions)@) + combo_actions(
                keys@,
                delay,
            ),
    {
        let ghost start = actions_view(actions@);
        let ghost downs = keys@.map_values(|k: EnigoKey| ActionV::Down(k));
        let ghost ups = keys@.map_values(|k: EnigoKey| ActionV::Up(k));
        let mut i: usize = 0;
        while i < keys.len()
            invariant
                i <= keys.len(),
                downs == keys@.map_values(|k: EnigoKey| ActionV::Down(k)),
                actions_view(actions@) == start + with_waits(downs.take(i as int), delay),
            decreases keys.len() - i,
        {
            let ghost before = actions@;
            actions.push(KeyboardAction::Down(keys[i]));
            actions.push(KeyboardAction::Sleep(delay));
            proof {
                lemma_view_push(before, KeyboardAction::Down(keys@[i as int]));
                lemma_view_push(
                    before.push(KeyboardAction::Down(keys@[i as int])),
                    KeyboardAction::Sleep(delay),
                );
                lemma_wait_step(downs, i as int, delay);
            }
            i += 1;
            assert(actions_view(actions@) =~= start + with_waits(downs.take(i as int), delay));
        }
        assert(downs.take(i as int) =~= downs);
        let ghost middle = actions_view(actions@);
        let mut j: usize = 0;
        while j < keys.len()
            invariant
                j <= keys.len(),
                ups == keys@.map_values(|k: EnigoKey| ActionV::Up(k)),
                actions_view(actions@) == middle + ups.take(j as int),
            decreases keys.len() - j,
        {
            let ghost before = actions@;
            actions.push(KeyboardAction::Up(keys[j]));
            proof {
                lemma_view_push(before, KeyboardAction::Up(keys@[j as int]));
                assert(ups.take(j + 1) =~= ups.take(j as int).push(ups[j as int]));
            }
            j += 1;
            assert(actions_view(actions@) =~= middle + ups.take(j as int));
        }
        assert(ups.take(j as int) =~= ups);
        assert(actions_view(actions@) =~= start + combo_actions(keys@, delay));
    }

    /// The keyboard actions that carry out a command
    pub fn dispatch(&mut self, command: Command) -> (r: Vec<KeyboardAction>)
        requires
            can_dispatch(command@),
        ensures
            actions_view(r@) == dispatch_spec(command@),
    {
        let ghost c = command@;
        let mut actions: Vec<KeyboardAction> = Vec::new();
        match command {
            Command::Replace(backspace_num, add_text) => {
                if backspace_num > 0 {
                    self.backspace(&mut actions, backspace_num, BACKSPACE_DELAY);
                }
                if !add_text.as_str().is_empty() {
                    self.type_with_delay(&mut actions, add_text.as_str(), KEY_DELAY);
                }
                assert(actions_view(actions@) =~= dispatch_spec(c));
            },
            Command::PrintHello => {
                actions.push(KeyboardAction::PrintHello);
                assert(actions_view(actions@) =~= dispatch_spec(c));
            },
            Command::NoOp => {
                assert(actions_view(actions@) =~= dispatch_spec(c));
            },
            Command::Keys(key, modifiers) => {
                let mut keys: Vec<EnigoKey> = Vec::new();
                let mut i: usize = 0;
                while i < modifiers.len()
                    invariant
                        i <= modifiers.len(),
                        c == CommandV::Keys(key, modifiers@),
                        can_dispatch(c),
                        keys@ == modifiers@.take(i as int).map_values(
                            |m: Modifier| modifier_spec(m),
                        ),
                    decreases modifiers.len() - i,
                {
                    keys.push(from_modifier(modifiers[i]));
                    i += 1;
                    assert(keys@ =~= modifiers@.take(i as int).map_values(
                        |m: Modifier| modifier_spec(m),
                    ));
                }
                assert(modifiers@.take(i as int) =~= modifiers@);
                keys.push(from_internal_key(key));
                self.key_combo(&mut actions, keys, KEY_HOLD_DELAY);
                assert(actions_view(actions@) =~= dispatch_spec(c));
            },
            Command::Raw(code) => {
                actions.push(KeyboardAction::Click(EnigoKey::Raw(code)));
                assert(actions_view(actions@) =~= dispatch_spec(c));
            },
            Command::Shell(cmd, args) => {
                actions.push(KeyboardAction::Shell(cmd, args));
                assert(actions_view(actions@) =~= dispatch_spec(c));
            },
            Command::TranslatorCommand(_) => {},
        }
        actions
    }
}

} // verus!
