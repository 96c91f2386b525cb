//! Dispatching commands as native macOS keyboard events: each command becomes the list of key
//! events, with the waits between them, that Core Graphics posts. Which character each key types
//! depends on the keyboard layout, so the keys are scanned for their characters by the system;
//! the library works on what the scan found.
use crate::base::commands::{strings_view, Command, CommandV, Key, Modifier, SpecialKey};
use vstd::prelude::*;

verus! {

/// How long a key is held down
pub const KEY_HOLD_DELAY: u64 = 2;

/// Delay between successive backspaces for corrections
pub const BACKSPACE_DELAY: u64 = 2;

/// Delay between successive letters for typing normal text
pub const TYPE_DELAY: u64 = 5;

/// Delay for holding down each modifier key
pub const MODIFIER_DELAY: u64 = 2;

/// The key codes that are scanned for the characters they type
pub const SCANNED_KEY_CODES: u16 = 64;

/// Key codes of the keys used here (as Core Graphics numbers them)
pub const DELETE: u16 = 0x33;

pub const COMMAND: u16 = 0x37;

pub const SHIFT: u16 = 0x38;

pub const OPTION: u16 = 0x3A;

pub const CONTROL: u16 = 0x3B;

/// Event flags for modifiers held down (as Core Graphics numbers them)
pub const FLAG_SHIFT: u64 = 0x00020000;

pub const FLAG_CONTROL: u64 = 0x00040000;

pub const FLAG_ALTERNATE: u64 = 0x00080000;

pub const FLAG_COMMAND: u64 = 0x00100000;

/// The key code of a special key
pub open spec fn keycode_spec(key: SpecialKey) -> u16 {
    match key {
        SpecialKey::Backspace => 0x33,
        SpecialKey::CapsLock => 0x39,
        SpecialKey::Delete => 0x75,
        SpecialKey::DownArrow => 0x7D,
        SpecialKey::End => 0x77,
        SpecialKey::Escape => 0x35,
        SpecialKey::F1 => 0x7A,
        SpecialKey::F10 => 0x6D,
        SpecialKey::F11 => 0x67,
        SpecialKey::F12 => 0x6F,
        SpecialKey::F2 => 0x78,
        SpecialKey::F3 => 0x63,
        SpecialKey::F4 => 0x76,
        SpecialKey::F5 => 0x60,
        SpecialKey::F6 => 0x61,
        SpecialKey::F7 => 0x62,
        SpecialKey::F8 => 0x64,
        SpecialKey::F9 => 0x65,
        SpecialKey::Home => 0x73,
        SpecialKey::LeftArrow => 0x7B,
        SpecialKey::PageDown => 0x79,
        SpecialKey::PageUp => 0x74,
        SpecialKey::Return => 0x24,
        SpecialKey::RightArrow => 0x7C,
        SpecialKey::Space => 0x31,
        SpecialKey::Tab => 0x30,
        SpecialKey::UpArrow => 0x7E,
    }
}

/// The key code of a special key
pub fn key_to_keycode(key: SpecialKey) -> (r: u16)
    ensures
        r == keycode_spec(key),
{
    match key {
        SpecialKey::Backspace => DELETE,
        SpecialKey::CapsLock => 0x39,
        SpecialKey::Delete => 0x75,
        SpecialKey::DownArrow => 0x7D,
        SpecialKey::End => 0x77,
        SpecialKey::Escape => 0x35,
        SpecialKey::F1 => 0x7A,
        SpecialKey::F10 => 0x6D,
        SpecialKey::F11 => 0x67,
        SpecialKey::F12 => 0x6F,
        SpecialKey::F2 => 0x78,
        SpecialKey::F3 => 0x63,
        SpecialKey::F4 => 0x76,
        SpecialKey::F5 => 0x60,
        SpecialKey::F6 => 0x61,
        SpecialKey::F7 => 0x62,
        SpecialKey::F8 => 0x64,
        SpecialKey::F9 => 0x65,
        SpecialKey::Home => 0x73,
        SpecialKey::LeftArrow => 0x7B,
        SpecialKey::PageDown => 0x79,
        SpecialKey::PageUp => 0x74,
        SpecialKey::Return => 0x24,
        SpecialKey::RightArrow => 0x7C,
        SpecialKey::Space => 0x31,
        SpecialKey::Tab => 0x30,
        SpecialKey::UpArrow => 0x7E,
    }
}

/// The key code of a modifier; Alt is the option key
pub open spec fn modifier_key_spec(m: Modifier) -> u16 {
    match m {
        Modifier::Alt => OPTION,
        Modifier::Control => CONTROL,
        Modifier::Meta => COMMAND,
        Modifier::Option => OPTION,
        _ => SHIFT,
    }
}

/// The key code of a modifier; the function key has none here
pub fn modifier_to_key(modifier: Modifier) -> (r: u16)
    requires
        modifier != Modifier::Fn,
    ensures
        r == modifier_key_spec(modifier),
{
    match modifier {
        Modifier::Alt => OPTION,
        Modifier::Control => CONTROL,
        Modifier::Meta => COMMAND,
        Modifier::Option => OPTION,
        _ => SHIFT,
    }
}

/// The event flag of a modifier held down
pub open spec fn modifier_flag(m: Modifier) -> u64 {
    match m {
        Modifier::Alt => FLAG_ALTERNATE,
        Modifier::Control => FLAG_CONTROL,
        Modifier::Meta => FLAG_COMMAND,
        Modifier::Option => FLAG_ALTERNATE,
        _ => FLAG_SHIFT,
    }
}

/// The event flags of modifiers held down together
pub open spec fn flags_spec(modifiers: Seq<Modifier>) -> u64
    decreases modifiers.len(),
{
    if modifiers.len() == 0 {
        0
    } else {
        flags_spec(modifiers.drop_last()) | modifier_flag(modifiers.last())
    }
}

/// Whether the function key is among the modifiers
pub open spec fn has_fn(modifiers: Seq<Modifier>) -> bool {
    exists|i: int| 0 <= i < modifiers.len() && modifiers[i] == Modifier::Fn
}

/// The event flags of modifiers held down together
pub fn modifiers_to_flags(modifiers: &[Modifier]) -> (r: u64)
    requires
        !has_fn(modifiers@),
    ensures
        r == flags_spec(modifiers@),
{
    let mut flags: u64 = 0;
    let mut i: usize = 0;
    while i < modifiers.len()
        invariant
            i <= modifiers.len(),
            flags == flags_spec(modifiers@.take(i as int)),
        decreases modifiers.len() - i,
    {
        let f = match modifiers[i] {
            Modifier::Alt => FLAG_ALTERNATE,
            Modifier::Control => FLAG_CONTROL,
            Modifier::Meta => FLAG_COMMAND,
            Modifier::Option => FLAG_ALTERNATE,
            _ => FLAG_SHIFT,
        };
        assert(modifiers@.take(i + 1).drop_last() =~= modifiers@.take(i as int));
        flags = flags | f;
        i += 1;
    }
    assert(modifiers@.take(i as int) =~= modifiers@);
    flags
}

/// A keyboard event to post, or something else to do in between
#[derive(Debug, PartialEq)]
pub enum MacEvent {
    /// A key goes down with the modifiers held as flags
    KeyDown(u16, u64),
    /// A key goes up
    KeyUp(u16),
    /// A character is typed (down) or its key released (up), whatever key types it
    Char(char, bool),
    /// Wait this many milliseconds
    Sleep(u64),
    /// Print a greeting
    PrintHello,
    /// Start a program with arguments
    Shell(String, Vec<String>),
}

/// The value of an event
pub enum MacEventV {
    KeyDown(u16, u64),
    KeyUp(u16),
    Char(char, bool),
    Sleep(u64),
    PrintHello,
    Shell(Seq<char>, Seq<Seq<char>>),
}

/// The value of an event
pub open spec fn event_view(e: MacEvent) -> MacEventV {
    match e {
        MacEvent::KeyDown(k, f) => MacEventV::KeyDown(k, f),
        MacEvent::KeyUp(k) => MacEventV::KeyUp(k),
        MacEvent::Char(c, d) => MacEventV::Char(c, d),
        MacEvent::Sleep(ms) => MacEventV::Sleep(ms),
        MacEvent::PrintHello => MacEventV::PrintHello,
        MacEvent::Shell(c, a) => MacEventV::Shell(c@, strings_view(a@)),
    }
}

/// The values of events
pub open spec fn events_view(v: Seq<MacEvent>) -> Seq<MacEventV> {
    v.map_values(|e: MacEvent| event_view(e))
}

/// Releasing modifiers: each key goes up in turn, with a wait after each
pub open spec fn release_modifiers(modifiers: Seq<Modifier>, delay: u64) -> Seq<MacEventV>
    decreases modifiers.len(),
{
    if modifiers.len() == 0 {
        Seq::empty()
    } else {
        release_modifiers(modifiers.drop_last(), delay) + seq![
            MacEventV::KeyUp(modifier_key_spec(modifiers.last())),
            MacEventV::Sleep(delay),
        ]
    }
}

/// Toggling a key with modifiers: a key goes down with the modifiers as flags, while a key going
/// up releases the modifiers one by one as keys first
pub open spec fn toggle_spec(key: u16, down: bool, modifiers: Seq<Modifier>, delay: u64) -> Seq<
    MacEventV,
> {
    if down {
        seq![MacEventV::KeyDown(key, flags_spec(modifiers))]
    } else {
        release_modifiers(modifiers, delay) + seq![MacEventV::KeyUp(key)]
    }
}

/// Pressing a key: down, held, then up
pub open spec fn press_spec(key: u16, modifiers: Seq<Modifier>) -> Seq<MacEventV> {
    toggle_spec(key, true, modifiers, MODIFIER_DELAY) + seq![MacEventV::Sleep(KEY_HOLD_DELAY)]
        + toggle_spec(key, false, modifiers, MODIFIER_DELAY)
}

/// Tapping backspace `n` times, with a wait after each
pub open spec fn backspaces_spec(n: nat) -> Seq<MacEventV>
    decreases n,
{
    if n == 0 {
        Seq::empty()
    } else {
        backspaces_spec((n - 1) as nat) + press_spec(DELETE, Seq::empty()) + seq![
            MacEventV::Sleep(BACKSPACE_DELAY),
        ]
    }
}

/// Typing a character: it is typed, held and released, with a wait after
pub open spec fn type_step(c: char) -> Seq<MacEventV> {
    seq![
        MacEventV::Char(c, true),
        MacEventV::Sleep(KEY_HOLD_DELAY),
        MacEventV::Char(c, false),
        MacEventV::Sleep(TYPE_DELAY),
    ]
}

/// Typing text: each character typed, held and released, with a wait after each
pub open spec fn type_spec(text: Seq<char>) -> Seq<MacEventV>
    decreases text.len(),
{
    if text.len() == 0 {
        Seq::empty()
    } else {
        type_spec(text.drop_last()) + type_step(text.last())
    }
}

/// The key code that types a character, from a scan of the keys: the scan holds, for each key
/// code from 0 on, the character that key types if any; when several keys type the character,
/// the last of them (below `SCANNED_KEY_CODES`) is taken
pub open spec fn scanned_code(scan: Seq<Option<char>>, c: char, below: int) -> Option<u16>
    decreases below,
{
    if below <= 0 {
        None
    } else if below - 1 < scan.len() && scan[below - 1] == Some(c) {
        Some((below - 1) as u16)
    } else {
        scanned_code(scan, c, below - 1)
    }
}

/// The key code that types a character, from a scan of the keys
pub open spec fn keycode_of_char(scan: Seq<Option<char>>, c: char) -> Option<u16> {
    scanned_code(scan, c, SCANNED_KEY_CODES as int)
}

/// Whether a command can be carried out with the scan of the keys: a command for the translator
/// is not one for the keyboard, the function key has no key code here, and a character pressed
/// with modifiers must be typed by some key
pub open spec fn can_dispatch_with(c: CommandV, scan: Seq<Option<char>>) -> bool {
    match c {
        CommandV::TranslatorCommand(_) => false,
        CommandV::Keys(key, modifiers) => !has_fn(modifiers) && match key {
            Key::Layout(ch) => keycode_of_char(scan, ch) is Some,
            Key::Special(_) => true,
        },
        _ => true,
    }
}

/// The events of a command, with the scan of the keys for characters pressed with modifiers
pub open spec fn mac_dispatch_spec(c: CommandV, scan: Seq<Option<char>>) -> Seq<MacEventV> {
    match c {
        CommandV::Replace(n, text) => backspaces_spec(n as nat) + if text.len() > 0 {
            type_spec(text)
        } else {
            Seq::empty()
        },
        CommandV::PrintHello => seq![MacEventV::PrintHello],
        CommandV::NoOp => Seq::empty(),
        CommandV::Keys(key, modifiers) => press_spec(
            match key {
                Key::Layout(ch) => keycode_of_char(scan, ch)->Some_0,
                Key::Special(k) => keycode_spec(k),
            },
            modifiers,
        ),
        CommandV::Raw(code) => press_spec(code, Seq::empty()),
        CommandV::Shell(cmd, args) => seq![MacEventV::Shell(cmd, args)],
        CommandV::TranslatorCommand(_) => Seq::empty(),
    }
}

proof fn lemma_type_step_len(c: char)
    ensures
        type_step(c).len() == 4,
        type_step(c) == seq![
            MacEventV::Char(c, true),
            MacEventV::Sleep(KEY_HOLD_DELAY),
            MacEventV::Char(c, false),
            MacEventV::Sleep(TYPE_DELAY),
        ],
{
}

proof fn lemma_type_step(text: Seq<char>)
    requires
        text.len() > 0,
    ensures
        type_spec(text) == type_spec(text.drop_last()) + type_step(text.last()),
{
}

proof fn lemma_events_push(v: Seq<MacEvent>, e: MacEvent)
    ensures
        events_view(v.push(e)) == events_view(v).push(event_view(e)),
{
    assert(events_view(v.push(e)) =~= events_view(v).push(event_view(e)));
}

fn push_event(events: &mut Vec<MacEvent>, e: MacEvent)
    ensures
        events_view(final(events)@) == events_view(old(events)@).push(event_view(e)),
{
    proof {
        lemma_events_push(old(events)@, e);
    }
    events.push(e);
}

/// The events that toggle a key with modifiers
fn toggle_key(events: &mut Vec<MacEvent>, key: u16, down: bool, modifiers: &[Modifier], delay: u64)
    requires
        !has_fn(modifiers@),
    ensures
        events_view(final(events)@) == events_view(old(events)@) + toggle_spec(
            key,
            down,
            modifiers@,
            delay,
        ),
{
    let ghost start = events_view(events@);
    // key down must be triggered with modifiers as flags...
    if down {
        push_event(events, MacEvent::KeyDown(key, modifiers_to_flags(modifiers)));
        assert(events_view(events@) =~= start + toggle_spec(key, down, modifiers@, delay));
    } else {
        // ... while keyup must release the modifiers individually as keys
        let mut i: usize = 0;
        while i < modifiers.len()
            invariant
                i <= modifiers.len(),
                !has_fn(modifiers@),
                events_view(events@) == start + release_modifiers(modifiers@.take(i as int), delay),
            decreases modifiers.len() - i,
        {
            assert(modifiers@.take(i + 1).drop_last() =~= modifiers@.take(i as int));
            assert(modifiers@[i as int] != Modifier::Fn);
            let code = modifier_to_key(modifiers[i]);
            push_event(events, MacEvent::KeyUp(code));
            push_event(events, MacEvent::Sleep(delay));
            i += 1;
            assert(events_view(events@) =~= start + release_modifiers(
                modifiers@.take(i as int),
                delay,
            ));
        }
        assert(modifiers@.take(i as int) =~= modifiers@);
        push_event(events, MacEvent::KeyUp(key));
        assert(events_view(events@) =~= start + toggle_spec(key, down, modifiers@, delay));
    }
}

fn press_key(events: &mut Vec<MacEvent>, key: u16, modifiers: &[Modifier])
    requires
        !has_fn(modifiers@),
    ensures
        events_view(final(events)@) == events_view(old(events)@) + press_spec(key, modifiers@),
{
    let ghost start = events_view(events@);
    toggle_key(events, key, true, modifiers, MODIFIER_DELAY);
    push_event(events, MacEvent::Sleep(KEY_HOLD_DELAY));
    toggle_key(events, key, false, modifiers, MODIFIER_DELAY);
    assert(events_view(events@) =~= start + press_spec(key, modifiers@));
}

/// The events that tap backspace `n` times
fn tap_backspaces(events: &mut Vec<MacEvent>, n: usize)
    ensures
        events_view(final(events)@) == events_view(old(events)@) + backspaces_spec(n as nat),
{
    let ghost start = events_view(events@);
    let mut i: usize = 0;
    assert(start + backspaces_spec(0) =~= start);
    while i < n
        invariant
            i <= n,
            events_view(events@) == start + backspaces_spec(i as nat),
        decreases n - i,
    {
        press_key(events, DELETE, &[]);
        push_event(events, MacEvent::Sleep(BACKSPACE_DELAY));
        i += 1;
        assert(events_view(events@) =~= start + backspaces_spec(i as nat));
    }
}

/// The events that type a character
fn type_char(events: &mut Vec<MacEvent>, ch: char)
    ensures
        events_view(final(events)@) == events_view(old(events)@) + type_step(ch),
{
    let ghost start = events_view(events@);
    push_event(events, MacEvent::Char(ch, true));
    push_event(events, MacEvent::Sleep(KEY_HOLD_DELAY));
    push_event(events, MacEvent::Char(ch, false));
    push_event(events, MacEvent::Sleep(TYPE_DELAY));
    proof {
        lemma_type_step_len(ch);
    }
    assert(events_view(events@) =~= start + type_step(ch));
}

/// The events that type text
fn type_text(events: &mut Vec<MacEvent>, text: &str)
    ensures
        events_view(final(events)@) == events_view(old(events)@) + type_spec(text@),
{
    let chars = crate::text::chars_of(text);
    let ghost head = events_view(events@);
    let mut k: usize = 0;
    assert(chars@.take(0) =~= Seq::<char>::empty());
    assert(head + type_spec(chars@.take(0)) =~= head);
    while k < chars.len()
        invariant
            k <= chars.len(),
            chars@ == text@,
            events_view(events@) == head + type_spec(chars@.take(k as int)),
        decreases chars.len() - k,
    {
        let ch = chars[k];
        proof {
            assert(chars@.take(k + 1).drop_last() =~= chars@.take(k as int));
            assert(chars@.take(k + 1).last() == ch);
            lemma_type_step(chars@.take(k + 1));
        }
        type_char(events, ch);
        k += 1;
        assert(events_view(events@) =~= head + type_spec(chars@.take(k as int)));
    }
    assert(chars@.take(k as int) =~= chars@);
}

/// The key code that types a character, from a scan of the keys
pub fn find_keycode(scan: &Vec<Option<char>>, c: char) -> (r: Option<u16>)
    ensures
        r == keycode_of_char(scan@, c),
{
    let mut below: u16 = SCANNED_KEY_CODES;
    while below > 0
        invariant
            below <= SCANNED_KEY_CODES,
            scanned_code(scan@, c, below as int) == keycode_of_char(scan@, c),
        decreases below,
    {
        let i = below - 1;
        if (i as usize) < scan.len() {
            if scan[i as usize] == Some(c) {
                return Some(i);
            }
        }
        below = i;
    }
    None
}

/// Dispatches commands natively with Core Graphics
pub struct MacController {
    /// The scan of the keys if keymap scanning is disabled: it is then scanned only once, at the
    /// beginning; otherwise the keys are scanned for every keyboard shortcut, in case the layout
    /// changed
    char_to_keycode_map: Option<Vec<Option<char>>>,
}

impl MacController {
    /// A controller; `scan` is the scan of the keys made at the beginning, which is kept when
    /// keymap scanning is disabled
    pub fn new(disable_scan_keymap: bool, scan: Vec<Option<char>>) -> (m: Self)
        ensures
            m.kept_scan() == if disable_scan_keymap {
                Some(scan@)
            } else {
                None::<Seq<Option<char>>>
            },
    {
        Self { char_to_keycode_map: if disable_scan_keymap { Some(scan) } else { None } }
    }

    /// The scan of the keys that is kept, if keymap scanning is disabled
    pub closed spec fn kept_scan(&self) -> Option<Seq<Option<char>>> {
        match self.char_to_keycode_map {
            Some(s) => Some(s@),
            None => None,
        }
    }

    /// Whether carrying out a command needs a new scan of the keys: a character pressed with
    /// modifiers needs one unless a scan is kept
    pub fn needs_scan(&self, command: &Command) -> (b: bool)
        ensures
            b == (self.kept_scan() is None && command@ matches CommandV::Keys(Key::Layout(_), _)),
    {
        match command {
            Command::Keys(Key::Layout(_), _) => self.char_to_keycode_map.is_none(),
            _ => false,
        }
    }

    /// The scan used for a command: the kept one, or else the new one
    pub open spec fn scan_used(&self, new_scan: Seq<Option<char>>) -> Seq<Option<char>> {
        match self.kept_scan() {
            Some(s) => s,
            None => new_scan,
        }
    }

    /// The events that carry out a command; `new_scan` is a scan of the keys made now, used when
    /// no scan is kept
    pub fn dispatch(&mut self, command: Command, new_scan: &Vec<Option<char>>) -> (r: Vec<MacEvent>)
        requires
            can_dispatch_with(command@, old(self).scan_used(new_scan@)),
        ensures
            events_view(r@) == mac_dispatch_spec(command@, old(self).scan_used(new_scan@)),
            final(self).kept_scan() == old(self).kept_scan(),
    {
        let ghost c = command@;
        let ghost scan = self.scan_used(new_scan@);
        let mut events: Vec<MacEvent> = Vec::new();
        match command {
            Command::Replace(backspace_num, add_text) => {
                // tap backspace for corrections
                tap_backspaces(&mut events, backspace_num);
                // type text
                if !add_text.as_str().is_empty() {
                    type_text(&mut events, add_text.as_str());
                }
                assert(events_view(events@) =~= mac_dispatch_spec(c, scan));
            },
            Command::PrintHello => {
                push_event(&mut events, MacEvent::PrintHello);
                assert(events_view(events@) =~= mac_dispatch_spec(c, scan));
            },
            Command::NoOp => {
                assert(events_view(events@) =~= mac_dispatch_spec(c, scan));
            },
            Command::Keys(key, modifiers) => {
                let keycode = match key {
                    Key::Layout(ch) => {
                        // the kept scan, or the one made now in case the keyboard layout changed
                        let found = match &self.char_to_keycode_map {
                            Some(m) => find_keycode(m, ch),
                            None => find_keycode(new_scan, ch),
                        };
                        match found {
                            Some(code) => code,
                            None => {
                                proof {
                                    assert(false);
                                }
                                0
                            },
                        }
                    },
                    Key::Special(special_key) => key_to_keycode(special_key),
                };
                press_key(&mut events, keycode, modifiers.as_slice());
                assert(events_view(events@) =~= mac_dispatch_spec(c, scan));
            },
            Command::Raw(code) => {
                press_key(&mut events, code, &[]);
                assert(events_view(events@) =~= mac_dispatch_spec(c, scan));
            },
            Command::Shell(cmd, args) => {
                push_event(&mut events, MacEvent::Shell(cmd, args));
                assert(events_view(events@) =~= mac_dispatch_spec(c, scan));
            },
            Command::TranslatorCommand(_) => {},
        }
        events
    }
}

} // verus!
