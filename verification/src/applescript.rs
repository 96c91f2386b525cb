//! AppleScript commands that type text and press keys through macOS's "System Events".
use crate::base::commands::{Command, CommandV, Key, Modifier, SpecialKey};
use crate::text::{push_char, push_str, string_from_chars};
use vstd::prelude::*;

verus! {

/// A command for "System Events"
#[derive(Debug, PartialEq)]
pub struct Cmd(pub String);

/// Performs commands by running AppleScript
pub struct ApplescriptController {}

/// What carrying out a command takes
#[derive(Debug, PartialEq)]
pub enum OsaAction {
    /// Run `osascript` with each of these lines as a script line (`-e`); a failure is fatal
    Run(Vec<String>),
    /// Print a greeting
    PrintHello,
}

/// The value of what carrying out a command takes
pub enum OsaActionV {
    Run(Seq<Seq<char>>),
    PrintHello,
}

/// The value of what carrying out a command takes
pub open spec fn osa_view(a: OsaAction) -> OsaActionV {
    match a {
        OsaAction::Run(lines) => OsaActionV::Run(lines@.map_values(|l: String| l@)),
        OsaAction::PrintHello => OsaActionV::PrintHello,
    }
}

/// The script lines that press backspace `n` times
pub open spec fn backspace_lines(n: nat) -> Seq<Seq<char>> {
    seq![
        "repeat "@ + decimal(n) + " times"@,
        "tell application \"System Events\" to key code 51"@,
        "end repeat"@,
    ]
}

/// The script line that sends a command to "System Events"
pub open spec fn tell_line(cmd: Seq<char>) -> Seq<char> {
    "tell application \"System Events\" to "@ + cmd
}

/// Whether AppleScript can carry out a command: raw key codes, shell commands and commands for the
/// translator are not supported
pub open spec fn applescript_supports(c: CommandV) -> bool {
    match c {
        CommandV::Replace(_, _) | CommandV::PrintHello | CommandV::NoOp | CommandV::Keys(_, _) => true,
        _ => false,
    }
}

/// What carrying out a command takes: backspaces (always, even none) and the text if there is
/// any, a greeting, nothing, or the keys pressed together
pub open spec fn osa_dispatch_spec(c: CommandV) -> Seq<OsaActionV> {
    match c {
        CommandV::Replace(n, text) => seq![OsaActionV::Run(backspace_lines(n as nat))] + if text.len()
            > 0 {
            seq![OsaActionV::Run(seq![tell_line("keystroke \""@ + text + "\""@)])]
        } else {
            Seq::empty()
        },
        CommandV::PrintHello => seq![OsaActionV::PrintHello],
        CommandV::Keys(k, m) => seq![OsaActionV::Run(seq![tell_line(type_key_text(k, m))])],
        _ => Seq::empty(),
    }
}

impl ApplescriptController {
    pub fn new() -> Self {
        Self {  }
    }

    /// What carrying out a command takes
    pub fn dispatch(&mut self, command: Command) -> (r: Vec<OsaAction>)
        requires
            applescript_supports(command@),
        ensures
            r@.map_values(|a: OsaAction| osa_view(a)) == osa_dispatch_spec(command@),
    {
        let ghost c = command@;
        let mut actions: Vec<OsaAction> = Vec::new();
        match command {
            Command::Replace(backspace_num, add_text) => {
                let lines = backspace_script(backspace_num);
                assert(lines@.map_values(|l: String| l@) =~= backspace_lines(backspace_num as nat));
                actions.push(OsaAction::Run(lines));
                if !add_text.as_str().is_empty() {
                    let line = system_events_script(&type_string(add_text.as_str()));
                    let ghost v = line@;
                    let lines = vec![line];
                    assert(lines@.map_values(|l: String| l@) =~= seq![v]);
                    actions.push(OsaAction::Run(lines));
                }
            },
            Command::PrintHello => {
                actions.push(OsaAction::PrintHello);
            },
            Command::Keys(key, modifiers) => {
                let line = system_events_script(&type_key(key, modifiers));
                let ghost v = line@;
                let lines = vec![line];
                assert(lines@.map_values(|l: String| l@) =~= seq![v]);
                actions.push(OsaAction::Run(lines));
            },
            _ => {},
        }
        assert(actions@.map_values(|a: OsaAction| osa_view(a)) =~= osa_dispatch_spec(c));
        actions
    }
}

/// The character of a decimal digit
pub open spec fn digit(d: nat) -> char {
    if d == 0 {
        '0'
    } else if d == 1 {
        '1'
    } else if d == 2 {
        '2'
    } else if d == 3 {
        '3'
    } else if d == 4 {
        '4'
    } else if d == 5 {
        '5'
    } else if d == 6 {
        '6'
    } else if d == 7 {
        '7'
    } else if d == 8 {
        '8'
    } else {
        '9'
    }
}

/// The decimal digits of a number, without leading zeros
pub open spec fn decimal(n: nat) -> Seq<char>
    decreases n,
{
    if n < 10 {
        seq![digit(n)]
    } else {
        decimal(n / 10).push(digit(n % 10))
    }
}

fn digit_char(d: u32) -> (c: char)
    requires
        d < 10,
    ensures
        c == digit(d as nat),
{
    match d {
        0 => '0',
        1 => '1',
        2 => '2',
        3 => '3',
        4 => '4',
        5 => '5',
        6 => '6',
        7 => '7',
        8 => '8',
        _ => '9',
    }
}

fn decimal_chars(n: u32) -> (r: Vec<char>)
    ensures
        r@ == decimal(n as nat),
    decreases n,
{
    if n < 10 {
        vec![digit_char(n)]
    } else {
        let mut r = decimal_chars(n / 10);
        r.push(digit_char(n % 10));
        r
    }
}

/// A number written in decimal
pub fn decimal_string(n: u32) -> (r: String)
    ensures
        r@ == decimal(n as nat),
{
    let chars = decimal_chars(n);
    string_from_chars(chars.as_slice())
}

/// The macOS key code of a special key
pub open spec fn key_code(key: SpecialKey) -> u32 {
    match key {
        SpecialKey::Backspace => 51,
        SpecialKey::CapsLock => 57,
        SpecialKey::Delete => 117,
        SpecialKey::DownArrow => 125,
        SpecialKey::End => 119,
        SpecialKey::Escape => 53,
        SpecialKey::F1 => 122,
        SpecialKey::F10 => 109,
        SpecialKey::F11 => 103,
        SpecialKey::F12 => 111,
        SpecialKey::F2 => 120,
        SpecialKey::F3 => 99,
        SpecialKey::F4 => 118,
        SpecialKey::F5 => 96,
        SpecialKey::F6 => 97,
        SpecialKey::F7 => 98,
        SpecialKey::F8 => 100,
        SpecialKey::F9 => 101,
        SpecialKey::Home => 115,
        SpecialKey::LeftArrow => 123,
        SpecialKey::PageDown => 121,
        SpecialKey::PageUp => 116,
        // KeypadEnter (code 76) might also be appropriate
        SpecialKey::Return => 36,
        SpecialKey::RightArrow => 124,
        SpecialKey::Space => 49,
        SpecialKey::Tab => 48,
        SpecialKey::UpArrow => 126,
    }
}

/// The macOS key code of a special key
/// (source: http://macbiblioblog.blogspot.com/2014/12/key-codes-for-function-and-special-keys.html)
pub fn special_key_code(key: SpecialKey) -> (r: u32)
    ensures
        r == key_code(key),
{
    match key {
        SpecialKey::Backspace => 51,
        SpecialKey::CapsLock => 57,
        SpecialKey::Delete => 117,
        SpecialKey::DownArrow => 125,
        SpecialKey::End => 119,
        SpecialKey::Escape => 53,
        SpecialKey::F1 => 122,
        SpecialKey::F10 => 109,
        SpecialKey::F11 => 103,
        SpecialKey::F12 => 111,
        SpecialKey::F2 => 120,
        SpecialKey::F3 => 99,
        SpecialKey::F4 => 118,
        SpecialKey::F5 => 96,
        SpecialKey::F6 => 97,
        SpecialKey::F7 => 98,
        SpecialKey::F8 => 100,
        SpecialKey::F9 => 101,
        SpecialKey::Home => 115,
        SpecialKey::LeftArrow => 123,
        SpecialKey::PageDown => 121,
        SpecialKey::PageUp => 116,
        SpecialKey::Return => 36,
        SpecialKey::RightArrow => 124,
        SpecialKey::Space => 49,
        SpecialKey::Tab => 48,
        SpecialKey::UpArrow => 126,
    }
}

/// The AppleScript that presses a key: a special key by its key code, another as a keystroke
pub open spec fn key_text(key: Key) -> Seq<char> {
    match key {
        Key::Special(k) => "key code "@ + decimal(key_code(k) as nat),
        Key::Layout(c) => "keystroke \""@ + seq![c] + "\""@,
    }
}

/// The AppleScript that presses a key
pub fn key_to_string(key: Key) -> (r: String)
    ensures
        r@ == key_text(key),
{
    match key {
        Key::Special(special_key) => {
            let mut s = "key code ".to_owned();
            let code = decimal_string(special_key_code(special_key));
            push_str(&mut s, code.as_str());
            s
        },
        Key::Layout(c) => {
            let mut s = "keystroke \"".to_owned();
            push_char(&mut s, c);
            push_str(&mut s, "\"");
            s
        },
    }
}

/// The AppleScript name of a modifier (Alt is the option key on a Mac)
pub open spec fn modifier_name(modifier: Modifier) -> Seq<char> {
    match modifier {
        Modifier::Alt => "option"@,
        Modifier::Control => "control"@,
        Modifier::Meta => "command"@,
        Modifier::Option => "option"@,
        Modifier::Shift => "shift"@,
        Modifier::Fn => "fn"@,
    }
}

/// The AppleScript name of a modifier
pub fn modifier_to_string(modifier: Modifier) -> (r: String)
    ensures
        r@ == modifier_name(modifier),
{
    match modifier {
        // same as option key on mac
        Modifier::Alt => "option",
        Modifier::Control => "control",
        Modifier::Meta => "command",
        Modifier::Option => "option",
        Modifier::Shift => "shift",
        Modifier::Fn => "fn",
    }.to_owned()
}

/// The modifiers held down, separated by commas
pub open spec fn modifiers_down(modifiers: Seq<Modifier>) -> Seq<char>
    decreases modifiers.len(),
{
    if modifiers.len() == 0 {
        Seq::empty()
    } else if modifiers.len() == 1 {
        modifier_name(modifiers[0]) + " down"@
    } else {
        modifiers_down(modifiers.drop_last()) + ", "@ + modifier_name(modifiers.last())
            + " down"@
    }
}

/// The AppleScript that presses a key with modifiers held down
pub open spec fn type_key_text(key: Key, modifiers: Seq<Modifier>) -> Seq<char> {
    key_text(key) + if modifiers.len() == 0 {
        Seq::empty()
    } else {
        " using { "@ + modifiers_down(modifiers) + " }"@
    }
}

/// The AppleScript that types text
pub fn type_string(text: &str) -> (r: Cmd)
    ensures
        r.0@ == "keystroke \""@ + text@ + "\""@,
{
    let mut s = "keystroke \"".to_owned();
    push_str(&mut s, text);
    push_str(&mut s, "\"");
    Cmd(s)
}

/// The AppleScript that presses a key with modifiers held down
pub fn type_key(key: Key, modifiers: Vec<Modifier>) -> (r: Cmd)
    ensures
        r.0@ == type_key_text(key, modifiers@),
{
    let mut cmd_str = key_to_string(key);
    if modifiers.len() > 0 {
        let ghost start = cmd_str@;
        push_str(&mut cmd_str, " using { ");
        let ghost before = cmd_str@;
        let mut i: usize = 0;
        while i < modifiers.len()
            invariant
                i <= modifiers.len(),
                cmd_str@ == before + modifiers_down(modifiers@.take(i as int)),
            decreases modifiers.len() - i,
        {
            if i > 0 {
                push_str(&mut cmd_str, ", ");
            }
            let name = modifier_to_string(modifiers[i]);
            push_str(&mut cmd_str, name.as_str());
            push_str(&mut cmd_str, " down");
            proof {
                let t = modifiers@.take(i + 1);
                assert(t.drop_last() =~= modifiers@.take(i as int));
                if i == 0 {
                    assert(modifiers@.take(0) =~= Seq::<Modifier>::empty());
                }
            }
            i += 1;
            assert(cmd_str@ =~= before + modifiers_down(modifiers@.take(i as int)));
        }
        assert(modifiers@.take(i as int) =~= modifiers@);
        push_str(&mut cmd_str, " }");
        assert(cmd_str@ =~= type_key_text(key, modifiers@));
    } else {
        assert(cmd_str@ =~= type_key_text(key, modifiers@));
    }
    Cmd(cmd_str)
}

/// The AppleScript that presses backspace `n` times: the lines of a loop
pub fn backspace_script(n: usize) -> (r: Vec<String>)
    ensures
        r@.len() == 3,
        r@[0]@ == "repeat "@ + decimal(n as nat) + " times"@,
        r@[1]@ == "tell application \"System Events\" to key code 51"@,
        r@[2]@ == "end repeat"@,
{
    let mut first = "repeat ".to_owned();
    let count = decimal_string_usize(n);
    push_str(&mut first, count.as_str());
    push_str(&mut first, " times");
    // 51 is the key code for backspace
    vec![
        first,
        "tell application \"System Events\" to key code 51".to_owned(),
        "end repeat".to_owned(),
    ]
}

fn decimal_chars_usize(n: usize) -> (r: Vec<char>)
    ensures
        r@ == decimal(n as nat),
    decreases n,
{
    if n < 10 {
        vec![digit_char(n as u32)]
    } else {
        let mut r = decimal_chars_usize(n / 10);
        r.push(digit_char((n % 10) as u32));
        r
    }
}

/// A number written in decimal
pub fn decimal_string_usize(n: usize) -> (r: String)
    ensures
        r@ == decimal(n as nat),
{
    let chars = decimal_chars_usize(n);
    string_from_chars(chars.as_slice())
}

/// The AppleScript that sends a command to "System Events"
pub fn system_events_script(cmd: &Cmd) -> (r: String)
    ensures
        r@ == "tell application \"System Events\" to "@ + cmd.0@,
{
    let mut s = "tell application \"System Events\" to ".to_owned();
    push_str(&mut s, cmd.0.as_str());
    s
}

} // verus!
