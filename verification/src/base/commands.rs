use vstd::prelude::*;

verus! {

/// What action should be taken
#[derive(Debug, PartialEq, Eq, Hash)]
pub enum Command {
    /// Press backspace a certain number of times and type the string
    Replace(usize, String),
    PrintHello,
    NoOp,
    /// Press a key with some modifier keys
    Keys(Key, Vec<Modifier>),
    /// Send a raw keystroke with key code
    Raw(u16),
    /// Dispatch a shell command with arguments
    Shell(String, Vec<String>),
    /// Pass a command to the translator to be handled
    TranslatorCommand(String),
}

#[derive(Debug, Clone, Copy, PartialEq, Eq, Hash, Structural)]
pub enum Key {
    Special(SpecialKey),
    /// literal key (ex: "a", "b", etc.)
    Layout(char),
}

#[derive(Debug, Clone, Copy, PartialEq, Eq, Hash, Structural)]
pub enum SpecialKey {
    Backspace,
    CapsLock,
    Delete,
    DownArrow,
    End,
    Escape,
    F1,
    F10,
    F11,
    F12,
    F2,
    F3,
    F4,
    F5,
    F6,
    F7,
    F8,
    F9,
    Home,
    LeftArrow,
    PageDown,
    PageUp,
    Return,
    RightArrow,
    Space,
    Tab,
    UpArrow,
}

#[derive(Debug, Clone, Copy, PartialEq, Eq, Hash, Structural)]
pub enum Modifier {
    Alt,
    Control,
    Meta,
    /// for MacOS
    Option,
    Shift,
    Fn,
}

/// The value of a command, with its text as character sequences
pub enum CommandV {
    Replace(usize, Seq<char>),
    PrintHello,
    NoOp,
    Keys(Key, Seq<Modifier>),
    Raw(u16),
    Shell(Seq<char>, Seq<Seq<char>>),
    TranslatorCommand(Seq<char>),
}

/// The characters of each string in a list
pub open spec fn strings_view(v: Seq<String>) -> Seq<Seq<char>> {
    v.map_values(|s: String| s@)
}

impl View for Command {
    type V = CommandV;

    open spec fn view(&self) -> CommandV {
        match self {
            Command::Replace(n, s) => CommandV::Replace(*n, s@),
            Command::PrintHello => CommandV::PrintHello,
            Command::NoOp => CommandV::NoOp,
            Command::Keys(k, m) => CommandV::Keys(*k, m@),
            Command::Raw(c) => CommandV::Raw(*c),
            Command::Shell(c, a) => CommandV::Shell(c@, strings_view(a@)),
            Command::TranslatorCommand(c) => CommandV::TranslatorCommand(c@),
        }
    }
}

/// The values of a list of commands
pub open spec fn commands_view(v: Seq<Command>) -> Seq<CommandV> {
    v.map_values(|c: Command| c@)
}

/// `c` is a replace command deleting `n` characters and typing `text`
pub open spec fn is_replace(c: Command, n: int, text: Seq<char>) -> bool {
    c@ == CommandV::Replace(n as usize, text) && 0 <= n <= usize::MAX
}

/// Copies a list of strings
pub fn clone_strings(v: &Vec<String>) -> (r: Vec<String>)
    ensures
        strings_view(r@) == strings_view(v@),
{
    let mut r: Vec<String> = Vec::new();
    let mut i: usize = 0;
    while i < v.len()
        invariant
            i <= v.len(),
            r.len() == i,
            forall|k: int| 0 <= k < i ==> #[trigger] r@[k]@ == v@[k]@,
        decreases v.len() - i,
    {
        r.push(v[i].clone());
        i += 1;
    }
    assert(strings_view(r@) =~= strings_view(v@));
    r
}

/// Copies a list of modifiers
pub fn clone_modifiers(v: &Vec<Modifier>) -> (r: Vec<Modifier>)
    ensures
        r@ == v@,
{
    let mut r: Vec<Modifier> = Vec::new();
    let mut i: usize = 0;
    while i < v.len()
        invariant
            i <= v.len(),
            r@ == v@.subrange(0, i as int),
        decreases v.len() - i,
    {
        r.push(v[i]);
        i += 1;
    }
    r
}

/// Copies a list of commands
pub fn clone_commands(v: &Vec<Command>) -> (r: Vec<Command>)
    ensures
        commands_view(r@) == commands_view(v@),
{
    let mut r: Vec<Command> = Vec::new();
    let mut i: usize = 0;
    while i < v.len()
        invariant
            i <= v.len(),
            r.len() == i,
            forall|k: int| 0 <= k < i ==> #[trigger] r@[k]@ == v@[k]@,
        decreases v.len() - i,
    {
        r.push(v[i].clone());
        i += 1;
    }
    assert(commands_view(r@) =~= commands_view(v@));
    r
}

impl Clone for Command {
    fn clone(&self) -> (r: Self)
        ensures
            r@ == self@,
    {
        match self {
            Command::Replace(n, s) => Command::Replace(*n, s.clone()),
            Command::PrintHello => Command::PrintHello,
            Command::NoOp => Command::NoOp,
            Command::Keys(k, m) => Command::Keys(*k, clone_modifiers(m)),
            Command::Raw(c) => Command::Raw(*c),
            Command::Shell(c, a) => Command::Shell(c.clone(), clone_strings(a)),
            Command::TranslatorCommand(c) => Command::TranslatorCommand(c.clone()),
        }
    }
}

impl Command {
    /// Types the text without deleting anything
    pub fn add_text(output: &str) -> (c: Self)
        ensures
            is_replace(c, 0, output@),
    {
        Self::replace_text(0, output)
    }

    /// Presses backspace `backspace_num` times, then types the text
    pub fn replace_text(backspace_num: usize, replace_str: &str) -> (c: Self)
        ensures
            is_replace(c, backspace_num as int, replace_str@),
    {
        Self::Replace(backspace_num, replace_str.to_owned())
    }
}

} // verus!
