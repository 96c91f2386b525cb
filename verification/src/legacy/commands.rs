//! The commands of the first generation: internal ones change the translation state, external ones
//! act on the computer.
use vstd::prelude::*;

verus! {

/// Internal commands affect the translation state
#[derive(Debug, Clone, Copy, PartialEq, Eq, Structural)]
pub enum InternalCommand {
    Undo,
}

/// External commands create some output to the computer (keyboard press, mouse move, etc.)
#[derive(Debug, PartialEq, Eq)]
pub enum ExternalCommand {
    Replace(usize, String),
    PrintHello,
}

/// What action should be taken
#[derive(Debug, PartialEq, Eq)]
pub enum Command {
    Internal(InternalCommand),
    External(ExternalCommand),
}

/// The value of a command
pub enum CommandV {
    Undo,
    Replace(usize, Seq<char>),
    PrintHello,
}

impl View for Command {
    type V = CommandV;

    open spec fn view(&self) -> CommandV {
        match self {
            Command::Internal(InternalCommand::Undo) => CommandV::Undo,
            Command::External(ExternalCommand::Replace(n, s)) => CommandV::Replace(*n, s@),
            Command::External(ExternalCommand::PrintHello) => CommandV::PrintHello,
        }
    }
}

impl Clone for Command {
    fn clone(&self) -> (r: Self)
        ensures
            r@ == self@,
    {
        match self {
            Command::Internal(c) => Command::Internal(*c),
            Command::External(ExternalCommand::Replace(n, s)) => Command::External(
                ExternalCommand::Replace(*n, s.clone()),
            ),
            Command::External(ExternalCommand::PrintHello) => Command::External(
                ExternalCommand::PrintHello,
            ),
        }
    }
}

impl Command {
    /// Types the text without deleting anything
    pub fn add_text(output: &str) -> (c: Self)
        ensures
            c@ == CommandV::Replace(0, output@),
    {
        Self::replace_text(0, output)
    }

    /// Presses backspace `backspace_num` times, then types the text
    pub fn replace_text(backspace_num: usize, replace_str: &str) -> (c: Self)
        ensures
            c@ == CommandV::Replace(backspace_num, replace_str@),
    {
        Self::External(ExternalCommand::Replace(backspace_num, replace_str.to_owned()))
    }

    /// Whether two commands are the same
    pub fn same(&self, other: &Self) -> (b: bool)
        ensures
            b == (self@ == other@),
    {
        match (self, other) {
            (Command::Internal(InternalCommand::Undo), Command::Internal(InternalCommand::Undo)) => true,
            (
                Command::External(ExternalCommand::Replace(n, s)),
                Command::External(ExternalCommand::Replace(m, t)),
            ) => *n == *m && *s == *t,
            (
                Command::External(ExternalCommand::PrintHello),
                Command::External(ExternalCommand::PrintHello),
            ) => true,
            _ => false,
        }
    }
}

} // verus!
