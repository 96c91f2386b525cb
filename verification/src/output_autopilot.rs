//! Dispatching commands with the `autopilot` keyboard simulator: backspace is tapped once for
//! each character to delete and text is typed as a whole; keyboard shortcuts and raw key codes
//! are not supported, and each gives a warning.
use crate::base::commands::{Command, CommandV, Key, Modifier};
use vstd::prelude::*;

verus! {

/// How long, in milliseconds, backspace is held down on each tap
pub const BACKSPACE_DELAY: u64 = 5;

/// One thing for the simulator to do
#[derive(Debug, PartialEq)]
pub enum AutopilotAction {
    /// Tap backspace, holding it down this many milliseconds
    TapBackspace(u64),
    /// Type the text
    TypeString(String),
    /// Print a greeting
    PrintHello,
    /// Warn that keys pressed together cannot be dispatched
    UnsupportedKeys(Key, Vec<Modifier>),
    /// Warn that a raw key code cannot be dispatched
    UnsupportedRaw(u16),
}

/// The value of a simulator action
pub enum AutopilotActionV {
    TapBackspace(u64),
    TypeString(Seq<char>),
    PrintHello,
    UnsupportedKeys(Key, Seq<Modifier>),
    UnsupportedRaw(u16),
}

impl View for AutopilotAction {
    type V = AutopilotActionV;

    open spec fn view(&self) -> AutopilotActionV {
        match self {
            AutopilotAction::TapBackspace(d) => AutopilotActionV::TapBackspace(*d),
            AutopilotAction::TypeString(s) => AutopilotActionV::TypeString(s@),
            AutopilotAction::PrintHello => AutopilotActionV::PrintHello,
            AutopilotAction::UnsupportedKeys(k, m) => AutopilotActionV::UnsupportedKeys(*k, m@),
            AutopilotAction::UnsupportedRaw(c) => AutopilotActionV::UnsupportedRaw(*c),
        }
    }
}

/// The values of simulator actions
pub open spec fn autopilot_actions_view(v: Seq<AutopilotAction>) -> Seq<AutopilotActionV> {
    v.map_values(|a: AutopilotAction| a@)
}

/// Whether the command is one that this simulator knows: shell commands and commands for the
/// translator are not
pub open spec fn autopilot_knows(c: CommandV) -> bool {
    !(c is Shell) && !(c is TranslatorCommand)
}

/// The simulator actions of a command: a backspace tap for each character to delete, then the
/// text if there is any; a greeting; nothing; or a warning for keys and raw key codes
pub open spec fn autopilot_dispatch_spec(c: CommandV) -> Seq<AutopilotActionV> {
    match c {
        CommandV::Replace(n, text) => Seq::new(
            n as nat,
            |i: int| AutopilotActionV::TapBackspace(BACKSPACE_DELAY),
        ) + if text.len() > 0 {
            seq![AutopilotActionV::TypeString(text)]
        } else {
            Seq::empty()
        },
        CommandV::PrintHello => seq![AutopilotActionV::PrintHello],
        CommandV::Keys(k, m) => seq![AutopilotActionV::UnsupportedKeys(k, m)],
        CommandV::Raw(code) => seq![AutopilotActionV::UnsupportedRaw(code)],
        _ => Seq::empty(),
    }
}

/// Dispatches commands with the `autopilot` keyboard simulator
pub struct AutopilotController {}

impl AutopilotController {
    pub fn new() -> Self {
        Self {  }
    }

    /// The simulator actions that carry out a command
    pub fn dispatch(&mut self, command: Command) -> (r: Vec<AutopilotAction>)
        requires
            autopilot_knows(command@),
        ensures
            autopilot_actions_view(r@) == autopilot_dispatch_spec(command@),
            *final(self) == *old(self),
    {
        let ghost c = command@;
        let mut actions: Vec<AutopilotAction> = Vec::new();
        match command {
            Command::Replace(backspace_num, add_text) => {
                let mut i: usize = 0;
                while i < backspace_num
                    invariant
                        i <= backspace_num,
                        autopilot_actions_view(actions@) =~= Seq::new(
                            i as nat,
                            |j: int| AutopilotActionV::TapBackspace(BACKSPACE_DELAY),
                        ),
                    decreases backspace_num - i,
                {
                    let ghost prev = actions@;
                    actions.push(AutopilotAction::TapBackspace(BACKSPACE_DELAY));
                    assert(autopilot_actions_view(actions@) =~= autopilot_actions_view(prev).push(
                        AutopilotActionV::TapBackspace(BACKSPACE_DELAY),
                    ));
                    i += 1;
                }
                if !add_text.as_str().is_empty() {
                    actions.push(AutopilotAction::TypeString(add_text));
                }
            },
            Command::PrintHello => {
                actions.push(AutopilotAction::PrintHello);
            },
            Command::NoOp => {},
            Command::Keys(key, modifiers) => {
                actions.push(AutopilotAction::UnsupportedKeys(key, modifiers));
            },
            Command::Raw(code) => {
                actions.push(AutopilotAction::UnsupportedRaw(code));
            },
            _ => {},
        }
        assert(autopilot_actions_view(actions@) =~= autopilot_dispatch_spec(c));
        actions
    }
}

} // verus!
