//! Turning the commands of the first generation into keyboard actions; an undo is carried out on
//! the translation state first.
use crate::legacy::commands::{Command, CommandV, ExternalCommand, InternalCommand};
use crate::legacy::dictionary::Dictionary;
use crate::legacy::state::{undo, undo_spec, State};
use crate::legacy::types::TranslationV;
use vstd::prelude::*;

verus! {

/// Delay in milliseconds between backspace presses
pub const BACKSPACE_DELAY: u32 = 10;

/// Delay in milliseconds between typed keys
pub const KEY_DELAY: u32 = 20;

/// What the keyboard controller should do
#[derive(Debug, PartialEq)]
pub enum ControllerAction {
    /// Type the text, waiting the delay in milliseconds after each character
    TypeWithDelay(String, u32),
    /// Press backspace that many times, waiting the delay in milliseconds after each press
    BackspaceWithDelay(usize, u32),
    /// Print a greeting
    PrintHello,
}

/// The value of a controller action
pub enum ActionV {
    Type(Seq<char>, u32),
    Backspace(usize, u32),
    PrintHello,
}

/// The value of a controller action
pub open spec fn action_view(a: ControllerAction) -> ActionV {
    match a {
        ControllerAction::TypeWithDelay(s, d) => ActionV::Type(s@, d),
        ControllerAction::BackspaceWithDelay(n, d) => ActionV::Backspace(n, d),
        ControllerAction::PrintHello => ActionV::PrintHello,
    }
}

/// The values of controller actions
pub open spec fn actions_view(v: Seq<ControllerAction>) -> Seq<ActionV> {
    v.map_values(|a: ControllerAction| action_view(a))
}

/// The actions for a command to the computer: backspaces if any, then the text if any; a greeting
/// is printed; an undo is no action of its own
pub open spec fn external_actions(c: CommandV) -> Seq<ActionV> {
    match c {
        CommandV::Replace(n, s) => (if n > 0 {
            seq![ActionV::Backspace(n, BACKSPACE_DELAY)]
        } else {
            Seq::empty()
        }) + (if s.len() > 0 {
            seq![ActionV::Type(s, KEY_DELAY)]
        } else {
            Seq::empty()
        }),
        CommandV::PrintHello => seq![ActionV::PrintHello],
        CommandV::Undo => Seq::empty(),
    }
}

/// The actions for a command and the strokes kept after it: an undo is carried out on the strokes,
/// and the command it gives is dispatched in turn
pub open spec fn dispatch_spec(
    d: Map<Seq<char>, TranslationV>,
    strokes: Seq<Seq<char>>,
    c: CommandV,
) -> (Seq<ActionV>, Seq<Seq<char>>)
    decreases strokes.len(),
{
    match c {
        CommandV::Undo => {
            let (next, left) = undo_spec(d, strokes);
            if left.len() < strokes.len() {
                dispatch_spec(d, left, next)
            } else {
                (external_actions(next), left)
            }
        },
        _ => (external_actions(c), strokes),
    }
}

/// Given a translation state and a dictionary, parse the new command into a list of controller
/// actions and new state
pub fn parse_command(state: State, dict: &Dictionary, command: Command) -> (r: (
    Vec<ControllerAction>,
    State,
))
    ensures
        (actions_view(r.0@), r.1@) == dispatch_spec(dict@, state@, command@),
    decreases state@.len(),
{
    match command {
        Command::Internal(InternalCommand::Undo) => {
            let before = state.len();
            let (next, new_state) = undo(dict, state);
            if new_state.len() < before {
                parse_command(new_state, dict, next)
            } else {
                let actions = match next {
                    Command::External(external_command) => parse_external_command(external_command),
                    Command::Internal(_) => Vec::new(),
                };
                proof {
                    assert(actions_view(actions@) =~= external_actions(next@));
                }
                (actions, new_state)
            }
        },
        Command::External(external_command) => {
            let actions = parse_external_command(external_command);
            (actions, state)
        },
    }
}

fn parse_external_command(command: ExternalCommand) -> (r: Vec<ControllerAction>)
    ensures
        actions_view(r@) == external_actions(Command::External(command)@),
{
    let ghost c = Command::External(command)@;
    let mut actions: Vec<ControllerAction> = Vec::new();
    match command {
        ExternalCommand::Replace(num_backspace, add_text) => {
            if num_backspace > 0 {
                actions.push(ControllerAction::BackspaceWithDelay(num_backspace, BACKSPACE_DELAY));
            }
            let ghost first = actions@;
            if !add_text.as_str().is_empty() {
                actions.push(ControllerAction::TypeWithDelay(add_text, KEY_DELAY));
            }
            assert(actions_view(actions@) =~= external_actions(c));
        },
        ExternalCommand::PrintHello => {
            actions.push(ControllerAction::PrintHello);
            assert(actions_view(actions@) =~= external_actions(c));
        },
    }
    actions
}

} // verus!
