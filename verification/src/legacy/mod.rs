//! The first generation of the translator: a dictionary maps strokes to a single translation, and
//! text actions are sets of flags for spacing and case around words.
pub mod commands;
pub mod controller;
pub mod diff;
pub mod dispatch;
pub mod dictionary;
pub mod parser;
pub mod simple;
pub mod state;
pub mod stroke;
pub mod translate;
pub mod types;

pub use commands::{Command, ExternalCommand, InternalCommand};
pub use controller::Controller;
pub use dispatch::{parse_command, ControllerAction};
pub use state::State;
pub use stroke::is_valid_stroke;
pub use types::{TextAction, TextActionType, Translation};
