//! Types shared by every part of the translator: strokes, commands and keys, and the interfaces
//! of translators, controllers and machines.
pub mod commands;
pub mod decode;
pub mod stroke;

pub use commands::{Command, Key, Modifier, SpecialKey};
pub use stroke::{RawStroke, Stroke};
use vstd::prelude::*;

verus! {

/// Turns strokes into commands
pub trait Translator {
    fn translate(&mut self, stroke: Stroke) -> Vec<Command>;

    fn undo(&mut self) -> Vec<Command>;
}

/// Controller that can perform a command
pub trait Controller {
    fn new() -> Self where Self: Sized;

    fn dispatch(&mut self, command: Command);
}

/// A stenography machine (or equivalent)
pub trait Machine {
    /// Waits until a new stroke is read; an error is described in words
    fn read(&mut self) -> Result<Stroke, String>;
}

} // verus!
