//! The standard translator: strokes are looked up in dictionaries much like Plover does, and the
//! text they stand for is typed with the right spacing, capitalization and spelling.
pub mod dictionary;
pub mod decode;
pub mod diff;
pub mod load;
pub mod parser;
pub mod translate;
pub mod translator;
pub mod types;

pub use types::{StateAction, Text, TextAction, Translation};
