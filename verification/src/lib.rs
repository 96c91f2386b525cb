//! Stenography translation: strokes from a steno machine are looked up in dictionaries and turned
//! into commands that type text or press keys.
pub mod applescript;
pub mod base;
pub mod telemetry;
pub mod text;
pub mod geminipr;
pub mod input_keyboard;
pub mod input_stdin;
pub mod json;
pub mod json_text;
pub mod legacy;
pub mod lookup;
pub mod pattern;
pub mod plover;
pub mod serial_ports;
pub mod orthography;
pub mod output_autopilot;
pub mod output_enigo;
pub mod output_macos;
pub mod standard;
