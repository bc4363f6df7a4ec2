//! A character-frequency histogram over raw keylogger event files: keycodes
//! are resolved through a keymap table to base key symbols, the held state of
//! the six modifier keys is tracked as the events are scanned, Shift remaps
//! punctuation and digits, and the resolved characters are counted and
//! reported ascending by count. Reading the keymap query's output, the event
//! files and the directories that hold them is the caller's part; everything
//! from raw text to ordered report lines is verified here.

pub mod histogram;
pub mod keymap;
pub mod laws;
pub mod paths;
pub mod report;
pub mod text;
pub mod translator;
