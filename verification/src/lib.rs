//! Hotkey dispatch: packed key chords, the chord-to-command table, the
//! command-line tokenizer and the decisions of the dispatch pipeline.

pub mod fault;
pub mod filter;
pub mod key;
pub mod keymap;
pub mod listener;
pub mod monitor;
pub mod runner;
pub mod server;
pub mod text;
