//! Voxable's dictation logic: hotkey semantics, version comparison, prompt and
//! vocabulary assembly, dictionary corrections and snippet expansion, history
//! retention and usage tallies, each with its contract proved by Verus.

pub mod hotkey;
pub mod text;
pub mod version;
pub mod config;
pub mod prompt;
pub mod snippets;
pub mod clock;
pub mod history;
pub mod stats;
pub mod update;
pub mod llm;
pub mod capture;
pub mod desktop;
