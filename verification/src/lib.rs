//! Shell-independent history suggestion engine: matching, history parsing,
//! configuration and the editor state machine.

pub mod command;
pub mod config;
pub mod history;
pub mod matching;
pub mod state;
pub mod text;

pub use config::MatchingMode;
pub use matching::{Matcher, Suggestion};
pub use state::{EditorEvent, EditorState, EngineOutput};
