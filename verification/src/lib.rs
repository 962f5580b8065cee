//! A runner for cross-platform command scripts.
//!
//! A script is a text of lines. `@<os>` opens a section for one operating
//! system, `-<command>` is one shell command, and a pair of `--` lines
//! encloses a block of lines that form one command. [`Script::new`] resolves
//! the commands that a script holds for a host; [`Script::execute`] begins a
//! run over them, which keeps one result per command and goes on after a
//! failure.

pub mod error;
pub mod executor;
pub mod line;
pub mod parser;
pub mod prompt;
pub mod script;
pub mod source;
pub mod text;

pub use crate::error::ScriptError;
pub use crate::executor::{CommandResult, Execution, Shell, ShellOutcome};
pub use crate::line::LineType;
pub use crate::parser::ParseState;
pub use crate::script::Script;
