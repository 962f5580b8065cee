//! Errors that end a run before any command is executed.

use vstd::prelude::*;

verus! {

/// Why a script could not be turned into commands.
#[derive(Debug, Clone, Copy, PartialEq, Eq, Structural)]
pub enum ScriptError {
    /// No section of the script is for the host's operating system.
    NoMatchingOsSection,
}

} // verus!
