//! The logging vocabulary: severity levels for conditions the library
//! recovers from, and the handler interface embedders implement.

use vstd::prelude::*;

verus! {

/// How serious a reported condition is.
#[derive(Debug, Clone, Copy, PartialEq, Eq, Structural)]
pub enum Level {
    Panic,
    Bug,
    Error,
    Warning,
    Surprise,
    Info,
    Debug,
}

impl Level {
    /// Whether the condition indicates a problem rather than information.
    pub open spec fn spec_is_problem(self) -> bool {
        match self {
            Level::Panic | Level::Bug | Level::Error | Level::Warning | Level::Surprise => true,
            _ => false,
        }
    }

    /// Tells problems from plain information.
    pub fn is_problem(self) -> (r: bool)
        ensures
            r == self.spec_is_problem(),
    {
        match self {
            Level::Panic | Level::Bug | Level::Error | Level::Warning | Level::Surprise => true,
            _ => false,
        }
    }
}

/// What an embedder does with reported conditions.  The library itself
/// returns its warnings as values; a handler lets a caller funnel them to
/// its own sink.
pub trait Handler {
    fn handle(&mut self, level: Level, warning: &str);
}

} // verus!
