//! Structured log lines produced by the apply step.

use vstd::prelude::*;

verus! {

#[derive(Debug, Clone, Copy, PartialEq, Eq, Structural)]
pub enum Level {
    Info,
    Warn,
    Error,
}

#[derive(Debug, Clone)]
pub struct LogLine {
    pub level: Level,
    pub text: String,
}

impl LogLine {
    pub fn new(level: Level, text: String) -> (line: LogLine)
        ensures
            line.level == level,
            line.text@ == text@,
    {
        LogLine { level, text }
    }
}

} // verus!
