//! Diagnostic logging bridge.
//!
//! The library has no console of its own: diagnostic text is handed to a
//! host-supplied sink. `LoggerContext` records whether such a sink is
//! installed; `Logger` tags each message with a source label and a severity
//! and produces the line that the host shell forwards to the sink. With no
//! sink configured, `log` produces nothing at all.

use vstd::prelude::*;

verus! {

/// Severity tag attached to a diagnostic message.
#[derive(Clone, Copy, PartialEq, Eq, Structural, Debug)]
pub enum LogLevel {
    Success,
    Error,
    Info,
}

/// The text under which a severity appears in a log line.
pub open spec fn spec_level_text(level: LogLevel) -> Seq<char> {
    match level {
        LogLevel::Success => "SUCCESS"@,
        LogLevel::Error => "ERROR"@,
        LogLevel::Info => "INFO"@,
    }
}

/// Process-wide logging configuration. The sink itself is a host callback
/// and lives outside this crate; the library only needs to know whether one
/// is installed. At most one sink is active per process, and it is
/// installed once, before any logging happens.
pub struct LoggerContext {
    pub sink_present: bool,
}

/// A log line: `[label] LEVEL: message`.
pub open spec fn spec_log_line(label: Seq<char>, level: LogLevel, message: Seq<char>) -> Seq<char> {
    "["@ + label + "] "@ + spec_level_text(level) + ": "@ + message
}

/// A lightweight per-call-site handle: a label naming the subsystem plus
/// the shared sink configuration. Stateless apart from the label.
pub struct Logger {
    pub label: String,
    pub sink_present: bool,
}

impl Logger {
    pub fn new(context: &LoggerContext, label: &str) -> (logger: Logger)
        ensures
            logger.label@ == label@,
            logger.sink_present == context.sink_present,
    {
        Logger { label: String::from_str(label), sink_present: context.sink_present }
    }

    /// Formats `message` as `[label] LEVEL: message` and returns the line
    /// to forward to the sink. With no sink configured this returns
    /// `None`: no line is produced, nothing is buffered, and no error is
    /// raised.
    pub fn log(&self, level: LogLevel, message: &str) -> (line: Option<String>)
        ensures
            self.sink_present ==> (line matches Some(l) && l@ == spec_log_line(
                self.label@,
                level,
                message@,
            )),
            !self.sink_present ==> line is None,
    {
        if !self.sink_present {
            return None;
        }
        let mut line = String::from_str("[");
        line.append(self.label.as_str());
        line.append("] ");
        line.append(level_text(level));
        line.append(": ");
        line.append(message);
        Some(line)
    }

    /// `log` at the `Success` severity.
    pub fn success(&self, message: &str) -> (line: Option<String>)
        ensures
            self.sink_present ==> (line matches Some(l) && l@ == spec_log_line(
                self.label@,
                LogLevel::Success,
                message@,
            )),
            !self.sink_present ==> line is None,
    {
        self.log(LogLevel::Success, message)
    }

    /// `log` at the `Error` severity.
    pub fn error(&self, message: &str) -> (line: Option<String>)
        ensures
            self.sink_present ==> (line matches Some(l) && l@ == spec_log_line(
                self.label@,
                LogLevel::Error,
                message@,
            )),
            !self.sink_present ==> line is None,
    {
        self.log(LogLevel::Error, message)
    }
}

/// The display text of a severity.
pub fn level_text(level: LogLevel) -> (text: &'static str)
    ensures
        text@ == spec_level_text(level),
{
    match level {
        LogLevel::Success => "SUCCESS",
        LogLevel::Error => "ERROR",
        LogLevel::Info => "INFO",
    }
}

} // verus!
