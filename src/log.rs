//! The lines that the console shows for each kind of message.
use vstd::prelude::*;
use crate::text::concat;

verus! {

/// The kinds of console message.
#[derive(Debug, Clone, Copy, PartialEq, Eq, Structural)]
pub enum LogKind {
    Info,
    Success,
    Ko,
    Warning,
}

/// The colour and symbol that begin a message of kind `kind`.
pub open spec fn prefix_of(kind: LogKind) -> Seq<char> {
    match kind {
        LogKind::Info => "\x1b[36m\u{2139}  "@,
        LogKind::Success => "\x1b[32m\u{2705} "@,
        LogKind::Ko => "\x1b[31m\u{274C} "@,
        LogKind::Warning => "\x1b[33m\u{26A0}\u{FE0F} "@,
    }
}

/// The code that ends every message, restoring the colour.
pub open spec fn reset_code() -> Seq<char> {
    "\x1b[0m"@
}

/// The console line for a message `msg` of kind `kind`.
pub open spec fn line_of(kind: LogKind, msg: Seq<char>) -> Seq<char> {
    prefix_of(kind) + msg + reset_code()
}

/// Messages for the console.
pub struct ConsoleLog;

impl ConsoleLog {
    /// The console line for `msg`: the colour and symbol of `kind`, the
    /// message, and the code that restores the colour.
    pub fn log(kind: LogKind, msg: &str) -> (r: String)
        ensures
            r@ == line_of(kind, msg@),
    {
        let prefix = match kind {
            LogKind::Info => "\x1b[36m\u{2139}  ",
            LogKind::Success => "\x1b[32m\u{2705} ",
            LogKind::Ko => "\x1b[31m\u{274C} ",
            LogKind::Warning => "\x1b[33m\u{26A0}\u{FE0F} ",
        };
        let head = concat(prefix, msg);
        concat(head.as_str(), "\x1b[0m")
    }

    /// Whether a message of kind `kind` goes to the error stream rather
    /// than to the standard output.
    pub fn to_stderr(kind: LogKind) -> (r: bool)
        ensures
            r == (kind == LogKind::Ko),
    {
        match kind {
            LogKind::Ko => true,
            _ => false,
        }
    }

    /// The console line for an informative message.
    pub fn info(msg: &str) -> (r: String)
        ensures
            r@ == line_of(LogKind::Info, msg@),
    {
        Self::log(LogKind::Info, msg)
    }

    /// The console line for a message of success.
    pub fn ok(msg: &str) -> (r: String)
        ensures
            r@ == line_of(LogKind::Success, msg@),
    {
        Self::log(LogKind::Success, msg)
    }

    /// The console line for a message of failure.
    pub fn ko(msg: &str) -> (r: String)
        ensures
            r@ == line_of(LogKind::Ko, msg@),
    {
        Self::log(LogKind::Ko, msg)
    }

    /// The console line for a warning.
    pub fn warn(msg: &str) -> (r: String)
        ensures
            r@ == line_of(LogKind::Warning, msg@),
    {
        Self::log(LogKind::Warning, msg)
    }
}

} // verus!
