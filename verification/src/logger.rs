//! The logging sink that the server reports to.

use vstd::prelude::*;
use vstd::string::StringExecFns;
use std::fmt::Debug;

verus! {

/// How severe a report is.
#[derive(Clone, Copy, PartialEq, Eq, Structural, Debug)]
pub enum LogLevel {
    Fatal,
    Error,
    Warn,
    Info,
}

impl LogLevel {
    /// The word that stands in front of a report of this level.
    pub open spec fn label(self) -> Seq<char> {
        match self {
            LogLevel::Fatal => "FATAL"@,
            LogLevel::Error => "ERROR"@,
            LogLevel::Warn => "WARN"@,
            LogLevel::Info => "INFO"@,
        }
    }

    /// The word that stands in front of a report of this level.
    pub fn prefix(self) -> (word: &'static str)
        ensures
            word@ == self.label(),
    {
        match self {
            LogLevel::Fatal => "FATAL",
            LogLevel::Error => "ERROR",
            LogLevel::Warn => "WARN",
            LogLevel::Info => "INFO",
        }
    }
}

/// The line of a report: the level's word in square brackets, a space, and
/// the text of the message.
pub open spec fn report(label: Seq<char>, text: Seq<char>) -> Seq<char> {
    seq!['['] + label + seq![']', ' '] + text
}

/// `format!` of a value as `Debug` prints it. What `Debug` prints is up to
/// the type of the value, so nothing is claimed of the text.
#[verifier::external_body]
pub(crate) fn debug_text<S: Debug>(message: S) -> String {
    format!("{message:?}")
}

/// The line that reports a message with this text at `level`.
pub fn report_line(level: LogLevel, text: &str) -> (line: String)
    ensures
        line@ == report(level.label(), text@),
{
    let mut line = String::from_str("[");
    line.append(level.prefix());
    line.append("] ");
    line.append(text);
    proof {
        reveal_strlit("[");
        reveal_strlit("] ");
        assert("["@ =~= seq!['[']);
        assert("] "@ =~= seq![']', ' ']);
    }
    line
}

/// The line that reports `message` at `level`: the level's word in square
/// brackets, a space, and the message as `Debug` prints it.
pub fn render<S: Debug>(level: LogLevel, message: S) -> (line: String)
    ensures
        report(level.label(), Seq::<char>::empty()).is_prefix_of(line@),
{
    let text = debug_text(message);
    let line = report_line(level, text.as_str());
    assert(line@.subrange(0, report(level.label(), Seq::<char>::empty()).len() as int) =~= report(
        level.label(),
        Seq::<char>::empty(),
    ));
    line
}

/// A sink for reports, with one method for each level. A sink is cloned into
/// every task that reports.
pub trait Logger: Clone {
    fn fatal<S: Debug>(&self, message: S);

    fn error<S: Debug>(&self, message: S);

    fn warn<S: Debug>(&self, message: S);

    fn info<S: Debug>(&self, message: S);

    /// Reports `message` at `level`.
    fn log<S: Debug>(&self, level: LogLevel, message: S) {
        match level {
            LogLevel::Fatal => self.fatal(message),
            LogLevel::Error => self.error(message),
            LogLevel::Warn => self.warn(message),
            LogLevel::Info => self.info(message),
        }
    }
}

} // verus!
