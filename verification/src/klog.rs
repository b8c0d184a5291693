//! Log severities and the pure decisions of the kernel logger: whether a
//! message passes the configured threshold, and which prefix marks it.
//! Writing the bytes anywhere is a collaborator's job, not this library's.

use vstd::prelude::*;

verus! {

/// Severity of a log message, least to most severe.
#[derive(Clone, Copy, Debug, PartialEq, Eq, PartialOrd, Structural)]
pub enum Level {
    Debug,
    Info,
    Warning,
    Error,
    Fatal,
}

/// The rank of a severity: `Debug` lowest, `Fatal` highest.
pub open spec fn spec_severity(level: Level) -> int {
    match level {
        Level::Debug => 0,
        Level::Info => 1,
        Level::Warning => 2,
        Level::Error => 3,
        Level::Fatal => 4,
    }
}

/// The rank of a severity, as [`spec_severity`] gives it.
pub fn severity(level: Level) -> (r: u32)
    ensures
        r as int == spec_severity(level),
{
    match level {
        Level::Debug => 0,
        Level::Info => 1,
        Level::Warning => 2,
        Level::Error => 3,
        Level::Fatal => 4,
    }
}

/// A message is emitted exactly when its severity reaches the configured
/// threshold.
pub open spec fn spec_should_log(level: Level, threshold: Level) -> bool {
    spec_severity(level) >= spec_severity(threshold)
}

/// Whether a message of severity `level` passes the `threshold`.
pub fn should_log(level: Level, threshold: Level) -> (r: bool)
    ensures
        r == spec_should_log(level, threshold),
{
    severity(level) >= severity(threshold)
}

/// The line prefix marking each severity.
pub open spec fn spec_prefix(level: Level) -> Seq<char> {
    match level {
        Level::Debug => "d "@,
        Level::Info => "i "@,
        Level::Warning => "W "@,
        Level::Error => "E "@,
        Level::Fatal => "F "@,
    }
}

/// The prefix a line of severity `level` starts with.
pub fn prefix(level: Level) -> (r: &'static str)
    ensures
        r@ == spec_prefix(level),
{
    match level {
        Level::Debug => "d ",
        Level::Info => "i ",
        Level::Warning => "W ",
        Level::Error => "E ",
        Level::Fatal => "F ",
    }
}

} // verus!
