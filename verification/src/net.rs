//! The data the I/O channel writes: the diagnostic levels and the leveled
//! line each one produces. The streams themselves (standard input, output
//! and error, each behind its own lock) live outside the library.

use vstd::prelude::*;

use crate::json::chars_to_string;
use crate::json::str_chars;

verus! {

/// A diagnostic line's severity.
#[allow(non_camel_case_types)]
pub enum LogLevel {
    INFO,
    WARN,
    ERROR,
    DEBUG,
}

/// The text a leveled diagnostic line carries: the level's prefix, then
/// the message.
pub open spec fn sp_log_line(message: Seq<char>, level: LogLevel) -> Seq<char> {
    match level {
        LogLevel::ERROR => "ERROR: "@ + message,
        LogLevel::WARN => "WARNING: "@ + message,
        LogLevel::INFO => "INFO: "@ + message,
        LogLevel::DEBUG => "DEBUG: "@ + message,
    }
}

/// Builds the leveled line written to the diagnostic stream.
pub fn log_line(message: &str, level: &LogLevel) -> (r: String)
    ensures
        r@ == sp_log_line(message@, *level),
{
    let prefix: &str = match level {
        LogLevel::ERROR => "ERROR: ",
        LogLevel::WARN => "WARNING: ",
        LogLevel::INFO => "INFO: ",
        LogLevel::DEBUG => "DEBUG: ",
    };
    let mut out = str_chars(prefix);
    let mut tail = str_chars(message);
    out.append(&mut tail);
    chars_to_string(&out)
}

} // verus!
