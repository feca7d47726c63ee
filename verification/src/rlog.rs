//! Runtime log lines: `[time] [LEVEL] message`, timestamped in UTC+8.

use vstd::prelude::*;

use crate::calendar::{chrono_now, clock_text};
use crate::text::push_char;

verus! {

/// The text of one log line.
pub open spec fn log_line_text(now: Seq<char>, level: Seq<char>, msg: Seq<char>) -> Seq<char> {
    seq!['['] + now + seq![']', ' ', '['] + level + seq![']', ' '] + msg + seq!['\n']
}

/// Formats one log line.
pub fn log_line(now: &str, level: &str, msg: &str) -> (r: String)
    ensures
        r@ == log_line_text(now@, level@, msg@),
{
    let mut out = String::new();
    push_char(&mut out, '[');
    out.append(now);
    push_char(&mut out, ']');
    push_char(&mut out, ' ');
    push_char(&mut out, '[');
    out.append(level);
    push_char(&mut out, ']');
    push_char(&mut out, ' ');
    out.append(msg);
    push_char(&mut out, '\n');
    assert(out@ =~= log_line_text(now@, level@, msg@));
    out
}

/// The current time as log lines show it.
fn now_str() -> (r: String)
    ensures
        exists|t: i64| r@ == #[trigger] clock_text(t.wrapping_add(28800) as int),
{
    chrono_now()
}

/// A log line at `level` stamped with the current time.
pub fn write(level: &str, msg: &str) -> (r: String)
    ensures
        exists|t: i64| r@ == log_line_text(#[trigger] clock_text(t.wrapping_add(28800) as int), level@, msg@),
{
    let now = now_str();
    log_line(now.as_str(), level, msg)
}

/// An `INFO` line for the current time.
pub fn info(msg: &str) -> (r: String)
    ensures
        exists|t: i64| r@ == log_line_text(#[trigger] clock_text(t.wrapping_add(28800) as int), "INFO"@, msg@),
{
    write("INFO", msg)
}

/// A `WARN` line for the current time.
pub fn warn(msg: &str) -> (r: String)
    ensures
        exists|t: i64| r@ == log_line_text(#[trigger] clock_text(t.wrapping_add(28800) as int), "WARN"@, msg@),
{
    write("WARN", msg)
}

/// An `ERROR` line for the current time.
pub fn error(msg: &str) -> (r: String)
    ensures
        exists|t: i64| r@ == log_line_text(#[trigger] clock_text(t.wrapping_add(28800) as int), "ERROR"@, msg@),
{
    write("ERROR", msg)
}

} // verus!
