//! What is written to the log.

use crate::text::{same_text, starts_with};
use vstd::prelude::*;
use vstd::string::*;

verus! {

/// A record of this target is written to the log: not one of the web
/// framework's own, whose targets begin with `rocket` or are `_`.
pub open spec fn is_logged(target: Seq<char>) -> bool {
    !("rocket"@.is_prefix_of(target) || target == "_"@)
}

/// Tells whether a record with this target is written to the log.
pub fn drop_rocket(target: &str) -> (keep: bool)
    ensures
        keep == is_logged(target@),
{
    if starts_with(target, "rocket") || same_text(target, "_") {
        return false;
    }
    true
}

/// The line that the log holds for a record: the time, then the target and
/// the level in brackets, then the message.
pub open spec fn line_of(
    time: Seq<char>,
    target: Seq<char>,
    level: Seq<char>,
    message: Seq<char>,
) -> Seq<char> {
    time + "["@ + target + "]["@ + level + "] "@ + message
}

/// Lays out one line of the log.
pub fn log_line(time: &str, target: &str, level: &str, message: &str) -> (line: String)
    ensures
        line@ == line_of(time@, target@, level@, message@),
{
    let mut line = time.to_owned();
    line.append("[");
    line.append(target);
    line.append("][");
    line.append(level);
    line.append("] ");
    line.append(message);
    line
}

} // verus!
