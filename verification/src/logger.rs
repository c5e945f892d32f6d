//! The server's log: one entry per line, each appended behind the last.

use vstd::prelude::*;

verus! {

/// The writer of log lines.
pub struct Logger;

impl Logger {
    /// The line that is appended to the log for the entry `msg`: the entry,
    /// closed by a line feed.
    pub fn log(msg: String) -> (line: String)
        ensures
            line@ == msg@.push('\n'),
    {
        let mut line = msg;
        line.push('\n');
        line
    }
}

} // verus!
