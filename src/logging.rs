//! The ordered report of one job: lines of text with a colour each, kept
//! until the job ends and then handed over whole.

use vstd::prelude::*;
use crate::text::{decimal, push_decimal};

verus! {

/// Whether a log item ends its line.
#[derive(PartialEq, Eq, Structural, Clone, Copy, Debug)]
pub enum LogType {
    Print,
    Println,
}

/// The colour a log item is shown in.
#[derive(PartialEq, Eq, Structural, Clone, Copy, Debug)]
pub enum TextColor {
    White,
    BrightBlack,
    Cyan,
    BrightCyan,
    Yellow,
    BrightBlue,
    Green,
    Red,
    BrightRed,
}

/// One piece of a report.
#[derive(Clone, Debug)]
pub struct LogItem {
    pub log_type: LogType,
    pub content: String,
    pub color: TextColor,
}

/// The report of one job, in the order it was written.
pub struct LogQueue {
    pub items: Vec<LogItem>,
}

impl LogQueue {
    /// An empty report.
    pub fn new() -> (r: LogQueue)
        ensures
            r.items@.len() == 0,
    {
        LogQueue { items: Vec::new() }
    }

    /// Adds an item at the end of the report.
    pub fn enqueue(&mut self, log_type: LogType, content: String, color: TextColor)
        ensures
            final(self).items@ == old(self).items@.push(LogItem { log_type, content, color }),
    {
        self.items.push(LogItem { log_type, content, color });
    }

    /// Hands over every item in order and leaves the report empty.
    pub fn process_queue(&mut self) -> (r: Vec<LogItem>)
        ensures
            r@ == old(self).items@,
            final(self).items@.len() == 0,
    {
        let mut out: Vec<LogItem> = Vec::new();
        std::mem::swap(&mut self.items, &mut out);
        out
    }
}

/// The two-digit rendering of `n < 100`.
pub open spec fn two_digits(n: nat) -> Seq<char> {
    if n < 10 { seq!['0'] + decimal(n) } else { decimal(n) }
}

/// Hundredths of a second in `ms` milliseconds, rounded half up.
pub open spec fn centiseconds(ms: nat) -> nat {
    ms / 10 + if ms % 10 >= 5 { 1nat } else { 0nat }
}

/// The line that closes a run that took `ms` milliseconds.
pub open spec fn completion_text(ms: nat) -> Seq<char> {
    "Processing completed in "@ + decimal(centiseconds(ms) / 100) + seq!['.']
        + two_digits(centiseconds(ms) % 100) + " seconds."@
}

/// The line that closes a run that took `elapsed_ms` milliseconds, with the
/// seconds given to two decimals.
pub fn completion_message(elapsed_ms: u64) -> (r: String)
    ensures
        r@ == completion_text(elapsed_ms as nat),
{
    let cs: u64 = elapsed_ms / 10 + if elapsed_ms % 10 >= 5 { 1 } else { 0 };
    let mut s = String::from_str("Processing completed in ");
    push_decimal(&mut s, cs / 100);
    proof {
        reveal_strlit(".");
        reveal_strlit("0");
        assert("."@ =~= seq!['.']);
        assert("0"@ =~= seq!['0']);
    }
    s.append(".");
    let frac = cs % 100;
    if frac < 10 {
        s.append("0");
    }
    push_decimal(&mut s, frac);
    s.append(" seconds.");
    proof {
        assert(s@ =~= completion_text(elapsed_ms as nat));
    }
    s
}

} // verus!
