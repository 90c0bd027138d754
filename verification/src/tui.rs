//! Text handling behind the terminal dashboard: the rolling log tail and the
//! small formatting rules of the panels.

use std::collections::VecDeque;
use std::sync::{Arc, Mutex};

use vstd::prelude::*;
use vstd::string::*;

verus! {

#[verifier::external_type_specification]
#[verifier::external_body]
#[verifier::reject_recursive_types(T)]
pub struct ExMutex<T: ?Sized>(Mutex<T>);

/// The lines that the log mutex guards, oldest first.
pub uninterp spec fn guarded_lines(m: Mutex<VecDeque<String>>) -> Seq<Seq<char>>;

/// Wraps `lines` in `std::sync::Mutex::new`; the mutex then guards exactly those lines.
#[verifier::external_body]
fn new_lines_mutex(lines: VecDeque<String>) -> (m: Mutex<VecDeque<String>>)
    ensures
        guarded_lines(m) == lines@.map_values(|s: String| s@),
{
    Mutex::new(lines)
}

/// Shared tail of log lines read by the dashboard.
pub type LogBuffer = Arc<Mutex<VecDeque<String>>>;

/// A fresh, empty log tail.
pub fn new_log_buffer() -> (b: LogBuffer)
    ensures
        guarded_lines(*b) == Seq::<Seq<char>>::empty(),
{
    let lines: VecDeque<String> = VecDeque::with_capacity(200);
    let m = new_lines_mutex(lines);
    proof {
        assert(guarded_lines(m) =~= Seq::<Seq<char>>::empty());
    }
    Arc::new(m)
}

/// Where log events are kept for the dashboard and how many of them.
pub struct TuiLogLayer {
    pub buffer: LogBuffer,
    pub max_lines: usize,
}

impl TuiLogLayer {
    pub fn new(buffer: LogBuffer, max_lines: usize) -> (l: Self)
        ensures
            l.buffer == buffer,
            l.max_lines == max_lines,
    {
        TuiLogLayer { buffer, max_lines }
    }
}

/// Severity of a log event.
#[derive(Clone, Copy, Debug, PartialEq, Eq, Structural)]
pub enum LogLevel {
    Error,
    Warn,
    Info,
    Debug,
    Trace,
}

/// Fixed-width label of a level.
pub open spec fn spec_level_label(l: LogLevel) -> Seq<char> {
    match l {
        LogLevel::Error => "ERROR"@,
        LogLevel::Warn => "WARN "@,
        LogLevel::Info => "INFO "@,
        LogLevel::Debug => "DEBUG"@,
        LogLevel::Trace => "TRACE"@,
    }
}

pub fn level_label(l: LogLevel) -> (s: &'static str)
    ensures
        s@ == spec_level_label(l),
{
    match l {
        LogLevel::Error => "ERROR",
        LogLevel::Warn => "WARN ",
        LogLevel::Info => "INFO ",
        LogLevel::Debug => "DEBUG",
        LogLevel::Trace => "TRACE",
    }
}

/// `HH:MM:SS [LEVEL] message`, or nothing for an event without a message.
pub open spec fn spec_log_line(clock: Seq<char>, level: LogLevel, message: Seq<char>) -> Option<Seq<char>> {
    if message.len() == 0 {
        None
    } else {
        Some(clock + " ["@ + spec_level_label(level) + "] "@ + message)
    }
}

/// The dashboard line of a log event; `clock` is the event's wall-clock time as `HH:MM:SS`.
pub fn log_line(clock: &str, level: LogLevel, message: &str) -> (r: Option<String>)
    ensures
        match r {
            Some(s) => spec_log_line(clock@, level, message@) == Some(s@),
            None => spec_log_line(clock@, level, message@) is None,
        },
{
    if message.unicode_len() == 0 {
        return None;
    }
    let mut line = String::from_str(clock);
    line.append(" [");
    line.append(level_label(level));
    line.append("] ");
    line.append(message);
    Some(line)
}

/// The tail after appending `line` to `lines` and dropping the oldest lines
/// until at most `max_lines` remain.
pub open spec fn spec_append_tail<A>(lines: Seq<A>, line: A, max_lines: nat) -> Seq<A> {
    let all = lines.push(line);
    if all.len() > max_lines {
        all.subrange(all.len() - max_lines, all.len() as int)
    } else {
        all
    }
}

/// Appends `line` and trims the tail to its newest `max_lines` lines.
pub fn append_log_line(lines: &mut VecDeque<String>, line: String, max_lines: usize)
    ensures
        final(lines)@ == spec_append_tail(old(lines)@, line, max_lines as nat),
{
    let ghost all = old(lines)@.push(line);
    lines.push_back(line);
    while lines.len() > max_lines
        invariant
            all.len() >= lines@.len(),
            lines@.len() < all.len() ==> lines@.len() >= max_lines,
            lines@ == all.subrange(all.len() - lines@.len(), all.len() as int),
        decreases lines@.len(),
    {
        let _ = lines.pop_front();
        assert(lines@ =~= all.subrange(all.len() - lines@.len(), all.len() as int));
    }
    assert(lines@ =~= spec_append_tail(old(lines)@, line, max_lines as nat));
}

} // verus!
