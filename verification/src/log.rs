//! Lines for the log that a run prints.

use vstd::prelude::*;
use vstd::string::StringExecFns;

verus! {

/// A line of the log.
pub open spec fn line(text: Seq<char>) -> Seq<char> {
    text + seq!['\n']
}

/// A line of the log that only a debug run writes.
pub open spec fn debug_line(debug: bool, text: Seq<char>) -> Seq<char> {
    if debug {
        line(text)
    } else {
        Seq::empty()
    }
}

/// Writes a line to the log.
pub fn push_line(log: &mut String, a: &str)
    ensures
        final(log)@ == old(log)@ + line(a@),
{
    log.append(a);
    log.push('\n');
    assert(log@ =~= old(log)@ + line(a@));
}

/// Writes a line of two parts to the log.
pub fn push_line2(log: &mut String, a: &str, b: &str)
    ensures
        final(log)@ == old(log)@ + line(a@ + b@),
{
    log.append(a);
    log.append(b);
    log.push('\n');
    assert(log@ =~= old(log)@ + line(a@ + b@));
}

/// Writes a line of three parts to the log.
pub fn push_line3(log: &mut String, a: &str, b: &str, c: &str)
    ensures
        final(log)@ == old(log)@ + line(a@ + b@ + c@),
{
    log.append(a);
    log.append(b);
    log.append(c);
    log.push('\n');
    assert(log@ =~= old(log)@ + line(a@ + b@ + c@));
}

/// Writes a line to the log in a debug run.
pub fn push_debug_line(log: &mut String, debug: bool, a: &str)
    ensures
        final(log)@ == old(log)@ + debug_line(debug, a@),
{
    if debug {
        push_line(log, a);
    }
    assert(log@ =~= old(log)@ + debug_line(debug, a@));
}

/// Writes a line of two parts to the log in a debug run.
pub fn push_debug_line2(log: &mut String, debug: bool, a: &str, b: &str)
    ensures
        final(log)@ == old(log)@ + debug_line(debug, a@ + b@),
{
    if debug {
        push_line2(log, a, b);
    }
    assert(log@ =~= old(log)@ + debug_line(debug, a@ + b@));
}

/// Writes a line of three parts to the log in a debug run.
pub fn push_debug_line3(log: &mut String, debug: bool, a: &str, b: &str, c: &str)
    ensures
        final(log)@ == old(log)@ + debug_line(debug, a@ + b@ + c@),
{
    if debug {
        push_line3(log, a, b, c);
    }
    assert(log@ =~= old(log)@ + debug_line(debug, a@ + b@ + c@));
}

} // verus!
