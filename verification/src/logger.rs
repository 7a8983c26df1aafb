//! A collector of diagnostics.

use vstd::prelude::*;
use vstd::string::*;
use crate::text::{decimal_text, push_decimal};

verus! {

/// The diagnostics reported so far, one line each, and whether there were any.
pub struct Logger {
    pub had_error: bool,
    pub lines: Vec<String>,
}

/// The line that reports `message` at `at` on line `line`.
pub open spec fn report_text(line: usize, at: Seq<char>, message: Seq<char>) -> Seq<char> {
    "[line "@ + decimal_text(line as nat) + "] Error: "@ + message + " at "@ + at
}

impl Logger {
    /// A logger that has seen no error.
    pub fn new() -> (r: Logger)
        ensures
            !r.had_error,
            r.lines@ == Seq::<String>::empty(),
    {
        Logger { had_error: false, lines: Vec::new() }
    }

    /// Notes an error on a line, at no place in particular.
    pub fn error(&mut self, line: usize, message: &str)
        ensures
            final(self).had_error,
            final(self).lines@.len() == old(self).lines@.len() + 1,
            final(self).lines@.drop_last() == old(self).lines@,
            final(self).lines@.last()@ == report_text(line, Seq::empty(), message@),
    {
        proof {
            reveal_strlit("");
            assert(""@ =~= Seq::<char>::empty());
        }
        self.report(line, "", message);
    }

    /// Notes an error on a line, at a place in it.
    pub fn report(&mut self, line: usize, at: &str, message: &str)
        ensures
            final(self).had_error,
            final(self).lines@.len() == old(self).lines@.len() + 1,
            final(self).lines@.drop_last() == old(self).lines@,
            final(self).lines@.last()@ == report_text(line, at@, message@),
    {
        let mut text = String::from_str("[line ");
        push_decimal(&mut text, line);
        text.append("] Error: ");
        text.append(message);
        text.append(" at ");
        text.append(at);
        self.lines.push(text);
        self.had_error = true;
        assert(self.lines@.drop_last() =~= old(self).lines@);
    }
}

} // verus!
