//! The diagnostic channel: every reported error is one line of the form
//! `[line {line}] Error: {message}` on the error stream.

use std::io::Write;
use vstd::prelude::*;
use vstd::string::*;
use crate::text::dec_digits;
use crate::text::u64_text;

verus! {

pub struct Lox;

/// The one externally observable error format.
pub open spec fn report_text(line: int, message: Seq<char>) -> Seq<char> {
    "[line "@ + dec_digits(line) + "] Error: "@ + message
}

impl Lox {
    /// The report line for a diagnostic at `line` with text `message`.
    pub fn format_report(line: u64, message: &str) -> (r: String)
        ensures
            r@ == report_text(line as int, message@),
    {
        let mut s = String::from_str("[line ");
        let num = u64_text(line);
        s.append(num.as_str());
        s.append("] Error: ");
        s.append(message);
        s
    }

    /// Reports a diagnostic on the error stream.
    pub fn error(line: u64, message: &str) {
        let r = Lox::format_report(line, message);
        emit_err(&r);
    }
}

/// Relies on `writeln!` to standard error: prints the line; nothing else
/// is observable of it.
#[verifier::external_body]
fn emit_err(s: &String) {
    let _ = writeln!(std::io::stderr(), "{}", s);
}

} // verus!
