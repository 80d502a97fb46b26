//! Lexical diagnostics: the record the scanner produces for illegal input,
//! and the rendering of such a record as a report line.
//!
//! The scanner itself never writes to any output stream; it collects
//! `Diagnostic` records, and a caller renders each with [`error`] and
//! decides where the text goes.

use crate::digits::spec_decimal;
use crate::digits::u32_to_decimal;
use vstd::prelude::*;

verus! {

/// The mathematical content of a diagnostic.
pub ghost struct DiagV {
    pub line: nat,
    pub message: Seq<char>,
}

/// One lexical diagnostic: the 1-based source line on which the problem was
/// detected, and a short message.
#[derive(Debug)]
pub struct Diagnostic {
    pub line: u32,
    pub message: String,
}

impl View for Diagnostic {
    type V = DiagV;

    open spec fn view(&self) -> DiagV {
        DiagV { line: self.line as nat, message: self.message@ }
    }
}

/// The text of a report line: `[line <n> ] error <location>: <message>`.
pub open spec fn spec_report(line: nat, location: Seq<char>, message: Seq<char>) -> Seq<char> {
    "[line "@ + spec_decimal(line) + " ] error "@ + location + ": "@ + message
}

/// Renders a report line naming the source line, a location context, and a
/// message.
pub fn report(line: u32, location: &str, message: &str) -> (r: String)
    ensures
        r@ == spec_report(line as nat, location@, message@),
{
    let mut s = String::from_str("[line ");
    let num = u32_to_decimal(line);
    s.append(num.as_str());
    s.append(" ] error ");
    s.append(location);
    s.append(": ");
    s.append(message);
    proof {
        assert(s@ =~= spec_report(line as nat, location@, message@));
    }
    s
}

/// Renders a report line with an empty location context, the form the
/// scanner's own diagnostics take.
pub fn error(line: u32, msg: &str) -> (r: String)
    ensures
        r@ == spec_report(line as nat, Seq::<char>::empty(), msg@),
{
    let r = report(line, "", msg);
    proof {
        reveal_strlit("");
        assert(""@ =~= Seq::<char>::empty());
    }
    r
}

} // verus!
