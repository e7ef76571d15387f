//! The error type shared by the reader, the evaluator and the primitives.
//! Every error is terminal for the current `rep` call.

use vstd::prelude::*;
use vstd::string::StringExecFns;

use crate::text::push_char;

verus! {

/// Ghost view of an error: text payloads become `Seq<char>`.
pub ghost enum ErrorV {
    /// A list, vector, map or string was opened but not closed; carries the
    /// closer that was expected.
    Unclosed(char),
    /// A form was expected but the tokens were exhausted.
    Eof,
    /// A special form or primitive was under-supplied; carries the form name.
    Arguments(Seq<char>),
    /// A term of the wrong kind stood in head or operand position.
    Type { expected: Seq<char>, received: Seq<char> },
    /// A symbol lookup failed in every active frame.
    UnknownSymbol(Seq<char>),
    /// A divisor operand evaluated to integer zero.
    ZeroDivision,
    /// A `let*` binding list had an odd length.
    OddLet,
    /// Evaluation exceeded the documented nesting limit.
    RecursionLimit,
}

/// An error from reading or evaluating one line.
#[derive(Debug, PartialEq)]
pub enum ReplError {
    Unclosed(char),
    Eof,
    Arguments(String),
    Type { expected: String, received: String },
    UnknownSymbol(String),
    ZeroDivision,
    OddLet,
    RecursionLimit,
}

impl ReplError {
    /// The deep view of this error.
    pub open spec fn dv(self) -> ErrorV {
        match self {
            ReplError::Unclosed(c) => ErrorV::Unclosed(c),
            ReplError::Eof => ErrorV::Eof,
            ReplError::Arguments(s) => ErrorV::Arguments(s@),
            ReplError::Type { expected, received } => ErrorV::Type {
                expected: expected@,
                received: received@,
            },
            ReplError::UnknownSymbol(s) => ErrorV::UnknownSymbol(s@),
            ReplError::ZeroDivision => ErrorV::ZeroDivision,
            ReplError::OddLet => ErrorV::OddLet,
            ReplError::RecursionLimit => ErrorV::RecursionLimit,
        }
    }
}

impl View for ReplError {
    type V = ErrorV;

    open spec fn view(&self) -> ErrorV {
        self.dv()
    }
}

/// The one-line description of an error.
pub open spec fn message_v(e: ErrorV) -> Seq<char> {
    match e {
        ErrorV::Unclosed(c) => "Unclosed '"@.push(c) + "'."@,
        ErrorV::Eof => "Found EOF."@,
        ErrorV::Arguments(s) => "Missing parameters for '"@ + s + "' operation."@,
        ErrorV::Type { expected, received } => "Invalid type. Expected "@ + expected
            + ", received "@ + received + "."@,
        ErrorV::UnknownSymbol(s) => s + " not found."@,
        ErrorV::ZeroDivision => "Tried to divide by 0."@,
        ErrorV::OddLet => "Odd number of arguments passed for let*."@,
        ErrorV::RecursionLimit => "Recursion limit reached."@,
    }
}

impl ReplError {
    /// The one-line description of this error, for the surrounding shell to
    /// report.
    pub fn message(&self) -> (r: String)
        ensures
            r@ == message_v(self.dv()),
    {
        match self {
            ReplError::Unclosed(c) => {
                let mut out = "Unclosed '".to_owned();
                push_char(&mut out, *c);
                out.append("'.");
                proof {
                    assert(out@ =~= message_v(self.dv()));
                }
                out
            },
            ReplError::Eof => "Found EOF.".to_owned(),
            ReplError::Arguments(s) => {
                let mut out = "Missing parameters for '".to_owned();
                out.append(s.as_str());
                out.append("' operation.");
                out
            },
            ReplError::Type { expected, received } => {
                let mut out = "Invalid type. Expected ".to_owned();
                out.append(expected.as_str());
                out.append(", received ");
                out.append(received.as_str());
                out.append(".");
                out
            },
            ReplError::UnknownSymbol(s) => {
                let mut out = s.as_str().to_owned();
                out.append(" not found.");
                out
            },
            ReplError::ZeroDivision => "Tried to divide by 0.".to_owned(),
            ReplError::OddLet => "Odd number of arguments passed for let*.".to_owned(),
            ReplError::RecursionLimit => "Recursion limit reached.".to_owned(),
        }
    }
}

} // verus!
