//! Representation of all possible errors that may be raised when using this tool.

use vstd::prelude::*;
use vstd::string::StringExecFns;
use crate::time::jiff_error_text;

verus! {

/// Why a decimal number failed to parse (the kinds of std's `ParseIntError`
/// that unsigned parsing can give).
#[derive(Clone, Copy, Debug, PartialEq, Eq, Structural)]
pub enum IntErrorKind {
    /// The text was empty.
    Empty,
    /// The text held a character that is not a decimal digit.
    InvalidDigit,
    /// The number does not fit in the target type.
    PosOverflow,
}

/// The `Debug` text of std's `ParseIntError` of the given kind.
pub open spec fn int_error_debug(kind: IntErrorKind) -> Seq<char> {
    match kind {
        IntErrorKind::Empty => "ParseIntError { kind: Empty }"@,
        IntErrorKind::InvalidDigit => "ParseIntError { kind: InvalidDigit }"@,
        IntErrorKind::PosOverflow => "ParseIntError { kind: PosOverflow }"@,
    }
}

/// Enumeration of different types of errors that may be raised while using
/// this tool. Errors of outside crates that only the program meets (logging
/// setup, configuration loading, I/O) are held as their `Debug` text.
#[derive(Debug)]
pub enum MyError {
    /// Logging related error.
    Logging(String),
    /// Configuration related error.
    Config(String),
    /// I/O related error.
    IO(String),
    /// Parsing related error.
    Parse(IntErrorKind),
    /// `jiff` related error.
    DateTime(jiff::Error),
    /// Error related to invoking a system command: the command and its `stderr`.
    Command((String, String)),
    /// An unexpected error.
    Runtime(String),
}

impl MyError {
    /// The text of the message fixed for each variant, before its payload.
    pub open spec fn lead(&self) -> Seq<char> {
        match self {
            MyError::Logging(_) => "Log setup failed: "@,
            MyError::Config(_) => "Load config parameters error: "@,
            MyError::IO(_) => "I/O error: "@,
            MyError::Parse(_) => "Parse integer error: "@,
            MyError::DateTime(_) => "Date-time error: "@,
            MyError::Command(_) => "Command (`"@,
            MyError::Runtime(_) => "Runtime error: "@,
        }
    }

    /// The human readable description of this error.
    pub fn message(&self) -> (m: String)
        ensures
            m@.len() >= self.lead().len(),
            m@.take(self.lead().len() as int) == self.lead(),
            match self {
                MyError::Logging(x) => m@ == self.lead() + x@,
                MyError::Config(x) => m@ == self.lead() + x@,
                MyError::IO(x) => m@ == self.lead() + x@,
                MyError::Parse(k) => m@ == self.lead() + int_error_debug(*k),
                MyError::DateTime(_) => true,
                MyError::Command((c, e)) => m@ == self.lead() + c@ + "`) failed: "@ + e@,
                MyError::Runtime(x) => m@ == self.lead() + x@,
            },
    {
        let (mut m, tail) = match self {
            MyError::Logging(x) => ("Log setup failed: ".to_owned(), x.clone()),
            MyError::Config(x) => ("Load config parameters error: ".to_owned(), x.clone()),
            MyError::IO(x) => ("I/O error: ".to_owned(), x.clone()),
            MyError::Parse(k) => (
                "Parse integer error: ".to_owned(),
                match k {
                    IntErrorKind::Empty => "ParseIntError { kind: Empty }".to_owned(),
                    IntErrorKind::InvalidDigit => "ParseIntError { kind: InvalidDigit }".to_owned(),
                    IntErrorKind::PosOverflow => "ParseIntError { kind: PosOverflow }".to_owned(),
                },
            ),
            MyError::DateTime(e) => ("Date-time error: ".to_owned(), jiff_error_text(e)),
            MyError::Command((c, e)) => {
                let mut t = c.clone();
                t.append("`) failed: ");
                t.append(e.as_str());
                ("Command (`".to_owned(), t)
            },
            MyError::Runtime(x) => ("Runtime error: ".to_owned(), x.clone()),
        };
        let ghost lead = m@;
        m.append(tail.as_str());
        assert(m@.take(lead.len() as int) =~= lead);
        m
    }
}

} // verus!
