//! Error definitions.

use vstd::prelude::*;
use vstd::string::StringExecFns;

use crate::text::{decimal, decimal_string};

verus! {

/// Library errors.
#[derive(Debug, Clone, PartialEq)]
pub enum Error {
    /// A file could not be read.
    IO(String),
    /// A reply lacks an expected element.
    NotFound(String),
    /// A declaration line is malformed.
    Parse {
        /// Why the line was rejected.
        err: String,
        /// One-based number of the line.
        lc: usize,
        /// Text of the line.
        line: String,
    },
    /// A value cannot be handed to the operating system.
    Conversion(String),
    /// A reply is not of the expected shape.
    Deserialization(String),
    /// Every permitted attempt has failed.
    MaxRetries,
    /// A request failed or was answered with an error status.
    Reqwest(String),
    /// The command could not be started.
    Execution(String),
}

/// Mathematical value of an [`Error`].
pub enum ErrorView {
    IO(Seq<char>),
    NotFound(Seq<char>),
    Parse { err: Seq<char>, lc: nat, line: Seq<char> },
    Conversion(Seq<char>),
    Deserialization(Seq<char>),
    MaxRetries,
    Reqwest(Seq<char>),
    Execution(Seq<char>),
}

impl ErrorView {
    /// The error in words.
    pub open spec fn message(self) -> Seq<char> {
        match self {
            ErrorView::IO(m) => "IO error: "@ + m,
            ErrorView::NotFound(m) => "Element not found: "@ + m,
            ErrorView::Parse { err, lc, line } => "Parse error: "@ + err + " (line "@ + decimal(lc)
                + ": `"@ + line + "`)"@,
            ErrorView::Conversion(m) => "Conversion error: "@ + m,
            ErrorView::Deserialization(m) => "Deserialization error: "@ + m,
            ErrorView::MaxRetries => "Max number of retries reached"@,
            ErrorView::Reqwest(m) => "Reqwest error: "@ + m,
            ErrorView::Execution(m) => "Execution error: "@ + m,
        }
    }
}

impl View for Error {
    type V = ErrorView;

    open spec fn view(&self) -> ErrorView {
        match self {
            Error::IO(m) => ErrorView::IO(m@),
            Error::NotFound(m) => ErrorView::NotFound(m@),
            Error::Parse { err, lc, line } => ErrorView::Parse {
                err: err@,
                lc: *lc as nat,
                line: line@,
            },
            Error::Conversion(m) => ErrorView::Conversion(m@),
            Error::Deserialization(m) => ErrorView::Deserialization(m@),
            Error::MaxRetries => ErrorView::MaxRetries,
            Error::Reqwest(m) => ErrorView::Reqwest(m@),
            Error::Execution(m) => ErrorView::Execution(m@),
        }
    }
}

/// `detail` behind `prefix`.
fn prefixed(prefix: &str, detail: &String) -> (s: String)
    ensures
        s@ == prefix@ + detail@,
{
    let mut s = prefix.to_owned();
    s.append(detail.as_str());
    s
}

impl Error {
    /// Shorthand to construct the `Parse` variant from a zero-based line index.
    pub fn parse(err: &str, line_index: usize, line: &str) -> (e: Self)
        requires
            line_index < usize::MAX,
        ensures
            e@ == (ErrorView::Parse { err: err@, lc: (line_index + 1) as nat, line: line@ }),
    {
        Error::Parse { err: err.to_owned(), lc: line_index + 1, line: line.to_owned() }
    }

    /// The error in words.
    pub fn message(&self) -> (s: String)
        ensures
            s@ == self@.message(),
    {
        match self {
            Error::IO(m) => prefixed("IO error: ", m),
            Error::NotFound(m) => prefixed("Element not found: ", m),
            Error::Parse { err, lc, line } => {
                let mut s = "Parse error: ".to_owned();
                s.append(err.as_str());
                s.append(" (line ");
                s.append(decimal_string(*lc).as_str());
                s.append(": `");
                s.append(line.as_str());
                s.append("`)");
                s
            },
            Error::Conversion(m) => prefixed("Conversion error: ", m),
            Error::Deserialization(m) => prefixed("Deserialization error: ", m),
            Error::MaxRetries => "Max number of retries reached".to_owned(),
            Error::Reqwest(m) => prefixed("Reqwest error: ", m),
            Error::Execution(m) => prefixed("Execution error: ", m),
        }
    }
}

} // verus!
