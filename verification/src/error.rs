//! Crate error taxonomy.

use vstd::prelude::*;
use vstd::string::StringExecFns;

use crate::text::{decimal, push_decimal, push_str};

verus! {

/// Why splitting a command line failed.
#[derive(Debug, Clone, Copy, PartialEq, Eq, Structural)]
pub enum QuoteErrorKind {
    UnterminatedSingleQuote,
    UnterminatedDoubleQuote,
    TrailingBackslash,
}

/// Why splitting a command line failed. `pos` is a 0-based byte offset.
#[derive(Debug, Clone, Copy, PartialEq, Eq, Structural)]
pub struct QuoteError {
    pub pos: usize,
    pub kind: QuoteErrorKind,
}

impl QuoteError {
    pub fn new(pos: usize, kind: QuoteErrorKind) -> (r: QuoteError)
        ensures
            r.pos == pos,
            r.kind == kind,
    {
        QuoteError { pos, kind }
    }
}


impl QuoteErrorKind {
    /// The human-readable description of this kind.
    pub open spec fn text(self) -> Seq<char> {
        match self {
            QuoteErrorKind::UnterminatedSingleQuote => "unterminated single quote"@,
            QuoteErrorKind::UnterminatedDoubleQuote => "unterminated double quote"@,
            QuoteErrorKind::TrailingBackslash => "trailing backslash"@,
        }
    }

    /// The human-readable description of this kind (its display form).
    pub fn message(&self) -> (r: String)
        ensures
            r@ == self.text(),
    {
        match self {
            QuoteErrorKind::UnterminatedSingleQuote => String::from_str("unterminated single quote"),
            QuoteErrorKind::UnterminatedDoubleQuote => String::from_str("unterminated double quote"),
            QuoteErrorKind::TrailingBackslash => String::from_str("trailing backslash"),
        }
    }
}

impl QuoteError {
    /// `"<kind> at offset <pos>"`.
    pub open spec fn text(self) -> Seq<char> {
        self.kind.text() + " at offset "@ + decimal(self.pos as nat)
    }

    /// The display form: `"<kind> at offset <pos>"`.
    pub fn message(&self) -> (r: String)
        ensures
            r@ == self.text(),
    {
        let mut s = self.kind.message();
        push_str(&mut s, " at offset ");
        push_decimal(&mut s, self.pos as u64);
        s
    }
}

#[verifier::external_type_specification]
#[verifier::external_body]
pub struct ExIoError(std::io::Error);

/// The crate's top-level error type.
#[derive(Debug)]
pub enum Error {
    /// A command line could not be split into arguments.
    Quote(QuoteError),
    /// An operating-system call failed.
    Io(std::io::Error),
    /// An operation isn't available on this platform / in this build.
    Unsupported { op: String, platform: &'static str, detail: String },
    /// A containment mechanism could not be established or torn down.
    Containment { detail: String },
}

/// Wraps `<std::io::Error as ToString>::to_string`, the operating system's
/// description of the error; nothing is stated about its text.
#[verifier::external_body]
fn io_error_text(e: &std::io::Error) -> String {
    e.to_string()
}

impl Error {
    /// The display form of this error. For `Io` it is the operating system's
    /// description, of which nothing is stated here.
    pub fn message(&self) -> (r: String)
        ensures
            self matches Error::Quote(q) ==> r@ == "argument parsing failed: "@ + q.text(),
            self matches Error::Unsupported { op, platform, detail } ==> r@ == op@
                + " is not supported on "@ + platform@ + ": "@ + detail@,
            self matches Error::Containment { detail } ==> r@ == "process containment failed: "@
                + detail@,
    {
        match self {
            Error::Quote(q) => {
                let mut s = String::from_str("argument parsing failed: ");
                let m = q.message();
                push_str(&mut s, m.as_str());
                s
            },
            Error::Io(e) => io_error_text(e),
            Error::Unsupported { op, platform, detail } => {
                let mut s = op.clone();
                push_str(&mut s, " is not supported on ");
                push_str(&mut s, platform);
                push_str(&mut s, ": ");
                push_str(&mut s, detail.as_str());
                s
            },
            Error::Containment { detail } => {
                let mut s = String::from_str("process containment failed: ");
                push_str(&mut s, detail.as_str());
                s
            },
        }
    }
}

impl From<QuoteError> for Error {
    fn from(e: QuoteError) -> (r: Error) {
        Error::Quote(e)
    }
}

impl vstd::std_specs::convert::FromSpecImpl<QuoteError> for Error {
    open spec fn obeys_from_spec() -> bool {
        true
    }

    open spec fn from_spec(e: QuoteError) -> Error {
        Error::Quote(e)
    }
}

} // verus!
