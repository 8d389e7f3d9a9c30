//! The error value shared by the whole library.

use vstd::prelude::*;
use vstd::string::*;

verus! {

/// The family an error belongs to.
#[derive(Clone, Copy, Debug, PartialEq, Eq, Structural)]
pub enum ErrorKind {
    /// A host was unreachable or refused the connection.
    Connection,
    /// A probe answered, but a required field is absent or of the wrong type.
    MalformedResponse,
    /// Discovery found no hosts, no primary, or several primaries.
    Discovery,
    /// An operation was invoked without the state it needs.
    Usage,
    /// One or more hosts failed while a whole set was being torn down.
    Disconnect,
    /// A host address was not of the form `address[:port]`.
    Format,
}

/// An error: its family, where it arose, a short name and a longer message.
#[derive(Clone, Debug)]
pub struct Error {
    pub kind: ErrorKind,
    pub site: String,
    pub name: String,
    pub detail: String,
}

/// The mathematical content of an [`Error`].
pub struct ErrorView {
    pub kind: ErrorKind,
    pub site: Seq<char>,
    pub name: Seq<char>,
    pub detail: Seq<char>,
}

impl ErrorView {
    /// The one-line rendering: `ERR | site | name => detail`.
    pub open spec fn text(self) -> Seq<char> {
        "ERR | "@ + self.site + " | "@ + self.name + " => "@ + self.detail
    }
}

impl View for Error {
    type V = ErrorView;

    open spec fn view(&self) -> ErrorView {
        ErrorView { kind: self.kind, site: self.site@, name: self.name@, detail: self.detail@ }
    }
}

impl Error {
    /// Builds an error from its four parts.
    pub fn new(kind: ErrorKind, site: &str, name: &str, detail: String) -> (e: Error)
        ensures
            e@ == (ErrorView { kind, site: site@, name: name@, detail: detail@ }),
    {
        Error { kind, site: site.to_owned(), name: name.to_owned(), detail }
    }

    /// Renders the error on one line.
    pub fn to_text(&self) -> (s: String)
        ensures
            s@ == self@.text(),
    {
        let mut s = "ERR | ".to_owned();
        s.append(self.site.as_str());
        s.append(" | ");
        s.append(self.name.as_str());
        s.append(" => ");
        s.append(self.detail.as_str());
        s
    }

    /// An independent copy of the error.
    pub fn duplicate(&self) -> (e: Error)
        ensures
            e@ == self@,
    {
        Error {
            kind: self.kind,
            site: self.site.clone(),
            name: self.name.clone(),
            detail: self.detail.clone(),
        }
    }
}

} // verus!
