//! Errors of the library.
use vstd::prelude::*;

verus! {

/// `std::io::Error`, carried unopened in [`Error::Io`].
#[verifier::external_type_specification]
#[verifier::external_body]
pub struct ExIoError(std::io::Error);

/// Errors that can occur during UPI operations.
#[derive(Debug)]
pub enum Error {
    /// The detected or specified OS has no matching platform config.
    UnsupportedOs(String),
    /// A YAML platform definition is malformed or missing required fields.
    PlatformConfig(String),
    /// Package resolution failed across all available sources.
    Resolve(String),
    /// The install command or a subprocess failed.
    Exec(String),
    /// Database open, query, or rehydration failed.
    Database(String),
    /// A network request failed (HTTP, DNS, timeout).
    Network(String),
    /// An underlying I/O operation failed.
    Io(std::io::Error),
    /// A required command or shell was not found on PATH.
    ProgramNotFound(String),
}

/// The message of an error, as the error's display shows it; for an I/O
/// error only its prefix is stated (the rest is the operating system's text).
pub open spec fn message_of(e: Error) -> Seq<char> {
    match e {
        Error::UnsupportedOs(m) => "unsupported OS: "@ + m@,
        Error::PlatformConfig(m) => "platform config error: "@ + m@,
        Error::Resolve(m) => "resolve error: "@ + m@,
        Error::Exec(m) => "execution error: "@ + m@,
        Error::Database(m) => "database error: "@ + m@,
        Error::Network(m) => "network error: "@ + m@,
        Error::Io(_) => "I/O error: "@,
        Error::ProgramNotFound(p) => "program not found: "@ + p@,
    }
}

/// `std::io::Error`'s display text (its `to_string`). What it says comes
/// from the operating system; nothing about it is stated.
#[verifier::external_body]
fn io_error_text(e: &std::io::Error) -> String {
    e.to_string()
}

/// Concatenation of a literal prefix and a string.
pub fn prefixed(prefix: &str, s: &str) -> (r: String)
    ensures
        r@ == prefix@ + s@,
{
    let mut r = prefix.to_string();
    r.append(s);
    r
}

impl Error {
    /// The human-readable message of the error.
    pub fn message(&self) -> (r: String)
        ensures
            !(self is Io) ==> r@ == message_of(*self),
            self is Io ==> r@.take("I/O error: "@.len() as int) == "I/O error: "@,
    {
        match self {
            Error::UnsupportedOs(m) => prefixed("unsupported OS: ", m.as_str()),
            Error::PlatformConfig(m) => prefixed("platform config error: ", m.as_str()),
            Error::Resolve(m) => prefixed("resolve error: ", m.as_str()),
            Error::Exec(m) => prefixed("execution error: ", m.as_str()),
            Error::Database(m) => prefixed("database error: ", m.as_str()),
            Error::Network(m) => prefixed("network error: ", m.as_str()),
            Error::Io(e) => {
                let text = io_error_text(e);
                let r = prefixed("I/O error: ", text.as_str());
                assert(r@.take("I/O error: "@.len() as int) =~= "I/O error: "@);
                r
            },
            Error::ProgramNotFound(p) => prefixed("program not found: ", p.as_str()),
        }
    }
}


impl From<std::io::Error> for Error {
    /// An I/O error as an error of the library.
    fn from(err: std::io::Error) -> (r: Self) {
        Error::Io(err)
    }
}

impl vstd::std_specs::convert::FromSpecImpl<std::io::Error> for Error {
    open spec fn obeys_from_spec() -> bool {
        true
    }

    open spec fn from_spec(v: std::io::Error) -> Self {
        Error::Io(v)
    }
}

} // verus!
