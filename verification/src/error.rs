//! The error that the prober's construction can end in.

use vstd::prelude::*;
use vstd::std_specs::convert::FromSpecImpl;

verus! {

/// `std::io::Error`, carried through as it came from the operating system.
#[verifier::external_type_specification]
#[verifier::external_body]
pub struct ExIoError(std::io::Error);

/// Errors that can be returned by the prober.
///
/// There is one: the transports could not be opened when the prober was
/// made, most often for want of the privilege to open a raw socket. Nothing
/// that happens later is an error of this kind; a failed send or a malformed
/// reply is dealt with where it happens.
#[derive(Debug)]
pub enum Error {
    /// Networking problems; `source` is what the operating system reported.
    NetworkError { source: std::io::Error },
}

/// Calls `to_string` on `source`: what a `std::io::Error` says of itself.
///
/// Trusted, and nothing is claimed of the text: it is the operating
/// system's, in the words of the system's locale.
#[verifier::external_body]
fn io_error_text(source: &std::io::Error) -> (text: String) {
    source.to_string()
}

impl Error {
    /// What the operating system reported.
    pub fn source(&self) -> (source: &std::io::Error)
        ensures
            *self == (Error::NetworkError { source: *source }),
    {
        match self {
            Error::NetworkError { source } => source,
        }
    }

    /// The error in words, for a log or a message to the user: the words
    /// "Network error: ", and then what the operating system reported.
    pub fn message(&self) -> (text: String)
        ensures
            "Network error: "@.is_prefix_of(text@),
    {
        match self {
            Error::NetworkError { source } => {
                let reported = io_error_text(source);
                let text = String::from_str("Network error: ").concat(reported.as_str());
                assert(text@.subrange(0, "Network error: "@.len() as int) =~= "Network error: "@);
                text
            },
        }
    }
}

impl From<std::io::Error> for Error {
    fn from(e: std::io::Error) -> (error: Error) {
        Error::NetworkError { source: e }
    }
}

impl FromSpecImpl<std::io::Error> for Error {
    open spec fn obeys_from_spec() -> bool {
        true
    }

    open spec fn from_spec(e: std::io::Error) -> Error {
        Error::NetworkError { source: e }
    }
}

} // verus!
