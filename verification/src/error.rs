//! The error returned when a host, domain, link or path cannot be parsed.

use vstd::prelude::*;
use vstd::string::StringExecFns;

verus! {

/// An error encountered while parsing, carrying a human-readable message.
#[derive(Debug)]
pub struct ParseError {
    message: String,
}

impl View for ParseError {
    type V = Seq<char>;

    closed spec fn view(&self) -> Seq<char> {
        self.message@
    }
}

impl ParseError {
    /// An error with the given message.
    pub fn new(message: String) -> (e: Self)
        ensures
            e@ == message@,
    {
        ParseError { message }
    }

    /// An error whose message is `prefix` followed by `detail`.
    pub fn with_detail(prefix: &str, detail: &str) -> (e: Self)
        ensures
            e@ == prefix@ + detail@,
    {
        let mut message = String::from_str(prefix);
        message.append(detail);
        ParseError { message }
    }

    /// Borrow the message of this error.
    pub fn message(&self) -> (r: &str)
        ensures
            r@ == self@,
    {
        self.message.as_str()
    }

    /// The message of this error.
    pub fn to_string(&self) -> (r: String)
        ensures
            r@ == self@,
    {
        self.message.clone()
    }
}

} // verus!
