//! Error values at the inference boundary. Detection exhaustion and
//! unsupported-input conditions are distinguishable from ordinary
//! read/parse failures, since they indicate a caller-fixable input.

use vstd::prelude::*;

verus! {

/// A format was recognized but is infeasible for the requested mode, a
/// disabled format was requested, or no detection strategy matched.
#[derive(Debug)]
pub struct UnsupportedFormatError {
    message: String,
}

impl UnsupportedFormatError {
    /// The message carried by the error.
    pub closed spec fn spec_message(&self) -> Seq<char> {
        self.message@
    }

    /// Wrap a message.
    pub fn new(message: String) -> (r: Self)
        ensures
            r.spec_message() == message@,
    {
        UnsupportedFormatError { message }
    }

    /// The message carried by the error.
    pub fn message(&self) -> (r: &String)
        ensures
            r@ == self.spec_message(),
    {
        &self.message
    }
}

/// Malformed content: the source bytes could not be parsed, annotated
/// with the operation that failed and the parser's own description.
#[derive(Debug)]
pub struct SourceParseError {
    pub operation: String,
    pub detail: String,
}

} // verus!
