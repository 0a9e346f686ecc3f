use vstd::prelude::*;

verus! {

/// The error type of the library: a human readable message.
#[derive(Debug, PartialEq, Eq)]
pub struct Error {
    pub message: String,
}

impl Error {
    /// Creates an error with the given message.
    pub fn new(message: &str) -> (e: Error)
        ensures
            e.message@ == message@,
    {
        Error { message: message.to_owned() }
    }

    /// The message of the error.
    pub fn message(&self) -> (m: String)
        ensures
            m@ == self.message@,
    {
        self.message.clone()
    }
}

} // verus!
