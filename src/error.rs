//! The error type shared by parsing and negotiation.
use vstd::prelude::*;

verus! {

/// Status code of a failed negotiation: Not Acceptable.
pub const NOT_ACCEPTABLE: u16 = 406;

/// Status code of a header that could not be parsed: Bad Request.
pub const BAD_REQUEST: u16 = 400;

/// An error carrying an HTTP status code and a short description.
#[derive(Debug)]
pub struct Error {
    pub status: u16,
    pub message: String,
}

impl Error {
    /// Creates an error with the given status and message.
    pub fn new(status: u16, message: &str) -> (r: Error)
        ensures
            r.status == status,
            r.message@ == message@,
    {
        Error { status, message: String::from_str(message) }
    }

    /// The HTTP status code attached to this error.
    pub fn status(&self) -> (r: u16)
        ensures
            r == self.status,
    {
        self.status
    }

    /// The description of this error.
    pub fn message(&self) -> (r: &str)
        ensures
            r@ == self.message@,
    {
        self.message.as_str()
    }
}

} // verus!
