//! The library's error type: validation failures and import rejections.

use vstd::prelude::*;

verus! {

/// An error reported to the caller of a state operation. I/O and decoding
/// failures raised outside this crate are wrapped by the application; the
/// library itself only produces these.
#[derive(Clone, Debug)]
pub enum Error {
    /// A validation failure with no further detail (bad username, unknown
    /// user).
    Other,
    /// A failure with a human-readable explanation (snapshot rejected).
    Message(String),
}

impl Error {
    /// The text shown to an operator for this error.
    pub fn text(&self) -> (r: String)
        ensures
            *self matches Error::Message(s) ==> r@ == s@,
            *self is Other ==> r@ == "Unknown error"@,
    {
        match self {
            Error::Other => String::from_str("Unknown error"),
            Error::Message(s) => s.clone(),
        }
    }
}

} // verus!
