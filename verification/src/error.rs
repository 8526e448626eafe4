//! The two user-visible error kinds of the service.

use vstd::prelude::*;

verus! {

/// A request fails either because the client sent something malformed
/// (bad identifier, out-of-range answer token, oversized text, bad
/// creation payload) or because the store or serialization failed.
#[derive(Clone, Copy, Debug, PartialEq, Eq, Structural)]
pub enum QuizError {
    ClientError,
    ServerError,
}

impl QuizError {
    /// The HTTP status code a handler reports for this error:
    /// 400 for a client error, 500 for a server error.
    pub fn status_code(&self) -> (code: u16)
        ensures
            *self == QuizError::ClientError ==> code == 400,
            *self == QuizError::ServerError ==> code == 500,
    {
        match self {
            QuizError::ClientError => 400,
            QuizError::ServerError => 500,
        }
    }
}

} // verus!
