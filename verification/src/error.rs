//! The errors of the repository core.

use vstd::prelude::*;

verus! {

/// The error kinds that the repository core reports. Nothing is recovered
/// locally: every error reaches the caller.
#[derive(Clone, Copy, Debug, PartialEq, Eq, Structural)]
pub enum Error {
    /// Encryption or decryption failed, or the authentication tag did not match.
    CryptoError,
    /// The storage backend failed, or does not hold the file asked for.
    BackendError,
    /// A key file, a pack header or a pack is malformed or truncated.
    FormatError,
    /// A parameter is out of range: scrypt parameters, a value of `N` that is
    /// no power of two, or a blob too large for a pack.
    InvalidParameter,
    /// No key file of the repository opens with the given password.
    NoSuitableKey,
    /// The password does not open the key file.
    WrongPassword,
    /// A task was cancelled while it waited.
    Cancelled,
}

impl Error {
    /// A short description of the error, for messages.
    pub fn message(&self) -> (s: &'static str)
        ensures
            s@ == Error::message_text(*self),
    {
        match self {
            Error::CryptoError => "crypto error",
            Error::BackendError => "backend error",
            Error::FormatError => "malformed repository file",
            Error::InvalidParameter => "invalid parameter",
            Error::NoSuitableKey => "no suitable key found!",
            Error::WrongPassword => "decryption failed",
            Error::Cancelled => "cancelled",
        }
    }

    /// The text that [`Error::message`] returns.
    pub open spec fn message_text(e: Error) -> Seq<char> {
        match e {
            Error::CryptoError => "crypto error"@,
            Error::BackendError => "backend error"@,
            Error::FormatError => "malformed repository file"@,
            Error::InvalidParameter => "invalid parameter"@,
            Error::NoSuitableKey => "no suitable key found!"@,
            Error::WrongPassword => "decryption failed"@,
            Error::Cancelled => "cancelled"@,
        }
    }
}

} // verus!
