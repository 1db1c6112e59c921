//! The error type shared by the protocol modules.

use vstd::prelude::*;

verus! {

/// What a protocol step can fail with.
#[derive(Debug, Clone, PartialEq, Eq)]
pub enum Error {
    /// A handshake message that does not fit the state it arrived in.
    Handshake(String),
    /// A malformed or undecryptable value.
    Crypto(String),
    /// A malformed onion cell.
    Onion(String),
    /// A proof of work that could not be computed.
    PowFailed(String),
    /// Something that was looked up and does not exist.
    NotFound(String),
    /// An authentication tag that does not match.
    AuthFailed,
    /// The other side of a channel is gone.
    Closed,
}

/// `r` is the error `Crypto` with the text `text`.
pub open spec fn is_crypto<T>(r: Result<T, Error>, text: Seq<char>) -> bool {
    r matches Err(Error::Crypto(m)) && m@ == text
}

/// `r` is the error `Handshake` with the text `text`.
pub open spec fn is_handshake<T>(r: Result<T, Error>, text: Seq<char>) -> bool {
    r matches Err(Error::Handshake(m)) && m@ == text
}

/// `r` is the error `Onion` with the text `text`.
pub open spec fn is_onion<T>(r: Result<T, Error>, text: Seq<char>) -> bool {
    r matches Err(Error::Onion(m)) && m@ == text
}

/// `r` is the error `PowFailed` with the text `text`.
pub open spec fn is_pow_failed<T>(r: Result<T, Error>, text: Seq<char>) -> bool {
    r matches Err(Error::PowFailed(m)) && m@ == text
}

/// `r` is the error `NotFound` with the text `text`.
pub open spec fn is_not_found<T>(r: Result<T, Error>, text: Seq<char>) -> bool {
    r matches Err(Error::NotFound(m)) && m@ == text
}

} // verus!
