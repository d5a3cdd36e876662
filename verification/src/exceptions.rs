//! Error kinds that the protocol core distinguishes.
use vstd::prelude::*;

verus! {

/// Every fallible operation of the core returns one of these kinds.
#[derive(Debug, Clone)]
pub enum Exception {
    /// The first frame did not match the three-token header grammar.
    InvalidHeader,
    /// An outbound dial was refused at the OS layer.
    ConnectionRefusedError,
    /// A client-side endpoint string could not be parsed.
    InvalidOblivion,
    /// A length prefix exceeds the defensive upper bound.
    DataTooLarge { size: usize },
    /// A handler-level rejection of the request method.
    UnsupportedMethod,
    /// The AEAD seal operation failed.
    EncryptError,
    /// The AEAD open operation failed: authentication did not pass.
    DecryptError,
    /// Ephemeral key generation or agreement failed.
    KeyAgreementError,
    /// A regex route pattern could not be compiled.
    BadRoutePattern,
    /// An operation was attempted on a session whose closed flag is set,
    /// or the peer closed the connection mid-frame.
    ConnectionClosed,
}

impl Exception {
    /// A human-readable description, in place of a `Display` impl.
    pub fn message(&self) -> String {
        match self {
            Exception::InvalidHeader => String::from_str("invalid header"),
            Exception::ConnectionRefusedError => String::from_str("connection refused"),
            Exception::InvalidOblivion => String::from_str("invalid oblivion address"),
            Exception::DataTooLarge { .. } => String::from_str("exceeded expected packet size"),
            Exception::UnsupportedMethod => String::from_str("method is not supported"),
            Exception::EncryptError => String::from_str("exception while encrypting"),
            Exception::DecryptError => String::from_str("exception while decrypting"),
            Exception::KeyAgreementError => String::from_str("exception during shared key generation"),
            Exception::BadRoutePattern => String::from_str("route pattern could not be compiled"),
            Exception::ConnectionClosed => String::from_str("trying to read or write a closed connection"),
        }
    }
}

} // verus!
