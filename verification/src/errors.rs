//! Error taxonomy of the messaging core.

use vstd::prelude::*;

verus! {

/// Failure classes surfaced by the core operations.
#[derive(Clone, Copy, Debug, PartialEq, Eq, Structural)]
pub enum CoreError {
    /// A remote public key was not exactly 32 bytes.
    InvalidKeyLength,
    /// A public key encoding is not a valid curve point.
    InvalidPoint,
    /// Authenticated decryption failed.
    DecryptionFailed,
    /// Decrypted bytes are not valid UTF-8.
    Utf8Error,
    /// A stored nonce was not exactly 12 bytes.
    BadNonceLength,
    /// A decrypted secret key was not exactly 32 bytes.
    BadKeyLength,
    /// A persisted object could not be decoded.
    FormatError,
    /// The remote store reported a non-success outcome.
    StoreError,
    /// An operation that needs an active session ran while signed out.
    StateError,
}

} // verus!
